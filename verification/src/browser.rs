//! The viewer's state, and how keys, clicks and reloads change it: the note
//! list filtered by the tag search, the selection, the focused pane, the
//! preview's scroll and the image shown full screen.

use vstd::prelude::*;
use crate::frontmatter::{normalize_tags, normalized_tags, Tags};
use crate::note::{Note, NoteImage};
use crate::preview::{min_u16, parts_view, PartView, Placement, PreviewPart};
use crate::text::push_char;
use crate::viewer::{
    filter_note_indices, lemma_matching_indices, matching_indices, rect_contains, rect_holds,
    search_tokens, search_tokens_of, tags_match, Focus, Rect,
};

verus! {

/// `String::pop`: the last character is removed and returned, if there is one.
#[verifier::external_body]
fn pop_char(s: &mut String) -> (r: Option<char>)
    ensures
        old(s)@.len() == 0 ==> r is None && final(s)@ == old(s)@,
        old(s)@.len() > 0 ==> r == Some(old(s)@.last()) && final(s)@ == old(s)@.drop_last(),
{
    s.pop()
}

/// An image of a note: the note's index and the index of the block that
/// holds the image.
#[derive(Debug, Clone, Copy, PartialEq, Eq, Structural)]
pub struct ImageRef {
    pub note: usize,
    pub block: usize,
}

/// Where an image was drawn in the last frame.
#[derive(Debug, Clone, Copy, PartialEq, Eq, Structural)]
pub struct ImageHitArea {
    pub area: Rect,
    pub image: ImageRef,
}

/// The state of the viewer. `search_area`, `list_items_area`, `list_offset`
/// and `image_hit_areas` are written by the renderer after each frame; the
/// other fields change through the methods below.
pub struct App {
    pub notes: Vec<Note>,
    /// Indices into `notes` of the notes that the search matches, in order.
    pub filtered_indices: Vec<usize>,
    /// The selected position in `filtered_indices`.
    pub selected: Option<usize>,
    /// The first visible position of the note list.
    pub list_offset: usize,
    pub focus: Focus,
    pub search_query: String,
    pub search_area: Rect,
    pub preview_scroll: u16,
    pub list_items_area: Rect,
    pub image_hit_areas: Vec<ImageHitArea>,
    /// The focused image, an index into the selected note's images that have a
    /// file.
    pub focused_image: Option<usize>,
    pub fullscreen_image: Option<ImageRef>,
    pub should_quit: bool,
}

/// The state of the viewer as plain values.
#[verifier::ext_equal]
pub struct AppView {
    pub notes: Seq<Note>,
    pub filtered: Seq<usize>,
    pub selected: Option<usize>,
    pub list_offset: usize,
    pub focus: Focus,
    pub query: Seq<char>,
    pub search_area: Rect,
    pub preview_scroll: u16,
    pub list_items_area: Rect,
    pub hit_areas: Seq<ImageHitArea>,
    pub focused_image: Option<usize>,
    pub fullscreen_image: Option<ImageRef>,
    pub should_quit: bool,
}

impl View for App {
    type V = AppView;

    open spec fn view(&self) -> AppView {
        AppView {
            notes: self.notes@,
            filtered: self.filtered_indices@,
            selected: self.selected,
            list_offset: self.list_offset,
            focus: self.focus,
            query: self.search_query@,
            search_area: self.search_area,
            preview_scroll: self.preview_scroll,
            list_items_area: self.list_items_area,
            hit_areas: self.image_hit_areas@,
            focused_image: self.focused_image,
            fullscreen_image: self.fullscreen_image,
            should_quit: self.should_quit,
        }
    }
}

/// The first position of `v` in `s`.
pub open spec fn position_of(s: Seq<usize>, v: usize) -> Option<usize>
    decreases s.len(),
{
    if s.len() == 0 {
        None
    } else if s.last() == v && position_of(s.drop_last(), v) is None {
        Some((s.len() - 1) as usize)
    } else {
        position_of(s.drop_last(), v)
    }
}

/// The selection after the list was filtered anew: the preferred note where
/// it is still listed, else the first note, else none.
pub open spec fn selection_after_filter(filtered: Seq<usize>, preferred: Option<usize>) -> Option<
    usize,
> {
    let fallback = if filtered.len() > 0 {
        Some(0usize)
    } else {
        None
    };
    match preferred {
        Some(p) => match position_of(filtered, p) {
            Some(i) => Some(i),
            None => fallback,
        },
        None => fallback,
    }
}

/// The notes that a query matches.
pub open spec fn filtered_for(notes: Seq<Note>, query: Seq<char>) -> Seq<usize> {
    matching_indices(notes, search_tokens_of(query), notes.len() as int)
}


/// The position below the selection, staying on the last one.
pub open spec fn next_position(selected: Option<usize>, len: nat) -> usize {
    match selected {
        Some(i) => if i + 1 < len {
            (i + 1) as usize
        } else {
            (len - 1) as usize
        },
        None => 0,
    }
}

/// The position above the selection, staying on the first one.
pub open spec fn previous_position(selected: Option<usize>) -> usize {
    match selected {
        Some(i) => if i >= 1 {
            (i - 1) as usize
        } else {
            0
        },
        None => 0,
    }
}

/// Rows that one page of the note list moves: the list's height, at least one.
pub open spec fn page_step(area: Rect) -> int {
    if area.height >= 1 {
        area.height as int
    } else {
        1
    }
}

/// `scroll` moved by `lines`, staying within `0..=u16::MAX`.
pub open spec fn scrolled(scroll: u16, lines: int) -> u16 {
    if scroll + lines < 0 {
        0
    } else if scroll + lines > u16::MAX {
        u16::MAX
    } else {
        (scroll + lines) as u16
    }
}


/// The positions, in order, of the images that have a file.
pub open spec fn resolved_images(images: Seq<NoteImage>) -> Seq<usize>
    decreases images.len(),
{
    if images.len() == 0 {
        seq![]
    } else {
        let p = resolved_images(images.drop_last());
        if images.last().resolved is Some {
            p.push((images.len() - 1) as usize)
        } else {
            p
        }
    }
}

/// The image focused after cycling through `count` images, forward or back,
/// from `current` (no image focused yet, or the focus out of range, starts at
/// the first image forward and at the last one back).
pub open spec fn cycled_image(current: Option<usize>, count: nat, forward: bool) -> usize {
    let valid = match current {
        Some(i) => if i < count {
            Some(i)
        } else {
            None
        },
        None => None,
    };
    match valid {
        Some(i) => if forward {
            ((i + 1) % (count as int)) as usize
        } else if i == 0 {
            (count - 1) as usize
        } else {
            (i - 1) as usize
        },
        None => if forward {
            0
        } else {
            (count - 1) as usize
        },
    }
}

/// The last of the areas that holds the cell.
pub open spec fn last_hit(areas: Seq<ImageHitArea>, column: u16, row: u16) -> Option<usize>
    decreases areas.len(),
{
    if areas.len() == 0 {
        None
    } else if rect_holds(areas.last().area, column, row) {
        Some((areas.len() - 1) as usize)
    } else {
        last_hit(areas.drop_last(), column, row)
    }
}

/// A mouse event, as the viewer reads it.
#[derive(Debug, Clone, Copy, PartialEq, Eq, Structural)]
pub enum MouseKind {
    LeftDown,
    ScrollDown,
    ScrollUp,
    Other,
}

#[derive(Debug, Clone, Copy, PartialEq, Eq, Structural)]
pub struct MouseInput {
    pub kind: MouseKind,
    pub column: u16,
    pub row: u16,
}

/// A key, as the viewer reads it.
#[derive(Debug, Clone, Copy, PartialEq, Eq, Structural)]
pub enum Key {
    Char(char),
    Esc,
    Enter,
    Backspace,
    Up,
    Down,
    PageUp,
    PageDown,
    Other,
}

/// A key press with its modifiers; `other_modifiers` stands for any modifier
/// but Shift and Control.
#[derive(Debug, Clone, Copy, PartialEq, Eq, Structural)]
pub struct KeyPress {
    pub key: Key,
    pub shift: bool,
    pub control: bool,
    pub other_modifiers: bool,
}

impl KeyPress {
    pub open spec fn no_modifiers(self) -> bool {
        !self.shift && !self.control && !self.other_modifiers
    }

    pub open spec fn shift_only(self) -> bool {
        self.shift && !self.control && !self.other_modifiers
    }
}

/// What a key press asks for.
#[derive(Debug, Clone, Copy, PartialEq, Eq, Structural)]
pub enum Command {
    Quit,
    CloseFullscreen,
    FocusSearch,
    FocusList,
    /// Focus the list and select the next note.
    ListNext,
    /// Focus the list and select the previous note.
    ListPrevious,
    Next,
    Previous,
    PageDown,
    PageUp,
    /// Focus the preview and scroll it down.
    ScrollDown,
    /// Focus the preview and scroll it up.
    ScrollUp,
    ClearSearch,
    PopChar,
    PushChar(char),
    Reload,
    OpenImage,
    CycleImage(bool),
    ShowTags,
    Nothing,
}

/// What the caller has to do after a key press: nothing more, reload the
/// vault, open the image that `image_to_open` names, report the image that
/// cycling focused (`None`: the note has no image), or show `all_tags`.
#[derive(Debug, Clone, Copy, PartialEq, Eq, Structural)]
pub enum KeyOutcome {
    Done,
    Reload,
    OpenImage,
    ImageCycled(Option<usize>),
    ShowTags,
}

/// The command of a key while the search field has the focus.
pub open spec fn search_command(k: KeyPress) -> Command {
    match k.key {
        Key::Esc | Key::Enter => Command::FocusList,
        Key::Backspace => Command::PopChar,
        Key::Char(c) => if c == 'u' && k.control {
            Command::ClearSearch
        } else if c == 'l' && k.control {
            Command::FocusList
        } else if c == 'r' && k.control {
            Command::Reload
        } else if c == 'o' && k.control {
            Command::OpenImage
        } else if k.no_modifiers() || k.shift_only() {
            Command::PushChar(c)
        } else {
            Command::Nothing
        },
        Key::Down => Command::Next,
        Key::Up => Command::Previous,
        _ => Command::Nothing,
    }
}

/// The command of a key while the list or the preview has the focus.
pub open spec fn navigation_command(k: KeyPress, focus: Focus) -> Command {
    match k.key {
        Key::Char(c) => if c == 'q' && k.no_modifiers() {
            Command::Quit
        } else if c == '/' && k.no_modifiers() {
            Command::FocusSearch
        } else if c == 't' && k.no_modifiers() {
            Command::ShowTags
        } else if c == 'o' && k.no_modifiers() {
            Command::OpenImage
        } else if c == '[' && k.no_modifiers() {
            Command::CycleImage(false)
        } else if c == ']' && k.no_modifiers() {
            Command::CycleImage(true)
        } else if c == 'l' && k.control {
            Command::FocusList
        } else if c == 'r' && k.control {
            Command::Reload
        } else if c == 'o' && k.control {
            Command::OpenImage
        } else if c == 'j' {
            Command::ListNext
        } else if c == 'k' {
            Command::ListPrevious
        } else if c == ' ' {
            Command::ScrollDown
        } else if c == 'b' {
            Command::ScrollUp
        } else if c == 'd' && k.control {
            Command::ScrollDown
        } else if c == 'u' && k.control {
            Command::ScrollUp
        } else {
            Command::Nothing
        },
        Key::Esc => Command::Quit,
        Key::Down => if k.control {
            Command::CycleImage(true)
        } else {
            Command::ListNext
        },
        Key::Up => if k.control {
            Command::CycleImage(false)
        } else {
            Command::ListPrevious
        },
        Key::PageDown => if focus == Focus::List {
            Command::PageDown
        } else {
            Command::ScrollDown
        },
        Key::PageUp => if focus == Focus::List {
            Command::PageUp
        } else {
            Command::ScrollUp
        },
        _ => Command::Nothing,
    }
}

/// The tags of all notes, in order, as written on each note.
pub open spec fn all_note_tags(notes: Seq<Note>) -> Seq<Seq<char>> {
    notes.map_values(|n: Note| n.tags.deep_view()).flatten()
}

impl AppView {
    /// The list shows the notes that the query matches, and a position of it
    /// is selected exactly when it is not empty.
    pub open spec fn wf(self) -> bool {
        &&& self.notes.len() <= usize::MAX
        &&& self.filtered == filtered_for(self.notes, self.query)
        &&& match self.selected {
            Some(i) => i < self.filtered.len(),
            None => self.filtered.len() == 0,
        }
    }

    /// Position `index` selected; the preview goes back to its top and
    /// forgets the focused image when the selection changes.
    pub open spec fn selecting(self, index: usize) -> AppView {
        if self.selected == Some(index) {
            self
        } else {
            AppView { selected: Some(index), preview_scroll: 0, focused_image: None, ..self }
        }
    }

    /// The list filtered anew by the query, with `preferred` (a note's index)
    /// kept selected where it is still listed.
    pub open spec fn with_filter(self, preferred: Option<usize>) -> AppView {
        let f = filtered_for(self.notes, self.query);
        AppView {
            filtered: f,
            selected: selection_after_filter(f, preferred),
            list_offset: 0,
            preview_scroll: 0,
            focused_image: None,
            ..self
        }
    }

    /// After moving to the next note of the list.
    pub open spec fn after_next(self) -> AppView {
        if self.filtered.len() == 0 {
            self
        } else {
            self.selecting(next_position(self.selected, self.filtered.len()))
        }
    }

    /// After moving to the previous note of the list.
    pub open spec fn after_previous(self) -> AppView {
        if self.filtered.len() == 0 {
            self
        } else {
            self.selecting(previous_position(self.selected))
        }
    }

    /// After moving one page of the list down, staying on the last note.
    pub open spec fn after_page_down(self) -> AppView {
        if self.filtered.len() == 0 {
            self
        } else {
            let current = match self.selected {
                Some(i) => i as int,
                None => 0,
            };
            let step = page_step(self.list_items_area);
            let target = if current + step < self.filtered.len() {
                current + step
            } else {
                self.filtered.len() - 1
            };
            self.selecting(target as usize)
        }
    }

    /// After moving one page of the list up, staying on the first note.
    pub open spec fn after_page_up(self) -> AppView {
        if self.filtered.len() == 0 {
            self
        } else {
            let current = match self.selected {
                Some(i) => i as int,
                None => 0,
            };
            let step = page_step(self.list_items_area);
            let target = if current >= step {
                current - step
            } else {
                0
            };
            self.selecting(target as usize)
        }
    }

    /// The command of a key press: Ctrl+Q quits anywhere; while an image is
    /// full screen only Esc (close it) and a bare `q` (quit) count; else the
    /// focused pane decides.
    pub open spec fn key_command(self, k: KeyPress) -> Command {
        if k.control && k.key == Key::Char('q') {
            Command::Quit
        } else if self.fullscreen_image is Some {
            if k.key == Key::Esc {
                Command::CloseFullscreen
            } else if k.key == Key::Char('q') && k.no_modifiers() {
                Command::Quit
            } else {
                Command::Nothing
            }
        } else if self.focus == Focus::Search {
            search_command(k)
        } else {
            navigation_command(k, self.focus)
        }
    }

    /// The state after a command.
    pub open spec fn after_command(self, c: Command) -> AppView {
        match c {
            Command::Quit => AppView { should_quit: true, ..self },
            Command::CloseFullscreen => AppView { fullscreen_image: None, ..self },
            Command::FocusSearch => AppView { focus: Focus::Search, ..self },
            Command::FocusList => AppView { focus: Focus::List, ..self },
            Command::ListNext => (AppView { focus: Focus::List, ..self }).after_next(),
            Command::ListPrevious => (AppView { focus: Focus::List, ..self }).after_previous(),
            Command::Next => self.after_next(),
            Command::Previous => self.after_previous(),
            Command::PageDown => self.after_page_down(),
            Command::PageUp => self.after_page_up(),
            Command::ScrollDown => AppView {
                focus: Focus::Preview,
                preview_scroll: scrolled(self.preview_scroll, 5),
                ..self
            },
            Command::ScrollUp => AppView {
                focus: Focus::Preview,
                preview_scroll: scrolled(self.preview_scroll, -5),
                ..self
            },
            Command::ClearSearch => if self.query.len() == 0 {
                self
            } else {
                (AppView { query: seq![], ..self }).with_filter(None)
            },
            Command::PopChar => if self.query.len() == 0 {
                self
            } else {
                (AppView { query: self.query.drop_last(), ..self }).with_filter(None)
            },
            Command::PushChar(ch) => (AppView { query: self.query.push(ch), ..self }).with_filter(
                None,
            ),
            Command::CycleImage(forward) => self.after_cycle(forward),
            Command::Reload | Command::OpenImage | Command::ShowTags | Command::Nothing => self,
        }
    }

    /// What is left for the caller after a command.
    pub open spec fn command_outcome(self, c: Command) -> KeyOutcome {
        match c {
            Command::Reload => KeyOutcome::Reload,
            Command::OpenImage => KeyOutcome::OpenImage,
            Command::ShowTags => KeyOutcome::ShowTags,
            Command::CycleImage(forward) => KeyOutcome::ImageCycled(
                self.after_cycle(forward).focused_image,
            ),
            _ => KeyOutcome::Done,
        }
    }

    /// The images of the selected note that have a file, as positions in its
    /// list of images.
    pub open spec fn selected_images(self) -> Seq<usize> {
        match self.selected_note() {
            Some(k) => if k < self.notes.len() {
                resolved_images(self.notes[k as int].images@)
            } else {
                seq![]
            },
            None => seq![],
        }
    }

    /// After cycling through the selected note's images: the next one focused
    /// and the preview focused, or no image focused when there is none.
    pub open spec fn after_cycle(self, forward: bool) -> AppView {
        let count = self.selected_images().len();
        if count == 0 {
            AppView { focused_image: None, ..self }
        } else {
            AppView {
                focused_image: Some(cycled_image(self.focused_image, count, forward)),
                focus: Focus::Preview,
                ..self
            }
        }
    }

    /// Which of the selected note's images to open: the focused one, else the
    /// first.
    pub open spec fn image_to_open(self) -> Option<usize> {
        let count = self.selected_images().len();
        match self.focused_image {
            Some(i) if i < count => Some(i),
            _ => if count > 0 {
                Some(0usize)
            } else {
                None
            },
        }
    }

    /// The position of the note list under the cell, if a note is listed there.
    pub open spec fn note_at(self, column: u16, row: u16) -> Option<usize> {
        if !rect_holds(self.list_items_area, column, row) {
            None
        } else {
            let index = self.list_offset + (row - self.list_items_area.y);
            if index < self.filtered.len() {
                Some(index as usize)
            } else {
                None
            }
        }
    }

    /// What a mouse event does: a click focuses the search field, opens an
    /// image full screen or selects a note; the wheel scrolls the preview by
    /// three rows. While an image is full screen the mouse does nothing.
    pub open spec fn after_mouse(self, mouse: MouseInput) -> AppView {
        if self.fullscreen_image is Some {
            self
        } else {
            match mouse.kind {
                MouseKind::LeftDown => if rect_holds(self.search_area, mouse.column, mouse.row) {
                    AppView { focus: Focus::Search, ..self }
                } else {
                    match last_hit(self.hit_areas, mouse.column, mouse.row) {
                        Some(k) => AppView {
                            focus: Focus::Preview,
                            fullscreen_image: Some(self.hit_areas[k as int].image),
                            ..self
                        },
                        None => match self.note_at(mouse.column, mouse.row) {
                            Some(index) => (AppView { focus: Focus::List, ..self }).selecting(index),
                            None => self,
                        },
                    }
                },
                MouseKind::ScrollDown => AppView {
                    focus: Focus::Preview,
                    preview_scroll: scrolled(self.preview_scroll, 3),
                    ..self
                },
                MouseKind::ScrollUp => AppView {
                    focus: Focus::Preview,
                    preview_scroll: scrolled(self.preview_scroll, -3),
                    ..self
                },
                MouseKind::Other => self,
            }
        }
    }

    /// The index into the notes of the selected note.
    pub open spec fn selected_note(self) -> Option<usize> {
        match self.selected {
            Some(i) => if i < self.filtered.len() {
                Some(self.filtered[i as int])
            } else {
                None
            },
            None => None,
        }
    }
}

proof fn lemma_position_of(s: Seq<usize>, v: usize)
    requires
        s.len() <= usize::MAX,
    ensures
        match position_of(s, v) {
            Some(i) => i < s.len() && s[i as int] == v && forall|j: int|
                0 <= j < i ==> s[j] != v,
            None => forall|j: int| 0 <= j < s.len() ==> s[j] != v,
        },
    decreases s.len(),
{
    if s.len() > 0 {
        lemma_position_of(s.drop_last(), v);
        let d = s.drop_last();
        assert forall|j: int| 0 <= j < d.len() implies d[j] == s[j] by {}
        assert(s[s.len() - 1] == s.last());
    }
}

proof fn lemma_selection_after_filter(filtered: Seq<usize>, preferred: Option<usize>)
    requires
        filtered.len() <= usize::MAX,
    ensures
        match selection_after_filter(filtered, preferred) {
            Some(i) => i < filtered.len(),
            None => filtered.len() == 0,
        },
{
    if let Some(p) = preferred {
        lemma_position_of(filtered, p);
    }
}

proof fn lemma_last_hit(areas: Seq<ImageHitArea>, column: u16, row: u16)
    requires
        areas.len() <= usize::MAX,
    ensures
        match last_hit(areas, column, row) {
            Some(k) => k < areas.len() && rect_holds(areas[k as int].area, column, row),
            None => true,
        },
    decreases areas.len(),
{
    if areas.len() > 0 {
        lemma_last_hit(areas.drop_last(), column, row);
    }
}

/// The command of a key while the search field has the focus.
pub fn search_key_command(k: KeyPress) -> (r: Command)
    ensures
        r == search_command(k),
{
    let bare = !k.shift && !k.control && !k.other_modifiers;
    let shift_only = k.shift && !k.control && !k.other_modifiers;
    match k.key {
        Key::Esc | Key::Enter => Command::FocusList,
        Key::Backspace => Command::PopChar,
        Key::Char(c) => if c == 'u' && k.control {
            Command::ClearSearch
        } else if c == 'l' && k.control {
            Command::FocusList
        } else if c == 'r' && k.control {
            Command::Reload
        } else if c == 'o' && k.control {
            Command::OpenImage
        } else if bare || shift_only {
            Command::PushChar(c)
        } else {
            Command::Nothing
        },
        Key::Down => Command::Next,
        Key::Up => Command::Previous,
        _ => Command::Nothing,
    }
}

/// The command of a key while the list or the preview has the focus.
pub fn navigation_key_command(k: KeyPress, focus: Focus) -> (r: Command)
    ensures
        r == navigation_command(k, focus),
{
    let bare = !k.shift && !k.control && !k.other_modifiers;
    match k.key {
        Key::Char(c) => if c == 'q' && bare {
            Command::Quit
        } else if c == '/' && bare {
            Command::FocusSearch
        } else if c == 't' && bare {
            Command::ShowTags
        } else if c == 'o' && bare {
            Command::OpenImage
        } else if c == '[' && bare {
            Command::CycleImage(false)
        } else if c == ']' && bare {
            Command::CycleImage(true)
        } else if c == 'l' && k.control {
            Command::FocusList
        } else if c == 'r' && k.control {
            Command::Reload
        } else if c == 'o' && k.control {
            Command::OpenImage
        } else if c == 'j' {
            Command::ListNext
        } else if c == 'k' {
            Command::ListPrevious
        } else if c == ' ' {
            Command::ScrollDown
        } else if c == 'b' {
            Command::ScrollUp
        } else if c == 'd' && k.control {
            Command::ScrollDown
        } else if c == 'u' && k.control {
            Command::ScrollUp
        } else {
            Command::Nothing
        },
        Key::Esc => Command::Quit,
        Key::Down => if k.control {
            Command::CycleImage(true)
        } else {
            Command::ListNext
        },
        Key::Up => if k.control {
            Command::CycleImage(false)
        } else {
            Command::ListPrevious
        },
        Key::PageDown => if focus == Focus::List {
            Command::PageDown
        } else {
            Command::ScrollDown
        },
        Key::PageUp => if focus == Focus::List {
            Command::PageUp
        } else {
            Command::ScrollUp
        },
        _ => Command::Nothing,
    }
}

/// The selected note, where there is one, is a note of the vault that the
/// search matches; a note is selected whenever the search matches any.
pub proof fn lemma_selected_note_matches(v: AppView)
    requires
        v.wf(),
    ensures
        v.selected_note() is Some <==> v.filtered.len() > 0,
        v.selected_note() matches Some(k) ==> k < v.notes.len() && tags_match(
            v.notes[k as int].tags.deep_view(),
            search_tokens_of(v.query),
        ),
{
    lemma_matching_indices(v.notes, search_tokens_of(v.query), v.notes.len() as int);
    if let Some(i) = v.selected {
        let f = v.filtered;
        assert(f.contains(f[i as int]));
    }
}

/// The indices `0..n`.
pub open spec fn all_indices(n: nat) -> Seq<usize> {
    Seq::new(n, |i: int| i as usize)
}

/// With an empty search every note is listed, in order.
pub proof fn lemma_empty_search_lists_all(notes: Seq<Note>)
    requires
        notes.len() <= usize::MAX,
    ensures
        filtered_for(notes, seq![]) == all_indices(notes.len()),
{
    assert(search_tokens_of(seq![]) =~= seq![]);
    lemma_all_match(notes, notes.len() as int);
}

proof fn lemma_all_match(notes: Seq<Note>, n: int)
    requires
        0 <= n <= notes.len() <= usize::MAX,
    ensures
        matching_indices(notes, seq![], n) == all_indices(n as nat),
    decreases n,
{
    if n > 0 {
        lemma_all_match(notes, n - 1);
        assert(tags_match(notes[n - 1].tags.deep_view(), seq![]));
        assert(matching_indices(notes, seq![], n) =~= all_indices(n as nat));
    }
}

/// Deleting the character just typed into the search gives back the search
/// and the list of notes as they were.
pub proof fn lemma_pop_undoes_push(v: AppView, c: char)
    requires
        v.wf(),
    ensures
        v.after_command(Command::PushChar(c)).after_command(Command::PopChar).query == v.query,
        v.after_command(Command::PushChar(c)).after_command(Command::PopChar).filtered
            == v.filtered,
{
    assert(v.query.push(c).drop_last() =~= v.query);
}

/// Scrolling the preview down and then up again returns to the same row,
/// unless the first scroll stopped at the bottom.
pub proof fn lemma_scroll_up_undoes_down(v: AppView)
    requires
        v.preview_scroll + 5 <= u16::MAX,
    ensures
        v.after_command(Command::ScrollDown).after_command(Command::ScrollUp).preview_scroll
            == v.preview_scroll,
{
}

/// The images among the placed blocks of the selected note `note`: where
/// each was drawn and which block of the note it shows.
pub open spec fn hit_areas_of(parts: Seq<PartView>, placed: Seq<Placement>, note: usize) -> Seq<
    ImageHitArea,
>
    decreases placed.len(),
{
    if placed.len() == 0 {
        seq![]
    } else {
        let p = hit_areas_of(parts, placed.drop_last(), note);
        let q = placed.last();
        if q.block < parts.len() && parts[q.block as int] is Image {
            p.push(ImageHitArea { area: q.area, image: ImageRef { note, block: parts[q.block as int]->Image_0 } })
        } else {
            p
        }
    }
}

/// Where the images of the selected note `note` were drawn, given its preview
/// parts and where they were placed.
pub fn image_hit_areas(parts: &[PreviewPart], placed: &[Placement], note: usize) -> (r: Vec<
    ImageHitArea,
>)
    ensures
        r@ == hit_areas_of(parts_view(parts@), placed@, note),
{
    let mut r: Vec<ImageHitArea> = Vec::new();
    let mut i: usize = 0;
    while i < placed.len()
        invariant
            i <= placed.len(),
            r@ == hit_areas_of(parts_view(parts@), placed@.take(i as int), note),
        decreases placed.len() - i,
    {
        assert(placed@.take(i + 1).drop_last() =~= placed@.take(i as int));
        let q = placed[i];
        if q.block < parts.len() {
            match &parts[q.block] {
                PreviewPart::Image { block } => {
                    r.push(ImageHitArea { area: q.area, image: ImageRef { note, block: *block } });
                },
                _ => {},
            }
        }
        i = i + 1;
    }
    assert(placed@.take(placed.len() as int) =~= placed@);
    r
}

/// Ctrl+Q quits, whatever has the focus and whether or not an image is full
/// screen.
pub proof fn lemma_ctrl_q_quits(v: AppView, k: KeyPress)
    requires
        k.control,
        k.key == Key::Char('q'),
    ensures
        v.after_command(v.key_command(k)).should_quit,
{
}

/// A bare `q` quits unless the search field has the focus (where it is typed).
pub proof fn lemma_q_quits_outside_search(v: AppView, k: KeyPress)
    requires
        k.key == Key::Char('q'),
        k.no_modifiers(),
    ensures
        v.focus != Focus::Search || v.fullscreen_image is Some ==> v.after_command(
            v.key_command(k),
        ).should_quit,
        v.focus == Focus::Search && v.fullscreen_image is None ==> v.after_command(
            v.key_command(k),
        ).query == v.query.push('q'),
{
}

/// `/` moves the focus to the search field.
pub proof fn lemma_slash_focuses_search(v: AppView, k: KeyPress)
    requires
        k.key == Key::Char('/'),
        k.no_modifiers(),
        v.fullscreen_image is None,
        v.focus != Focus::Search,
    ensures
        v.after_command(v.key_command(k)) == (AppView { focus: Focus::Search, ..v }),
{
}

/// Esc or Enter leaves the search field for the note list and keeps the
/// search.
pub proof fn lemma_escape_leaves_search(v: AppView, k: KeyPress)
    requires
        k.key == Key::Esc || k.key == Key::Enter,
        v.fullscreen_image is None,
        v.focus == Focus::Search,
    ensures
        v.after_command(v.key_command(k)) == (AppView { focus: Focus::List, ..v }),
{
}

/// While an image is full screen, Esc closes it and no key but Esc, `q` and
/// Ctrl+Q changes anything.
pub proof fn lemma_fullscreen_keys(v: AppView, k: KeyPress)
    requires
        v.fullscreen_image is Some,
    ensures
        k.key == Key::Esc ==> v.after_command(v.key_command(k)) == (AppView {
            fullscreen_image: None,
            ..v
        }),
        k.key != Key::Esc && k.key != Key::Char('q') ==> v.after_command(v.key_command(k)) == v,
{
}

/// Filtering anew keeps the preferred note selected wherever the search still
/// lists it; so a reload keeps the note that was selected.
pub proof fn lemma_filter_keeps_preferred(v: AppView, p: usize)
    requires
        v.notes.len() <= usize::MAX,
        filtered_for(v.notes, v.query).contains(p),
    ensures
        v.with_filter(Some(p)).selected_note() == Some(p),
        v.with_filter(Some(p)).wf(),
{
    let f = filtered_for(v.notes, v.query);
    lemma_matching_indices(v.notes, search_tokens_of(v.query), v.notes.len() as int);
    lemma_matching_len(v.notes, search_tokens_of(v.query), v.notes.len() as int);
    lemma_position_of(f, p);
    lemma_selection_after_filter(f, Some(p));
}

proof fn lemma_matching_len(notes: Seq<Note>, tokens: Seq<Seq<char>>, n: int)
    requires
        0 <= n,
    ensures
        matching_indices(notes, tokens, n).len() <= n,
    decreases n,
{
    if n > 0 {
        lemma_matching_len(notes, tokens, n - 1);
    }
}

/// Up and `k` select the previous note, staying on the first; Down and `j`
/// select the next one, staying on the last. Outside the search field they
/// give the list the focus; the search and the list itself do not change.
pub proof fn lemma_arrows_move_selection(v: AppView, k: KeyPress)
    requires
        v.wf(),
        v.fullscreen_image is None,
        v.focus != Focus::Search,
        !k.control,
    ensures
        k.key == Key::Up || k.key == Key::Char('k') ==> {
            let w = v.after_command(v.key_command(k));
            &&& w.focus == Focus::List
            &&& w.filtered == v.filtered
            &&& w.query == v.query
            &&& w.selected == match v.selected {
                Some(i) => Some(if i > 0 { (i - 1) as usize } else { 0usize }),
                None => None,
            }
        },
        k.key == Key::Down || k.key == Key::Char('j') ==> {
            let w = v.after_command(v.key_command(k));
            &&& w.focus == Focus::List
            &&& w.filtered == v.filtered
            &&& w.query == v.query
            &&& w.selected == match v.selected {
                Some(i) => Some(if i + 1 < v.filtered.len() { (i + 1) as usize } else { i }),
                None => None,
            }
        },
{
}

/// In the search field Up and Down move the selection the same way and keep
/// the focus on the search field.
pub proof fn lemma_arrows_move_selection_while_searching(v: AppView, k: KeyPress)
    requires
        v.wf(),
        v.fullscreen_image is None,
        v.focus == Focus::Search,
    ensures
        k.key == Key::Up ==> {
            let w = v.after_command(v.key_command(k));
            &&& w.focus == Focus::Search
            &&& w.query == v.query
            &&& w.selected == match v.selected {
                Some(i) => Some(if i > 0 { (i - 1) as usize } else { 0usize }),
                None => None,
            }
        },
        k.key == Key::Down ==> {
            let w = v.after_command(v.key_command(k));
            &&& w.focus == Focus::Search
            &&& w.query == v.query
            &&& w.selected == match v.selected {
                Some(i) => Some(if i + 1 < v.filtered.len() { (i + 1) as usize } else { i }),
                None => None,
            }
        },
{
}

/// With the list focused, PageDown moves the selection down by the list's
/// height (at least one row), staying on the last note, and PageUp moves it up
/// by as much, staying on the first.
pub proof fn lemma_page_keys_move_by_a_page(v: AppView, k: KeyPress)
    requires
        v.wf(),
        v.fullscreen_image is None,
        v.focus == Focus::List,
    ensures
        k.key == Key::PageDown ==> v.after_command(v.key_command(k)).selected == match v.selected {
            Some(i) => Some(
                if i + page_step(v.list_items_area) < v.filtered.len() {
                    (i + page_step(v.list_items_area)) as usize
                } else {
                    (v.filtered.len() - 1) as usize
                },
            ),
            None => None,
        },
        k.key == Key::PageUp ==> v.after_command(v.key_command(k)).selected == match v.selected {
            Some(i) => Some(
                if i >= page_step(v.list_items_area) {
                    (i - page_step(v.list_items_area)) as usize
                } else {
                    0usize
                },
            ),
            None => None,
        },
        page_step(v.list_items_area) >= 1,
        page_step(v.list_items_area) == (if v.list_items_area.height == 0 {
            1
        } else {
            v.list_items_area.height as int
        }),
{
}

/// Space, PageDown in the preview and Ctrl+D scroll the preview five rows
/// down; `b`, PageUp in the preview and Ctrl+U five rows up (never past the
/// top); each gives the preview the focus and keeps the selection.
pub proof fn lemma_scroll_keys(v: AppView, k: KeyPress)
    requires
        v.fullscreen_image is None,
        v.focus != Focus::Search,
    ensures
        k.key == Key::Char(' ') || (k.key == Key::PageDown && v.focus == Focus::Preview) || (
        k.key == Key::Char('d') && k.control) ==> {
            let w = v.after_command(v.key_command(k));
            &&& w.focus == Focus::Preview
            &&& w.selected == v.selected
            &&& w.preview_scroll == if v.preview_scroll + 5 <= u16::MAX {
                (v.preview_scroll + 5) as u16
            } else {
                u16::MAX
            }
        },
        k.key == Key::Char('b') || (k.key == Key::PageUp && v.focus == Focus::Preview) || (
        k.key == Key::Char('u') && k.control) ==> {
            let w = v.after_command(v.key_command(k));
            &&& w.focus == Focus::Preview
            &&& w.selected == v.selected
            &&& w.preview_scroll == if v.preview_scroll >= 5 {
                (v.preview_scroll - 5) as u16
            } else {
                0u16
            }
        },
{
}

impl App {
    /// A viewer of `notes` with an empty search, the list focused and its first
    /// note selected.
    pub fn new(notes: Vec<Note>) -> (r: App)
        ensures
            r@.wf(),
            r@ == (AppView {
                notes: notes@,
                filtered: seq![],
                selected: None,
                list_offset: 0,
                focus: Focus::List,
                query: seq![],
                search_area: Rect { x: 0, y: 0, width: 0, height: 0 },
                preview_scroll: 0,
                list_items_area: Rect { x: 0, y: 0, width: 0, height: 0 },
                hit_areas: seq![],
                focused_image: None,
                fullscreen_image: None,
                should_quit: false,
            }).with_filter(None),
    {
        let mut app = App {
            notes,
            filtered_indices: Vec::new(),
            selected: None,
            list_offset: 0,
            focus: Focus::List,
            search_query: String::new(),
            search_area: Rect::new(0, 0, 0, 0),
            preview_scroll: 0,
            list_items_area: Rect::new(0, 0, 0, 0),
            image_hit_areas: Vec::new(),
            focused_image: None,
            fullscreen_image: None,
            should_quit: false,
        };
        app.apply_filter(None);
        app
    }

    /// The index into `notes` of the selected note.
    pub fn selected_note_index(&self) -> (r: Option<usize>)
        ensures
            r == self@.selected_note(),
    {
        match self.selected {
            Some(i) => if i < self.filtered_indices.len() {
                Some(self.filtered_indices[i])
            } else {
                None
            },
            None => None,
        }
    }

    /// Filters the list anew by the search query and selects `preferred` (an
    /// index into `notes`) where it is still listed, else the first note.
    pub fn apply_filter(&mut self, preferred: Option<usize>)
        ensures
            final(self)@ == old(self)@.with_filter(preferred),
            final(self)@.wf(),
    {
        let note_count = self.notes.len();
        assert(note_count == old(self)@.notes.len());
        let tokens = search_tokens(self.search_query.as_str());
        assert(tokens@.map_values(|t: String| t@) =~= tokens.deep_view());
        let filtered = filter_note_indices(self.notes.as_slice(), tokens.as_slice());
        let ghost f = filtered@;
        let listed = filtered.len();
        assert(f.len() == listed);
        let mut selected: Option<usize> = None;
        if let Some(p) = preferred {
            let mut j: usize = 0;
            let mut found = false;
            while j < filtered.len() && !found
                invariant
                    j <= filtered.len(),
                    f == filtered@,
                    forall|q: int| 0 <= q < j ==> f[q] != p,
                    found ==> j < filtered.len() && f[j as int] == p,
                decreases filtered.len() - j + (if found { 0int } else { 1int }),
            {
                if filtered[j] == p {
                    found = true;
                } else {
                    j = j + 1;
                }
            }
            proof {
                lemma_position_of(f, p);
            }
            if found {
                selected = Some(j);
            }
        }
        if selected.is_none() && filtered.len() > 0 {
            selected = Some(0);
        }
        proof {
            lemma_selection_after_filter(f, preferred);
        }
        self.filtered_indices = filtered;
        self.selected = selected;
        self.list_offset = 0;
        self.preview_scroll = 0;
        self.focused_image = None;
    }

    /// Selects position `index` of the list, if there is one.
    pub fn select_note(&mut self, index: usize)
        ensures
            final(self)@ == if index < old(self)@.filtered.len() {
                old(self)@.selecting(index)
            } else {
                old(self)@
            },
    {
        if index >= self.filtered_indices.len() {
            return;
        }
        let current = self.selected;
        self.selected = Some(index);
        if current != Some(index) {
            self.preview_scroll = 0;
            self.focused_image = None;
        }
    }

    /// Selects the next note of the list.
    pub fn next_note(&mut self)
        requires
            old(self)@.wf(),
        ensures
            final(self)@ == old(self)@.after_next(),
            final(self)@.wf(),
    {
        let len = self.filtered_indices.len();
        if len == 0 {
            return;
        }
        let next = match self.selected {
            Some(i) => if i + 1 < len {
                i + 1
            } else {
                len - 1
            },
            None => 0,
        };
        self.select_note(next);
    }

    /// Selects the previous note of the list.
    pub fn previous_note(&mut self)
        requires
            old(self)@.wf(),
        ensures
            final(self)@ == old(self)@.after_previous(),
            final(self)@.wf(),
    {
        if self.filtered_indices.len() == 0 {
            return;
        }
        let prev = match self.selected {
            Some(i) => i.saturating_sub(1),
            None => 0,
        };
        self.select_note(prev);
    }

    /// Moves the selection one page of the list down, staying on the last note.
    pub fn page_notes_down(&mut self)
        requires
            old(self)@.wf(),
        ensures
            final(self)@ == old(self)@.after_page_down(),
            final(self)@.wf(),
    {
        let len = self.filtered_indices.len();
        if len == 0 {
            return;
        }
        let current = match self.selected {
            Some(i) => i,
            None => 0,
        };
        let step: usize = if self.list_items_area.height >= 1 {
            self.list_items_area.height as usize
        } else {
            1
        };
        let target = if step < len - current {
            current + step
        } else {
            len - 1
        };
        self.select_note(target);
    }

    /// Moves the selection one page of the list up, staying on the first note.
    pub fn page_notes_up(&mut self)
        requires
            old(self)@.wf(),
        ensures
            final(self)@ == old(self)@.after_page_up(),
            final(self)@.wf(),
    {
        if self.filtered_indices.len() == 0 {
            return;
        }
        let current = match self.selected {
            Some(i) => i,
            None => 0,
        };
        let step: usize = if self.list_items_area.height >= 1 {
            self.list_items_area.height as usize
        } else {
            1
        };
        self.select_note(current.saturating_sub(step));
    }

    /// Scrolls the preview five rows down.
    pub fn scroll_preview_down(&mut self)
        ensures
            final(self)@ == (AppView { preview_scroll: scrolled(old(self)@.preview_scroll, 5), ..old(self)@ }),
    {
        self.preview_scroll = self.preview_scroll.saturating_add(5);
    }

    /// Scrolls the preview five rows up.
    pub fn scroll_preview_up(&mut self)
        ensures
            final(self)@ == (AppView { preview_scroll: scrolled(old(self)@.preview_scroll, -5), ..old(self)@ }),
    {
        self.preview_scroll = self.preview_scroll.saturating_sub(5);
    }

    /// Scrolls the preview by `lines` rows, down where it is positive.
    pub fn scroll_preview_by(&mut self, lines: i16)
        ensures
            final(self)@ == (AppView {
                preview_scroll: scrolled(old(self)@.preview_scroll, lines as int),
                ..old(self)@
            }),
    {
        if lines >= 0 {
            self.preview_scroll = self.preview_scroll.saturating_add(lines as u16);
        } else {
            let up: u16 = (0i32 - lines as i32) as u16;
            self.preview_scroll = self.preview_scroll.saturating_sub(up);
        }
    }

    pub fn focus_search(&mut self)
        ensures
            final(self)@ == (AppView { focus: Focus::Search, ..old(self)@ }),
    {
        self.focus = Focus::Search;
    }

    pub fn focus_list(&mut self)
        ensures
            final(self)@ == (AppView { focus: Focus::List, ..old(self)@ }),
    {
        self.focus = Focus::List;
    }

    pub fn focus_preview(&mut self)
        ensures
            final(self)@ == (AppView { focus: Focus::Preview, ..old(self)@ }),
    {
        self.focus = Focus::Preview;
    }

    /// Types a character into the search and filters the list anew.
    pub fn push_search_char(&mut self, character: char)
        ensures
            final(self)@ == (AppView { query: old(self)@.query.push(character), ..old(self)@ }).with_filter(None),
            final(self)@.wf(),
    {
        push_char(&mut self.search_query, character);
        self.apply_filter(None);
    }

    /// Deletes the last character of the search, if any, and filters the list
    /// anew.
    pub fn pop_search_char(&mut self)
        ensures
            final(self)@ == if old(self)@.query.len() == 0 {
                old(self)@
            } else {
                (AppView { query: old(self)@.query.drop_last(), ..old(self)@ }).with_filter(None)
            },
    {
        if pop_char(&mut self.search_query).is_some() {
            self.apply_filter(None);
        }
    }

    /// Empties the search, if it is not empty, and filters the list anew.
    pub fn clear_search(&mut self)
        ensures
            final(self)@ == if old(self)@.query.len() == 0 {
                old(self)@
            } else {
                (AppView { query: seq![], ..old(self)@ }).with_filter(None)
            },
    {
        if !self.search_query.as_str().is_empty() {
            self.search_query = String::new();
            self.apply_filter(None);
        }
    }

    /// Takes the notes of a reloaded vault and filters them by the search,
    /// keeping `preferred` (an index into the new notes) selected where it is
    /// listed.
    pub fn replace_notes(&mut self, notes: Vec<Note>, preferred: Option<usize>)
        ensures
            final(self)@ == (AppView { notes: notes@, ..old(self)@ }).with_filter(preferred),
            final(self)@.wf(),
    {
        self.notes = notes;
        self.apply_filter(preferred);
    }

    /// The selected note's images that have a file, as positions in its list of
    /// images.
    pub fn selected_images(&self) -> (r: Vec<usize>)
        ensures
            r@ == self@.selected_images(),
    {
        let mut r: Vec<usize> = Vec::new();
        let index = match self.selected_note_index() {
            Some(k) => k,
            None => return r,
        };
        if index >= self.notes.len() {
            return r;
        }
        let images = &self.notes[index].images;
        let mut i: usize = 0;
        while i < images.len()
            invariant
                i <= images.len(),
                r@ == resolved_images(images@.take(i as int)),
            decreases images.len() - i,
        {
            assert(images@.take(i + 1).drop_last() =~= images@.take(i as int));
            if images[i].resolved.is_some() {
                r.push(i);
            }
            i = i + 1;
        }
        assert(images@.take(images.len() as int) =~= images@);
        r
    }

    /// Focuses the next (or previous) image of the selected note and the
    /// preview; returns its position among the note's images that have a file,
    /// or `None` (and focuses no image) when there is none.
    pub fn cycle_focused_image(&mut self, forward: bool) -> (r: Option<usize>)
        ensures
            final(self)@ == old(self)@.after_cycle(forward),
            r == final(self)@.focused_image,
    {
        let images = self.selected_images();
        let count = images.len();
        if count == 0 {
            self.focused_image = None;
            return None;
        }
        let current = match self.focused_image {
            Some(i) => if i < count {
                Some(i)
            } else {
                None
            },
            None => None,
        };
        let next = match current {
            Some(i) => if forward {
                (i + 1) % count
            } else if i == 0 {
                count - 1
            } else {
                i - 1
            },
            None => if forward {
                0
            } else {
                count - 1
            },
        };
        self.focused_image = Some(next);
        self.focus = Focus::Preview;
        Some(next)
    }

    /// Which of the selected note's images to open, as a position among its
    /// images that have a file: the focused one, else the first.
    pub fn image_to_open(&self) -> (r: Option<usize>)
        ensures
            r == self@.image_to_open(),
    {
        let count = self.selected_images().len();
        match self.focused_image {
            Some(i) if i < count => Some(i),
            _ => if count > 0 {
                Some(0)
            } else {
                None
            },
        }
    }

    /// Closes the full-screen image; whether one was open.
    pub fn close_fullscreen_image(&mut self) -> (r: bool)
        ensures
            r == (old(self)@.fullscreen_image is Some),
            final(self)@ == (AppView { fullscreen_image: None, ..old(self)@ }),
    {
        let was_open = self.fullscreen_image.is_some();
        self.fullscreen_image = None;
        was_open
    }

    /// The last drawn image under the cell, as a position in `image_hit_areas`.
    pub fn image_hit_at(&self, column: u16, row: u16) -> (r: Option<usize>)
        ensures
            r == last_hit(self@.hit_areas, column, row),
            r matches Some(k) ==> k < self@.hit_areas.len() && rect_holds(
                self@.hit_areas[k as int].area,
                column,
                row,
            ),
    {
        let mut i = self.image_hit_areas.len();
        let ghost areas = self@.hit_areas;
        proof {
            lemma_last_hit(areas, column, row);
        }
        assert(areas.take(i as int) =~= areas);
        while i > 0
            invariant
                i <= areas.len(),
                areas == self.image_hit_areas@,
                last_hit(areas, column, row) == last_hit(areas.take(i as int), column, row),
            decreases i,
        {
            assert(areas.take(i as int).drop_last() =~= areas.take(i - 1));
            if rect_contains(self.image_hit_areas[i - 1].area, column, row) {
                return Some(i - 1);
            }
            i = i - 1;
        }
        None
    }

    /// The position of the note list under the cell, if a note is listed there.
    pub fn note_index_at(&self, column: u16, row: u16) -> (r: Option<usize>)
        ensures
            r == self@.note_at(column, row),
    {
        if !rect_contains(self.list_items_area, column, row) {
            return None;
        }
        let visible_row = (row - self.list_items_area.y) as usize;
        if visible_row >= self.filtered_indices.len() || self.list_offset >= self.filtered_indices.len()
            - visible_row {
            return None;
        }
        Some(self.list_offset + visible_row)
    }

    /// Reacts to a mouse event.
    pub fn handle_mouse(&mut self, mouse: MouseInput)
        requires
            old(self)@.wf(),
        ensures
            final(self)@ == old(self)@.after_mouse(mouse),
            final(self)@.wf(),
    {
        if self.fullscreen_image.is_some() {
            return;
        }
        match mouse.kind {
            MouseKind::LeftDown => {
                if rect_contains(self.search_area, mouse.column, mouse.row) {
                    self.focus_search();
                    return;
                }
                if let Some(k) = self.image_hit_at(mouse.column, mouse.row) {
                    self.focus_preview();
                    self.fullscreen_image = Some(self.image_hit_areas[k].image);
                    return;
                }
                if let Some(index) = self.note_index_at(mouse.column, mouse.row) {
                    self.focus_list();
                    self.select_note(index);
                }
            },
            MouseKind::ScrollDown => {
                self.focus_preview();
                self.scroll_preview_by(3);
            },
            MouseKind::ScrollUp => {
                self.focus_preview();
                self.scroll_preview_by(-3);
            },
            MouseKind::Other => {},
        }
    }

    /// The command of a key press in the current state.
    pub fn key_command(&self, k: KeyPress) -> (r: Command)
        ensures
            r == self@.key_command(k),
    {
        if k.control && k.key == Key::Char('q') {
            Command::Quit
        } else if self.fullscreen_image.is_some() {
            if k.key == Key::Esc {
                Command::CloseFullscreen
            } else if k.key == Key::Char('q') && !k.shift && !k.control && !k.other_modifiers {
                Command::Quit
            } else {
                Command::Nothing
            }
        } else if self.focus == Focus::Search {
            search_key_command(k)
        } else {
            navigation_key_command(k, self.focus)
        }
    }

    /// Carries out a command.
    pub fn run_command(&mut self, c: Command) -> (r: KeyOutcome)
        requires
            old(self)@.wf(),
        ensures
            final(self)@ == old(self)@.after_command(c),
            r == old(self)@.command_outcome(c),
            final(self)@.wf(),
    {
        match c {
            Command::Quit => {
                self.should_quit = true;
            },
            Command::CloseFullscreen => {
                self.close_fullscreen_image();
            },
            Command::FocusSearch => self.focus_search(),
            Command::FocusList => self.focus_list(),
            Command::ListNext => {
                self.focus_list();
                self.next_note();
            },
            Command::ListPrevious => {
                self.focus_list();
                self.previous_note();
            },
            Command::Next => self.next_note(),
            Command::Previous => self.previous_note(),
            Command::PageDown => self.page_notes_down(),
            Command::PageUp => self.page_notes_up(),
            Command::ScrollDown => {
                self.focus_preview();
                self.scroll_preview_down();
            },
            Command::ScrollUp => {
                self.focus_preview();
                self.scroll_preview_up();
            },
            Command::ClearSearch => self.clear_search(),
            Command::PopChar => self.pop_search_char(),
            Command::PushChar(ch) => self.push_search_char(ch),
            Command::Reload => {
                return KeyOutcome::Reload;
            },
            Command::OpenImage => {
                return KeyOutcome::OpenImage;
            },
            Command::CycleImage(forward) => {
                let focused = self.cycle_focused_image(forward);
                return KeyOutcome::ImageCycled(focused);
            },
            Command::ShowTags => {
                return KeyOutcome::ShowTags;
            },
            Command::Nothing => {},
        }
        KeyOutcome::Done
    }

    /// Reacts to a key press.
    pub fn handle_key(&mut self, k: KeyPress) -> (r: KeyOutcome)
        requires
            old(self)@.wf(),
        ensures
            final(self)@ == old(self)@.after_command(old(self)@.key_command(k)),
            r == old(self)@.command_outcome(old(self)@.key_command(k)),
            final(self)@.wf(),
    {
        let c = self.key_command(k);
        self.run_command(c)
    }

    /// Reacts to a key press while the search field has the focus.
    pub fn handle_search_key(&mut self, k: KeyPress) -> (r: KeyOutcome)
        requires
            old(self)@.wf(),
        ensures
            final(self)@ == old(self)@.after_command(search_command(k)),
            r == old(self)@.command_outcome(search_command(k)),
            final(self)@.wf(),
    {
        self.run_command(search_key_command(k))
    }

    /// Reacts to a key press while the list or the preview has the focus.
    pub fn handle_navigation_key(&mut self, k: KeyPress) -> (r: KeyOutcome)
        requires
            old(self)@.wf(),
        ensures
            final(self)@ == old(self)@.after_command(navigation_command(k, old(self)@.focus)),
            r == old(self)@.command_outcome(navigation_command(k, old(self)@.focus)),
            final(self)@.wf(),
    {
        let focus = self.focus;
        self.run_command(navigation_key_command(k, focus))
    }

    /// Keeps the preview's scroll within its content: `total_height` rows of
    /// blocks shown in a pane `pane_height` rows high, two of them borders.
    pub fn clamp_preview_scroll(&mut self, total_height: u16, pane_height: u16)
        ensures
            final(self)@ == (AppView {
                preview_scroll: min_u16(
                    old(self)@.preview_scroll,
                    total_height.saturating_sub(pane_height.saturating_sub(2)),
                ),
                ..old(self)@
            }),
    {
        let max_scroll = total_height.saturating_sub(pane_height.saturating_sub(2));
        if self.preview_scroll > max_scroll {
            self.preview_scroll = max_scroll;
        }
    }

    /// Every tag of the vault once, ignoring case, sorted (the first spelling
    /// kept).
    pub fn all_tags(&self) -> (r: Vec<String>)
        ensures
            r.deep_view() == normalized_tags(all_note_tags(self@.notes)),
    {
        let mut tags: Vec<String> = Vec::new();
        let ghost per_note = self@.notes.map_values(|n: Note| n.tags.deep_view());
        let mut i: usize = 0;
        while i < self.notes.len()
            invariant
                i <= self.notes.len(),
                per_note == self@.notes.map_values(|n: Note| n.tags.deep_view()),
                tags.deep_view() == per_note.take(i as int).flatten(),
            decreases self.notes.len() - i,
        {
            let note_tags = &self.notes[i].tags;
            let ghost before = tags.deep_view();
            assert(per_note[i as int] == note_tags.deep_view());
            let mut j: usize = 0;
            while j < note_tags.len()
                invariant
                    j <= note_tags.len(),
                    tags.deep_view() == before + note_tags.deep_view().take(j as int),
                decreases note_tags.len() - j,
            {
                let ghost old_tags = tags@;
                assert(tags.deep_view().len() == old_tags.len());
                let t = note_tags[j].clone();
                assert(t@ == note_tags.deep_view()[j as int]);
                tags.push(t);
                j = j + 1;
                assert forall|q: int| 0 <= q < tags@.len() implies tags.deep_view()[q] == (before
                    + note_tags.deep_view().take(j as int))[q] by {
                    assert(tags.deep_view()[q] == tags@[q]@);
                    if q < old_tags.len() {
                        assert(tags@[q] == old_tags[q]);
                        assert(old_tags[q]@ == (before + note_tags.deep_view().take(j - 1))[q]);
                    }
                }
                assert(tags.deep_view() =~= before + note_tags.deep_view().take(j as int));
            }
            proof {
                assert(note_tags.deep_view().take(j as int) =~= note_tags.deep_view());
                assert(per_note.take(i + 1) =~= per_note.take(i as int) + seq![per_note[i as int]]);
                vstd::seq_lib::lemma_flatten_concat(per_note.take(i as int), seq![per_note[i as int]]);
                let one = seq![per_note[i as int]];
                assert(one.drop_first() =~= Seq::<Seq<Seq<char>>>::empty());
                assert(one.drop_first().flatten() =~= Seq::<Seq<char>>::empty());
                assert(one.flatten() =~= per_note[i as int]);
            }
            i = i + 1;
        }
        assert(per_note.take(self.notes.len() as int) =~= per_note);
        normalize_tags(Tags::List(tags))
    }
}

} // verus!
