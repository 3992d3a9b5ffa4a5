//! Decisions of the terminal viewer that do not touch the terminal: image
//! sizes in cells, hit testing, and the tag search.

use vstd::prelude::*;
use crate::note::Note;
use crate::text::{
    char_views, chars_of, contains_seq, find_from, lemma_first_occurrence, lowercase,
    split_words, string_of, to_lowercase, words,
};

verus! {

/// A rectangle of terminal cells.
#[derive(Debug, Clone, Copy, PartialEq, Eq, Structural, Default)]
pub struct Rect {
    pub x: u16,
    pub y: u16,
    pub width: u16,
    pub height: u16,
}

impl Rect {
    pub fn new(x: u16, y: u16, width: u16, height: u16) -> (r: Rect)
        ensures
            r == (Rect { x, y, width, height }),
    {
        Rect { x, y, width, height }
    }
}

/// The cell at `column`, `row` lies in `rect`; the right and bottom edges are
/// exclusive (their ends saturate at `u16::MAX`).
pub open spec fn rect_holds(rect: Rect, column: u16, row: u16) -> bool {
    &&& rect.x <= column
    &&& column < rect.x.saturating_add(rect.width)
    &&& rect.y <= row
    &&& row < rect.y.saturating_add(rect.height)
}

pub fn rect_contains(rect: Rect, column: u16, row: u16) -> (r: bool)
    ensures
        r == rect_holds(rect, column, row),
{
    column >= rect.x && column < rect.x.saturating_add(rect.width) && row >= rect.y && row
        < rect.y.saturating_add(rect.height)
}

/// Width in cells of an inline image: half the text width, at least one cell
/// when there is any width at all.
pub open spec fn inline_width(width: u16) -> u16 {
    if width == 0 {
        0
    } else if width / 2 >= 1 {
        (width / 2) as u16
    } else {
        1
    }
}

pub fn inline_image_width(width: u16) -> (r: u16)
    ensures
        r == inline_width(width),
{
    if width == 0 {
        0
    } else if width / 2 >= 1 {
        width / 2
    } else {
        1
    }
}

/// Formulas take the full text width.
pub fn formula_image_width(width: u16) -> (r: u16)
    ensures
        r == width,
{
    width
}

/// `a / b` rounded up.
pub open spec fn ceil_div(a: int, b: int) -> int {
    if a % b == 0 {
        a / b
    } else {
        a / b + 1
    }
}

/// Height in rows of an image of `pixel_size` pixels shown `cell_width` cells
/// wide, cells being `font_size` pixels: the aspect ratio kept, rounded up,
/// at least 4 rows and at most `u16::MAX`; `fallback_height` when a size is
/// unknown or zero.
pub open spec fn scaled_height(
    pixel_size: Option<(u32, u32)>,
    cell_width: u16,
    font_size: (u16, u16),
    fallback_height: u16,
) -> u16 {
    match pixel_size {
        None => fallback_height,
        Some((pixel_width, pixel_height)) => if pixel_width == 0 || pixel_height == 0 || cell_width
            == 0 || font_size.1 == 0 {
            fallback_height
        } else {
            let font_width: int = if font_size.0 == 0 { 1 } else { font_size.0 as int };
            let h = ceil_div(
                pixel_height * (cell_width * font_width),
                pixel_width * font_size.1,
            );
            if h < 4 {
                4
            } else if h > 65535 {
                65535
            } else {
                h as u16
            }
        },
    }
}

pub fn scaled_image_height(
    pixel_size: Option<(u32, u32)>,
    cell_width: u16,
    font_size: (u16, u16),
    fallback_height: u16,
) -> (r: u16)
    ensures
        r == scaled_height(pixel_size, cell_width, font_size, fallback_height),
{
    let (pixel_width, pixel_height) = match pixel_size {
        Some(size) => size,
        None => return fallback_height,
    };
    if pixel_width == 0 || pixel_height == 0 || cell_width == 0 || font_size.1 == 0 {
        return fallback_height;
    }
    let font_width: u64 = if font_size.0 == 0 { 1 } else { font_size.0 as u64 };
    let cw = cell_width as u64;
    let ph = pixel_height as u64;
    let pw = pixel_width as u64;
    let fh = font_size.1 as u64;
    assert(cw * font_width <= 65535 * 65535) by (nonlinear_arith)
        requires
            cw <= 65535,
            font_width <= 65535,
    ;
    let target = cw * font_width;
    assert(ph * target <= 4294967295 * (65535 * 65535)) by (nonlinear_arith)
        requires
            ph <= 4294967295,
            target <= 65535 * 65535,
    ;
    assert(pw * fh <= 4294967295 * 65535) by (nonlinear_arith)
        requires
            pw <= 4294967295,
            fh <= 65535,
    ;
    assert(pw * fh >= 1) by (nonlinear_arith)
        requires
            pw >= 1,
            fh >= 1,
    ;
    let numerator = ph * target;
    let denominator = pw * fh;
    let quotient = numerator / denominator;
    let height = if numerator % denominator == 0 { quotient } else { quotient + 1 };
    if height < 4 {
        4
    } else if height > 65535 {
        65535
    } else {
        height as u16
    }
}

pub open spec fn image_rows(pixel_size: Option<(u32, u32)>, width: u16, font_size: (u16, u16)) -> u16 {
    scaled_height(pixel_size, inline_width(width), font_size, 6)
}

pub open spec fn formula_rows(pixel_size: Option<(u32, u32)>, width: u16, font_size: (u16, u16)) -> u16 {
    scaled_height(pixel_size, width, font_size, 4)
}

/// Rows taken by an image block in a text area `width` cells wide (6 when its
/// size is unknown).
pub fn image_height(pixel_size: Option<(u32, u32)>, width: u16, font_size: (u16, u16)) -> (r: u16)
    ensures
        r == image_rows(pixel_size, width, font_size),
{
    scaled_image_height(pixel_size, inline_image_width(width), font_size, 6)
}

/// Rows taken by a formula block in a text area `width` cells wide (4 when
/// its size is unknown).
pub fn formula_height(pixel_size: Option<(u32, u32)>, width: u16, font_size: (u16, u16)) -> (r: u16)
    ensures
        r == formula_rows(pixel_size, width, font_size),
{
    scaled_image_height(pixel_size, formula_image_width(width), font_size, 4)
}

/// A word of the search query with its leading `#` characters removed.
pub open spec fn strip_hashes(w: Seq<char>) -> Seq<char>
    decreases w.len(),
{
    if w.len() > 0 && w[0] == '#' {
        strip_hashes(w.drop_first())
    } else {
        w
    }
}

/// The search tokens of the words `ws`: each lowercased after its leading
/// `#`s are removed, empty ones dropped.
pub open spec fn tokens_of(ws: Seq<Seq<char>>) -> Seq<Seq<char>>
    decreases ws.len(),
{
    if ws.len() == 0 {
        seq![]
    } else {
        let t = lowercase(strip_hashes(ws.last()));
        if t.len() == 0 {
            tokens_of(ws.drop_last())
        } else {
            tokens_of(ws.drop_last()).push(t)
        }
    }
}

pub open spec fn search_tokens_of(query: Seq<char>) -> Seq<Seq<char>> {
    tokens_of(words(query))
}

/// The tokens of a tag search: the query's words, leading `#`s removed,
/// lowercased, empty ones dropped.
pub fn search_tokens(query: &str) -> (r: Vec<String>)
    ensures
        r.deep_view() == search_tokens_of(query@),
{
    let ws = split_words(&chars_of(query));
    let mut r: Vec<String> = Vec::new();
    let mut i: usize = 0;
    assert(char_views(ws@).len() == ws@.len());
    while i < ws.len()
        invariant
            i <= ws.len() == char_views(ws@).len(),
            r.deep_view() == tokens_of(char_views(ws@).take(i as int)),
        decreases ws.len() - i,
    {
        let ghost cw = char_views(ws@);
        assert(cw.take(i + 1).drop_last() =~= cw.take(i as int));
        assert(cw[i as int] == ws@[i as int]@);
        let w = &ws[i];
        let mut k: usize = 0;
        assert(w@.skip(0) =~= w@);
        while k < w.len() && w[k] == '#'
            invariant
                k <= w.len(),
                strip_hashes(w@) == strip_hashes(w@.skip(k as int)),
            decreases w.len() - k,
        {
            assert(w@.skip(k as int).drop_first() =~= w@.skip(k + 1));
            k = k + 1;
        }
        assert(strip_hashes(w@.skip(k as int)) == w@.skip(k as int));
        let mut rest: Vec<char> = Vec::new();
        let mut j = k;
        while j < w.len()
            invariant
                k <= j <= w.len(),
                rest@ == w@.subrange(k as int, j as int),
            decreases w.len() - j,
        {
            rest.push(w[j]);
            j = j + 1;
            assert(rest@ =~= w@.subrange(k as int, j as int));
        }
        assert(rest@ =~= w@.skip(k as int));
        let token = to_lowercase(string_of(&rest).as_str());
        let ghost old_r = r@;
        assert(r.deep_view().len() == r@.len());
        if !token.as_str().is_empty() {
            r.push(token);
            assert forall|q: int| 0 <= q < r@.len() implies r.deep_view()[q] == tokens_of(
                cw.take(i + 1),
            )[q] by {
                if q < old_r.len() {
                    assert(r@[q] == old_r[q]);
                }
            }
            assert(r.deep_view() =~= tokens_of(cw.take(i + 1)));
        } else {
            assert(token@.len() == 0);
        }
        i = i + 1;
    }
    assert(char_views(ws@).take(ws.len() as int) =~= char_views(ws@));
    r
}

/// The token occurs in the lowercase form of some tag.
pub open spec fn token_in_tags(tags: Seq<Seq<char>>, token: Seq<char>) -> bool {
    exists|g: int| 0 <= g < tags.len() && contains_seq(lowercase(#[trigger] tags[g]), token)
}

/// Every token occurs in the lowercase form of some tag.
pub open spec fn tags_match(tags: Seq<Seq<char>>, tokens: Seq<Seq<char>>) -> bool {
    forall|t: int| 0 <= t < tokens.len() ==> #[trigger] token_in_tags(tags, tokens[t])
}

/// Whether a note's tags match every search token (no tokens match every
/// note).
pub fn note_matches_tokens(note: &Note, tokens: &[String]) -> (r: bool)
    ensures
        r == tags_match(note.tags.deep_view(), tokens@.map_values(|t: String| t@)),
{
    let ghost tags = note.tags.deep_view();
    let ghost toks = tokens@.map_values(|t: String| t@);
    if tokens.len() == 0 {
        return true;
    }
    let mut t: usize = 0;
    while t < tokens.len()
        invariant
            t <= tokens.len(),
            tags == note.tags.deep_view(),
            toks == tokens@.map_values(|t: String| t@),
            forall|q: int| 0 <= q < t ==> #[trigger] token_in_tags(tags, toks[q]),
        decreases tokens.len() - t,
    {
        let token = chars_of(tokens[t].as_str());
        let mut found = false;
        let mut g: usize = 0;
        while g < note.tags.len() && !found
            invariant
                g <= note.tags.len(),
                tags == note.tags.deep_view(),
                token@ == toks[t as int],
                t < tokens.len(),
                toks == tokens@.map_values(|t: String| t@),
                found ==> token_in_tags(tags, toks[t as int]),
                !found ==> forall|h: int|
                    0 <= h < g ==> !contains_seq(lowercase(#[trigger] tags[h]), toks[t as int]),
            decreases note.tags.len() - g + (if found { 0int } else { 1int }),
        {
            assert(tags[g as int] == note.tags@[g as int]@);
            let lower = chars_of(to_lowercase(note.tags[g].as_str()).as_str());
            let tok = token.as_slice();
            proof {
                lemma_first_occurrence(lower@, token@, 0);
            }
            if find_from(&lower, tok, 0).is_some() {
                found = true;
            } else {
                g = g + 1;
            }
        }
        if !found {
            assert(!token_in_tags(tags, toks[t as int]));
            return false;
        }
        t = t + 1;
    }
    true
}

/// Indices of the notes among the first `n` that match the tokens, in order.
pub open spec fn matching_indices(notes: Seq<Note>, tokens: Seq<Seq<char>>, n: int) -> Seq<usize>
    decreases n,
{
    if n <= 0 {
        seq![]
    } else {
        let p = matching_indices(notes, tokens, n - 1);
        if tags_match(notes[n - 1].tags.deep_view(), tokens) {
            p.push((n - 1) as usize)
        } else {
            p
        }
    }
}

/// Indices of the notes whose tags match every search token, in order.
pub fn filter_note_indices(notes: &[Note], tokens: &[String]) -> (r: Vec<usize>)
    ensures
        r@ == matching_indices(notes@, tokens@.map_values(|t: String| t@), notes@.len() as int),
{
    let mut r: Vec<usize> = Vec::new();
    let mut i: usize = 0;
    while i < notes.len()
        invariant
            i <= notes.len(),
            r@ == matching_indices(notes@, tokens@.map_values(|t: String| t@), i as int),
        decreases notes.len() - i,
    {
        if note_matches_tokens(&notes[i], tokens) {
            r.push(i);
        }
        i = i + 1;
    }
    r
}

/// Which pane has the keyboard.
#[derive(Debug, Clone, Copy, PartialEq, Eq, Structural)]
pub enum Focus {
    Search,
    List,
    Preview,
}

/// The footer's label for the focused pane.
pub fn focus_label(focus: Focus) -> (r: &'static str)
    ensures
        r@ == match focus {
            Focus::Search => "Фокус: поиск"@,
            Focus::List => "Фокус: список"@,
            Focus::Preview => "Фокус: preview"@,
        },
{
    match focus {
        Focus::Search => "Фокус: поиск",
        Focus::List => "Фокус: список",
        Focus::Preview => "Фокус: preview",
    }
}


/// Search tokens are never empty.
pub proof fn lemma_search_tokens_nonempty(query: Seq<char>)
    ensures
        forall|i: int|
            0 <= i < search_tokens_of(query).len() ==> (#[trigger] search_tokens_of(query)[i]).len()
                > 0,
{
    lemma_tokens_nonempty(words(query));
}

proof fn lemma_tokens_nonempty(ws: Seq<Seq<char>>)
    ensures
        forall|i: int| 0 <= i < tokens_of(ws).len() ==> (#[trigger] tokens_of(ws)[i]).len() > 0,
    decreases ws.len(),
{
    if ws.len() > 0 {
        let p = tokens_of(ws.drop_last());
        lemma_tokens_nonempty(ws.drop_last());
        assert forall|i: int| 0 <= i < tokens_of(ws).len() implies (#[trigger] tokens_of(
            ws,
        )[i]).len() > 0 by {
            if i < p.len() {
                assert(tokens_of(ws)[i] == p[i]);
            }
        }
    }
}

/// A search of several tokens matches exactly the notes that each part of
/// it matches: tokens are joined by "and".
pub proof fn lemma_tags_match_conjunction(
    tags: Seq<Seq<char>>,
    a: Seq<Seq<char>>,
    b: Seq<Seq<char>>,
)
    ensures
        tags_match(tags, a + b) == (tags_match(tags, a) && tags_match(tags, b)),
{
    let ab = a + b;
    if tags_match(tags, ab) {
        assert forall|t: int| 0 <= t < a.len() implies #[trigger] token_in_tags(tags, a[t]) by {
            assert(ab[t] == a[t]);
        }
        assert forall|t: int| 0 <= t < b.len() implies #[trigger] token_in_tags(tags, b[t]) by {
            assert(ab[a.len() + t] == b[t]);
        }
    }
    if tags_match(tags, a) && tags_match(tags, b) {
        assert forall|t: int| 0 <= t < ab.len() implies #[trigger] token_in_tags(tags, ab[t]) by {
            if t < a.len() {
                assert(ab[t] == a[t]);
            } else {
                assert(ab[t] == b[t - a.len()]);
            }
        }
    }
}

/// An empty search matches every note.
pub proof fn lemma_no_tokens_match_all(tags: Seq<Seq<char>>)
    ensures
        tags_match(tags, seq![]),
{
}

/// The filtered indices are strictly increasing, and an index is among them
/// exactly when it is a note's index and that note matches.
pub proof fn lemma_matching_indices(notes: Seq<Note>, tokens: Seq<Seq<char>>, n: int)
    requires
        0 <= n <= notes.len() <= usize::MAX,
    ensures
        forall|i: int, j: int|
            #![trigger matching_indices(notes, tokens, n)[i], matching_indices(notes, tokens, n)[j]]
            0 <= i < j < matching_indices(notes, tokens, n).len() ==> matching_indices(
                notes,
                tokens,
                n,
            )[i] < matching_indices(notes, tokens, n)[j],
        forall|k: usize|
            #[trigger] matching_indices(notes, tokens, n).contains(k) <==> (k < n && tags_match(
                notes[k as int].tags.deep_view(),
                tokens,
            )),
    decreases n,
{
    if n > 0 {
        lemma_matching_indices(notes, tokens, n - 1);
        let p = matching_indices(notes, tokens, n - 1);
        let r = matching_indices(notes, tokens, n);
        assert forall|k: usize| #[trigger] r.contains(k) <==> (k < n && tags_match(
            notes[k as int].tags.deep_view(),
            tokens,
        )) by {
            if r.contains(k) {
                let m = choose|m: int| 0 <= m < r.len() && r[m] == k;
                if m < p.len() {
                    assert(p[m] == k);
                    assert(p.contains(k));
                }
            }
            if k < n - 1 && tags_match(notes[k as int].tags.deep_view(), tokens) {
                assert(p.contains(k));
                let m = choose|m: int| 0 <= m < p.len() && p[m] == k;
                assert(r[m] == k);
            }
            if k == n - 1 && tags_match(notes[k as int].tags.deep_view(), tokens) {
                assert(r[p.len() as int] == k);
            }
        }
        assert forall|i: int, j: int| 0 <= i < j < r.len() implies #[trigger] r[i] < #[trigger] r[j] by {
            assert(r[i] == p[i]);
            if j < p.len() {
                assert(r[j] == p[j]);
            } else {
                assert(p.contains(p[i]));
            }
        }
    }
}


/// Where the cursor stands in the search field's inner area `inner`: after
/// the query's characters, at most on the field's last cell; nowhere when the
/// field is not focused or has no cells.
pub open spec fn search_cursor_at(focused: bool, inner: Rect, query: Seq<char>) -> Option<(u16, u16)> {
    if !focused || inner.width == 0 || inner.height == 0 {
        None
    } else {
        let offset = if query.len() <= inner.width - 1 {
            query.len() as int
        } else {
            inner.width - 1
        };
        Some(((inner.x + offset) as u16, inner.y))
    }
}

/// Where the cursor stands in the search field.
pub fn search_cursor(focused: bool, inner: Rect, query: &str) -> (r: Option<(u16, u16)>)
    requires
        inner.x + inner.width <= u16::MAX,
    ensures
        r == search_cursor_at(focused, inner, query@),
{
    if !focused || inner.width == 0 || inner.height == 0 {
        return None;
    }
    let count = chars_of(query).len();
    let last = (inner.width - 1) as usize;
    let offset: u16 = if count <= last {
        count as u16
    } else {
        inner.width - 1
    };
    Some((inner.x + offset, inner.y))
}

/// Where a notification of `message` pops up in the frame `area`: three rows
/// high, four cells wider than the message but between 12 cells and the
/// frame's width less two (at least 12), centered, one row above the bottom;
/// nowhere when the frame is narrower than 8 cells or lower than 3 rows.
pub open spec fn notification_rect(area: Rect, message: Seq<char>) -> Option<Rect> {
    if area.width < 8 || area.height < 3 {
        None
    } else {
        let wanted = (message.len() as u16) + 4;
        let widest = if area.width - 2 >= 12 {
            area.width - 2
        } else {
            12
        };
        let width: u16 = if wanted < 12 {
            12
        } else if wanted > widest {
            widest as u16
        } else {
            wanted as u16
        };
        Some(
            Rect {
                x: (area.x + area.width.saturating_sub(width) / 2) as u16,
                y: (area.y + area.height.saturating_sub(4)) as u16,
                width: if width <= area.width {
                    width
                } else {
                    area.width
                },
                height: 3,
            },
        )
    }
}

/// Where a notification pops up.
pub fn notification_area(area: Rect, message: &str) -> (r: Option<Rect>)
    requires
        (message@.len() as u16) + 4 <= u16::MAX,
        area.x + area.width <= u16::MAX,
        area.y + area.height <= u16::MAX,
    ensures
        r == notification_rect(area, message@),
{
    if area.width < 8 || area.height < 3 {
        return None;
    }
    let count = chars_of(message).len();
    let wanted: u16 = (count as u16) + 4;
    let widest: u16 = if area.width - 2 >= 12 {
        area.width - 2
    } else {
        12
    };
    let width: u16 = if wanted < 12 {
        12
    } else if wanted > widest {
        widest
    } else {
        wanted
    };
    let x_gap = area.width.saturating_sub(width);
    let y_gap = area.height.saturating_sub(4);
    Some(
        Rect {
            x: area.x + x_gap / 2,
            y: area.y + y_gap,
            width: if width <= area.width {
                width
            } else {
                area.width
            },
            height: 3,
        },
    )
}

} // verus!
