use notes::browser::{
    image_hit_areas, navigation_key_command, search_key_command, App, Command, ImageHitArea,
    ImageRef, Key, KeyOutcome, KeyPress, MouseInput, MouseKind,
};
use notes::preview::{Placement, PreviewPart};
use notes::viewer::{Focus, Rect};
use notes::{Note, NoteImage};
use std::path::PathBuf;

fn note(path: &str, tags: &[&str]) -> Note {
    Note {
        path: PathBuf::from(path),
        title: path.to_owned(),
        tags: tags.iter().map(|tag| (*tag).to_owned()).collect(),
        blocks: Vec::new(),
        images: Vec::new(),
    }
}

fn image(resolved: bool) -> NoteImage {
    NoteImage {
        alt: "a".to_owned(),
        href: "a.png".to_owned(),
        resolved: if resolved { Some(PathBuf::from("/a.png")) } else { None },
    }
}

fn key(k: Key) -> KeyPress {
    KeyPress { key: k, shift: false, control: false, other_modifiers: false }
}

fn ctrl(c: char) -> KeyPress {
    KeyPress { key: Key::Char(c), shift: false, control: true, other_modifiers: false }
}

fn sample() -> App {
    App::new(vec![
        note("a.md", &["graphrag", "rust"]),
        note("b.md", &["graphrag"]),
        note("c.md", &["rust"]),
        note("d.md", &[]),
    ])
}

#[test]
fn new_app_lists_all_notes_and_selects_the_first() {
    let app = sample();
    assert_eq!(app.filtered_indices, vec![0, 1, 2, 3]);
    assert_eq!(app.selected, Some(0));
    assert_eq!(app.selected_note_index(), Some(0));
    assert_eq!(app.focus, Focus::List);
    assert!(!app.should_quit);
}

#[test]
fn empty_vault_selects_nothing() {
    let mut app = App::new(Vec::new());
    assert_eq!(app.selected, None);
    app.next_note();
    app.previous_note();
    app.page_notes_down();
    assert_eq!(app.selected, None);
    assert_eq!(app.selected_note_index(), None);
}

#[test]
fn next_and_previous_stop_at_the_ends() {
    let mut app = sample();
    app.previous_note();
    assert_eq!(app.selected, Some(0));
    app.next_note();
    app.next_note();
    app.next_note();
    app.next_note();
    assert_eq!(app.selected, Some(3));
    app.previous_note();
    assert_eq!(app.selected, Some(2));
}

#[test]
fn changing_the_selection_resets_the_preview() {
    let mut app = sample();
    app.preview_scroll = 7;
    app.focused_image = Some(1);
    app.select_note(0);
    assert_eq!(app.preview_scroll, 7);
    assert_eq!(app.focused_image, Some(1));
    app.select_note(2);
    assert_eq!(app.preview_scroll, 0);
    assert_eq!(app.focused_image, None);
    app.select_note(9);
    assert_eq!(app.selected, Some(2));
}

#[test]
fn pages_move_by_the_list_height() {
    let mut app = sample();
    app.list_items_area = Rect::new(0, 0, 10, 2);
    app.page_notes_down();
    assert_eq!(app.selected, Some(2));
    app.page_notes_down();
    assert_eq!(app.selected, Some(3));
    app.page_notes_up();
    assert_eq!(app.selected, Some(1));
    app.page_notes_up();
    assert_eq!(app.selected, Some(0));
    app.list_items_area = Rect::new(0, 0, 10, 0);
    app.page_notes_down();
    assert_eq!(app.selected, Some(1));
}

#[test]
fn preview_scroll_saturates() {
    let mut app = sample();
    app.scroll_preview_up();
    assert_eq!(app.preview_scroll, 0);
    app.scroll_preview_down();
    assert_eq!(app.preview_scroll, 5);
    app.scroll_preview_by(-3);
    assert_eq!(app.preview_scroll, 2);
    app.scroll_preview_by(-3);
    assert_eq!(app.preview_scroll, 0);
    app.preview_scroll = u16::MAX - 1;
    app.scroll_preview_down();
    assert_eq!(app.preview_scroll, u16::MAX);
    app.scroll_preview_by(i16::MIN);
    assert_eq!(app.preview_scroll, u16::MAX - 32768);
}

#[test]
fn typing_filters_by_tags_with_and_semantics() {
    let mut app = sample();
    for c in "graph rust".chars() {
        app.push_search_char(c);
    }
    assert_eq!(app.search_query, "graph rust");
    assert_eq!(app.filtered_indices, vec![0]);
    app.pop_search_char();
    app.pop_search_char();
    app.pop_search_char();
    app.pop_search_char();
    app.pop_search_char();
    assert_eq!(app.search_query, "graph");
    assert_eq!(app.filtered_indices, vec![0, 1]);
    app.clear_search();
    assert_eq!(app.search_query, "");
    assert_eq!(app.filtered_indices, vec![0, 1, 2, 3]);
    app.pop_search_char();
    assert_eq!(app.search_query, "");
}

#[test]
fn search_without_matches_selects_nothing() {
    let mut app = sample();
    app.push_search_char('z');
    assert!(app.filtered_indices.is_empty());
    assert_eq!(app.selected, None);
}

#[test]
fn replacing_notes_keeps_the_preferred_note_selected() {
    let mut app = sample();
    app.push_search_char('r');
    app.push_search_char('u');
    assert_eq!(app.filtered_indices, vec![0, 2]);
    app.replace_notes(
        vec![note("c.md", &["rust"]), note("a.md", &["rust"]), note("e.md", &[])],
        Some(1),
    );
    assert_eq!(app.filtered_indices, vec![0, 1]);
    assert_eq!(app.selected, Some(1));
    app.replace_notes(vec![note("x.md", &["rust"])], Some(5));
    assert_eq!(app.selected, Some(0));
    app.replace_notes(vec![note("x.md", &["rust"]), note("y.md", &["rust"])], Some(1));
    assert_eq!(app.selected, Some(1));
}

#[test]
fn cycling_images_wraps_both_ways() {
    let mut n = note("a.md", &[]);
    n.images = vec![image(true), image(false), image(true), image(true)];
    let mut app = App::new(vec![n]);
    assert_eq!(app.selected_images(), vec![0, 2, 3]);
    assert_eq!(app.image_to_open(), Some(0));
    assert_eq!(app.cycle_focused_image(false), Some(2));
    assert_eq!(app.focus, Focus::Preview);
    assert_eq!(app.cycle_focused_image(true), Some(0));
    assert_eq!(app.cycle_focused_image(true), Some(1));
    assert_eq!(app.image_to_open(), Some(1));
    assert_eq!(app.cycle_focused_image(false), Some(0));
    assert_eq!(app.cycle_focused_image(false), Some(2));
    app.focused_image = Some(10);
    assert_eq!(app.image_to_open(), Some(0));
    assert_eq!(app.cycle_focused_image(true), Some(0));
}

#[test]
fn cycling_without_images_clears_the_focus() {
    let mut app = sample();
    app.focused_image = Some(3);
    assert_eq!(app.cycle_focused_image(true), None);
    assert_eq!(app.focused_image, None);
    assert_eq!(app.focus, Focus::List);
    assert_eq!(app.image_to_open(), None);
}

#[test]
fn ctrl_q_quits_everywhere() {
    let mut app = sample();
    app.focus_search();
    assert_eq!(app.handle_key(ctrl('q')), KeyOutcome::Done);
    assert!(app.should_quit);
    let mut app = sample();
    app.fullscreen_image = Some(ImageRef { note: 0, block: 0 });
    app.handle_key(ctrl('q'));
    assert!(app.should_quit);
}

#[test]
fn fullscreen_image_only_takes_escape_and_q() {
    let mut app = sample();
    app.fullscreen_image = Some(ImageRef { note: 0, block: 0 });
    app.handle_key(key(Key::Down));
    assert_eq!(app.selected, Some(0));
    assert!(app.fullscreen_image.is_some());
    app.handle_key(key(Key::Esc));
    assert!(app.fullscreen_image.is_none());
    assert!(!app.should_quit);
    app.fullscreen_image = Some(ImageRef { note: 0, block: 0 });
    app.handle_key(key(Key::Char('q')));
    assert!(app.should_quit);
}

#[test]
fn search_keys_edit_the_query() {
    let mut app = sample();
    app.handle_key(key(Key::Char('/')));
    assert_eq!(app.focus, Focus::Search);
    app.handle_key(key(Key::Char('r')));
    app.handle_key(KeyPress { key: Key::Char('U'), shift: true, control: false, other_modifiers: false });
    assert_eq!(app.search_query, "rU");
    app.handle_key(KeyPress { key: Key::Char('x'), shift: false, control: false, other_modifiers: true });
    assert_eq!(app.search_query, "rU");
    app.handle_key(key(Key::Backspace));
    assert_eq!(app.search_query, "r");
    app.handle_key(key(Key::Down));
    assert_eq!(app.selected, Some(1));
    assert_eq!(app.focus, Focus::Search);
    app.handle_key(ctrl('u'));
    assert_eq!(app.search_query, "");
    assert_eq!(app.handle_key(ctrl('r')), KeyOutcome::Reload);
    assert_eq!(app.handle_key(ctrl('o')), KeyOutcome::OpenImage);
    app.handle_key(key(Key::Enter));
    assert_eq!(app.focus, Focus::List);
}

#[test]
fn navigation_keys_move_focus_and_selection() {
    let mut app = sample();
    app.handle_key(key(Key::Char('j')));
    assert_eq!(app.selected, Some(1));
    app.handle_key(key(Key::Char(' ')));
    assert_eq!(app.focus, Focus::Preview);
    assert_eq!(app.preview_scroll, 5);
    app.handle_key(key(Key::PageDown));
    assert_eq!(app.preview_scroll, 10);
    app.handle_key(key(Key::Char('b')));
    assert_eq!(app.preview_scroll, 5);
    app.handle_key(ctrl('d'));
    assert_eq!(app.preview_scroll, 10);
    app.handle_key(ctrl('u'));
    assert_eq!(app.preview_scroll, 5);
    app.handle_key(ctrl('l'));
    assert_eq!(app.focus, Focus::List);
    app.handle_key(key(Key::Char('k')));
    assert_eq!(app.selected, Some(0));
    assert_eq!(app.preview_scroll, 0);
    assert_eq!(
        app.handle_key(KeyPress { key: Key::Down, shift: false, control: true, other_modifiers: false }),
        KeyOutcome::ImageCycled(None)
    );
    app.handle_key(key(Key::Esc));
    assert!(app.should_quit);
}

#[test]
fn key_tables_match_the_controls() {
    assert_eq!(search_key_command(key(Key::Esc)), Command::FocusList);
    assert_eq!(search_key_command(key(Key::Char('q'))), Command::PushChar('q'));
    assert_eq!(search_key_command(key(Key::PageDown)), Command::Nothing);
    assert_eq!(navigation_key_command(key(Key::PageUp), Focus::List), Command::PageUp);
    assert_eq!(navigation_key_command(key(Key::PageUp), Focus::Preview), Command::ScrollUp);
    assert_eq!(navigation_key_command(ctrl('j'), Focus::List), Command::ListNext);
    assert_eq!(navigation_key_command(ctrl('q'), Focus::List), Command::Nothing);
    assert_eq!(navigation_key_command(key(Key::Char('l')), Focus::List), Command::Nothing);
    assert_eq!(
        navigation_key_command(KeyPress { key: Key::Up, shift: false, control: true, other_modifiers: false }, Focus::List),
        Command::CycleImage(false)
    );
}

#[test]
fn clicks_focus_search_open_images_and_select_notes() {
    let mut app = sample();
    app.search_area = Rect::new(0, 0, 20, 3);
    app.list_items_area = Rect::new(0, 3, 10, 5);
    app.list_offset = 1;
    app.image_hit_areas = vec![
        ImageHitArea { area: Rect::new(20, 3, 10, 4), image: ImageRef { note: 0, block: 1 } },
        ImageHitArea { area: Rect::new(25, 5, 10, 4), image: ImageRef { note: 0, block: 3 } },
    ];
    let click = |column, row| MouseInput { kind: MouseKind::LeftDown, column, row };
    app.handle_mouse(click(5, 4));
    assert_eq!(app.selected, Some(2));
    assert_eq!(app.focus, Focus::List);
    app.handle_mouse(click(5, 7));
    assert_eq!(app.selected, Some(2));
    assert_eq!(app.note_index_at(5, 5), Some(3));
    assert_eq!(app.note_index_at(5, 6), None);
    app.handle_mouse(click(1, 1));
    assert_eq!(app.focus, Focus::Search);
    assert_eq!(app.image_hit_at(26, 5), Some(1));
    assert_eq!(app.image_hit_at(21, 4), Some(0));
    app.handle_mouse(click(26, 5));
    assert_eq!(app.fullscreen_image, Some(ImageRef { note: 0, block: 3 }));
    assert_eq!(app.focus, Focus::Preview);
    app.handle_mouse(MouseInput { kind: MouseKind::ScrollDown, column: 0, row: 0 });
    assert_eq!(app.preview_scroll, 0);
    assert!(app.close_fullscreen_image());
    assert!(!app.close_fullscreen_image());
    app.handle_mouse(MouseInput { kind: MouseKind::ScrollDown, column: 0, row: 0 });
    assert_eq!(app.preview_scroll, 3);
    app.handle_mouse(MouseInput { kind: MouseKind::ScrollUp, column: 0, row: 0 });
    assert_eq!(app.preview_scroll, 0);
}

#[test]
fn preview_scroll_is_clamped_to_the_content() {
    let mut app = sample();
    app.preview_scroll = 50;
    app.clamp_preview_scroll(30, 12);
    assert_eq!(app.preview_scroll, 20);
    app.clamp_preview_scroll(5, 12);
    assert_eq!(app.preview_scroll, 0);
}

#[test]
fn hit_areas_come_from_placed_images() {
    let parts = vec![
        PreviewPart::Formula { block: 0 },
        PreviewPart::Image { block: 4 },
    ];
    let placed = vec![
        Placement { block: 0, area: Rect::new(0, 0, 5, 4), scroll: 0 },
        Placement { block: 1, area: Rect::new(1, 4, 3, 6), scroll: 0 },
        Placement { block: 7, area: Rect::new(1, 10, 3, 6), scroll: 0 },
    ];
    assert_eq!(
        image_hit_areas(&parts, &placed, 2),
        vec![ImageHitArea { area: Rect::new(1, 4, 3, 6), image: ImageRef { note: 2, block: 4 } }]
    );
}

#[test]
fn readme_keys_open_cycle_and_show_tags() {
    let mut n = note("a.md", &["Rust"]);
    n.images = vec![image(true), image(true)];
    let mut app = App::new(vec![n, note("b.md", &["graph", "rust", " "])]);
    assert_eq!(app.handle_key(key(Key::Char(']'))), KeyOutcome::ImageCycled(Some(0)));
    assert_eq!(app.handle_key(key(Key::Char(']'))), KeyOutcome::ImageCycled(Some(1)));
    assert_eq!(app.handle_key(key(Key::Char('['))), KeyOutcome::ImageCycled(Some(0)));
    assert_eq!(app.handle_key(key(Key::Char('o'))), KeyOutcome::OpenImage);
    assert_eq!(app.handle_key(key(Key::Char('t'))), KeyOutcome::ShowTags);
    assert_eq!(app.all_tags(), vec!["graph".to_owned(), "Rust".to_owned()]);
    app.handle_key(key(Key::Char('/')));
    assert_eq!(app.handle_key(key(Key::Char('t'))), KeyOutcome::Done);
    assert_eq!(app.search_query, "t");
}
