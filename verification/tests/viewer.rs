use notes::viewer::{
    filter_note_indices, focus_label, formula_height, image_height, inline_image_width,
    note_matches_tokens, notification_area, rect_contains, scaled_image_height, search_cursor,
    search_tokens, Focus, Rect,
};
use notes::Note;
use std::path::PathBuf;

#[test]
fn image_width_uses_half_of_text_width() {
    assert_eq!(inline_image_width(80), 40);
    assert_eq!(inline_image_width(1), 1);
    assert_eq!(inline_image_width(0), 0);
}

#[test]
fn image_height_scales_to_half_text_width() {
    assert_eq!(image_height(Some((1000, 500)), 80, (10, 20)), 10);
}

#[test]
fn formula_height_uses_full_text_width() {
    assert_eq!(formula_height(Some((1000, 500)), 80, (10, 20)), 20);
}

#[test]
fn image_height_has_reasonable_fallback() {
    assert_eq!(image_height(None, 80, (10, 20)), 6);
    assert_eq!(image_height(Some((0, 500)), 80, (10, 20)), 6);
}

#[test]
fn scaled_height_rounds_up_and_clamps() {
    assert_eq!(scaled_image_height(Some((1000, 501)), 40, (10, 20), 6), 11);
    assert_eq!(scaled_image_height(Some((1000, 10)), 40, (10, 20), 6), 4);
    assert_eq!(scaled_image_height(Some((1, u32::MAX)), u16::MAX, (u16::MAX, 1), 6), u16::MAX);
    assert_eq!(scaled_image_height(Some((100, 100)), 10, (0, 1), 6), 10);
    assert_eq!(formula_height(Some((1000, 500)), 80, (10, 0)), 4);
}

#[test]
fn rect_contains_uses_exclusive_bottom_right_edges() {
    let rect = Rect::new(10, 5, 4, 3);
    assert!(rect_contains(rect, 10, 5));
    assert!(rect_contains(rect, 13, 7));
    assert!(!rect_contains(rect, 14, 7));
    assert!(!rect_contains(rect, 13, 8));
}

#[test]
fn search_tokens_strip_hashes_and_empty_parts() {
    assert_eq!(
        search_tokens("  #GraphRAG  rust  "),
        vec!["graphrag".to_owned(), "rust".to_owned()]
    );
}

#[test]
fn lone_hashes_give_no_tokens() {
    assert!(search_tokens(" ## # ").is_empty());
    assert_eq!(search_tokens("##Ab#c"), vec!["ab#c".to_owned()]);
}

#[test]
fn filters_notes_by_tag_tokens_with_and_semantics() {
    let notes = vec![
        note("a.md", &["graphrag", "rust"]),
        note("b.md", &["graphrag"]),
        note("c.md", &["rust"]),
    ];
    let tokens = search_tokens("graph rust");

    assert_eq!(filter_note_indices(&notes, &tokens), [0]);
}

#[test]
fn empty_search_matches_every_note() {
    let notes = vec![note("a.md", &[]), note("b.md", &["x"])];
    assert_eq!(filter_note_indices(&notes, &[]), [0, 1]);
    assert!(note_matches_tokens(&notes[0], &[]));
    assert!(!note_matches_tokens(&notes[0], &["x".to_owned()]));
}

#[test]
fn tag_matching_ignores_case_of_tags() {
    let n = note("a.md", &["GraphRAG"]);
    assert!(note_matches_tokens(&n, &["aphr".to_owned()]));
}

#[test]
fn focus_labels() {
    assert_eq!(focus_label(Focus::Search), "Фокус: поиск");
    assert_eq!(focus_label(Focus::List), "Фокус: список");
    assert_eq!(focus_label(Focus::Preview), "Фокус: preview");
}

fn note(path: &str, tags: &[&str]) -> Note {
    Note {
        path: PathBuf::from(path),
        title: path.to_owned(),
        tags: tags.iter().map(|tag| (*tag).to_owned()).collect(),
        blocks: Vec::new(),
        images: Vec::new(),
    }
}

#[test]
fn search_cursor_follows_the_query() {
    let inner = Rect::new(1, 4, 5, 1);
    assert_eq!(search_cursor(true, inner, "ab"), Some((3, 4)));
    assert_eq!(search_cursor(true, inner, "абвгдеж"), Some((5, 4)));
    assert_eq!(search_cursor(false, inner, "ab"), None);
    assert_eq!(search_cursor(true, Rect::new(1, 4, 0, 1), "ab"), None);
}

#[test]
fn notifications_pop_up_centered_near_the_bottom() {
    let area = Rect::new(0, 0, 80, 24);
    assert_eq!(notification_area(area, "Hello"), Some(Rect::new(34, 20, 12, 3)));
    let long = "x".repeat(100);
    assert_eq!(notification_area(area, &long), Some(Rect::new(1, 20, 78, 3)));
    assert_eq!(notification_area(Rect::new(0, 0, 10, 3), "Hi"), Some(Rect::new(0, 0, 10, 3)));
    assert_eq!(notification_area(Rect::new(0, 0, 7, 24), "Hi"), None);
    assert_eq!(notification_area(Rect::new(0, 0, 80, 2), "Hi"), None);
    assert_eq!(notification_area(area, "Картинка 1/3: graph.png"), Some(Rect::new(26, 20, 27, 3)));
}
