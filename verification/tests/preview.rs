use notes::markdown::{StyledLine, StyledSpan, StyledText, TextStyle};
use notes::preview::{
    block_height, layout_preview, preview_parts, tags_label_text, total_height, BlockShape,
    Placement, PreviewPart,
};
use notes::viewer::Rect;
use notes::{Note, NoteBlock};
use std::path::PathBuf;

fn span_text(line: &StyledLine) -> String {
    line.spans.iter().map(|s| s.content.as_str()).collect()
}

fn text_of(part: &PreviewPart) -> Vec<String> {
    match part {
        PreviewPart::Text(t) => t.lines.iter().map(span_text).collect(),
        _ => panic!("not text"),
    }
}

fn sample_note(tags: &[&str], blocks: Vec<NoteBlock>) -> Note {
    Note {
        path: PathBuf::from("notes/a.md"),
        title: "GraphRAG".to_owned(),
        tags: tags.iter().map(|t| (*t).to_owned()).collect(),
        blocks,
        images: Vec::new(),
    }
}

#[test]
fn preview_starts_with_title_and_tags() {
    let parts = preview_parts(&sample_note(&["graph", "rag"], Vec::new())).unwrap();
    assert_eq!(parts.len(), 1);
    assert_eq!(text_of(&parts[0]), vec!["GraphRAG", "Tags: #graph #rag", ""]);
    match &parts[0] {
        PreviewPart::Text(StyledText { lines }) => {
            assert_eq!(
                lines[0].spans,
                vec![StyledSpan {
                    content: "GraphRAG".to_owned(),
                    style: TextStyle { fg: None, bold: true, italic: false }
                }]
            );
            assert!(lines[2].spans.is_empty());
        }
        _ => unreachable!(),
    }
}

#[test]
fn preview_shows_a_dash_without_tags() {
    let parts = preview_parts(&sample_note(&[], Vec::new())).unwrap();
    assert_eq!(text_of(&parts[0])[1], "Tags: -");
}

#[test]
fn preview_lists_blocks_with_blank_lines() {
    let blocks = vec![
        NoteBlock::Markdown("Hello".to_owned()),
        NoteBlock::Image { href: "x.png".to_owned(), alt: "X".to_owned(), resolved: Some(PathBuf::from("/x.png")) },
        NoteBlock::Image { href: "y.png".to_owned(), alt: "Y".to_owned(), resolved: None },
        NoteBlock::Formula("a + b".to_owned()),
    ];
    let parts = preview_parts(&sample_note(&[], blocks)).unwrap();
    assert_eq!(parts.len(), 9);
    assert_eq!(text_of(&parts[1]), vec!["Hello"]);
    assert_eq!(text_of(&parts[2]), vec![""]);
    assert!(matches!(parts[3], PreviewPart::Image { block: 1 }));
    assert_eq!(text_of(&parts[5]), vec!["[image not found: Y -> y.png]"]);
    assert!(matches!(parts[7], PreviewPart::Formula { block: 3 }));
    assert_eq!(text_of(&parts[8]), vec![""]);
}

#[test]
fn preview_fails_where_markdown_cannot_render() {
    let blocks = vec![NoteBlock::Markdown("price $a\\ $ here".to_owned())];
    assert!(preview_parts(&sample_note(&[], blocks)).is_none());
}

#[test]
fn block_heights_follow_the_content() {
    assert_eq!(block_height(BlockShape::Text { lines: 0 }, 80, (10, 20)), 1);
    assert_eq!(block_height(BlockShape::Text { lines: 7 }, 80, (10, 20)), 7);
    assert_eq!(block_height(BlockShape::Text { lines: 65537 }, 80, (10, 20)), 1);
    assert_eq!(block_height(BlockShape::Image { pixel_size: Some((1000, 500)) }, 80, (10, 20)), 10);
    assert_eq!(block_height(BlockShape::Formula { pixel_size: Some((1000, 500)) }, 80, (10, 20)), 20);
    assert_eq!(block_height(BlockShape::Formula { pixel_size: None }, 80, (10, 20)), 4);
}

#[test]
fn total_height_sums_blocks_or_overflows() {
    let shapes = [BlockShape::Text { lines: 3 }, BlockShape::Image { pixel_size: None }];
    assert_eq!(total_height(&shapes, 80, (10, 20)), Some(9));
    let big = [BlockShape::Text { lines: 40000 }, BlockShape::Text { lines: 40000 }];
    assert_eq!(total_height(&big, 80, (10, 20)), None);
}

#[test]
fn layout_places_blocks_top_to_bottom() {
    let area = Rect::new(2, 1, 40, 10);
    let shapes = [
        BlockShape::Text { lines: 3 },
        BlockShape::Image { pixel_size: None },
        BlockShape::Text { lines: 4 },
    ];
    let placed = layout_preview(&shapes, 0, area, (10, 20));
    assert_eq!(
        placed,
        vec![
            Placement { block: 0, area: Rect::new(2, 1, 40, 3), scroll: 0 },
            Placement { block: 1, area: Rect::new(12, 4, 20, 6), scroll: 0 },
            Placement { block: 2, area: Rect::new(2, 10, 40, 1), scroll: 0 },
        ]
    );
}

#[test]
fn layout_skips_scrolled_rows() {
    let area = Rect::new(0, 0, 40, 5);
    let shapes = [
        BlockShape::Text { lines: 3 },
        BlockShape::Text { lines: 4 },
        BlockShape::Formula { pixel_size: None },
    ];
    let placed = layout_preview(&shapes, 5, area, (10, 20));
    assert_eq!(placed, vec![Placement { block: 1, area: Rect::new(0, 0, 40, 2), scroll: 2 }]);
    let placed = layout_preview(&shapes, 7, area, (10, 20));
    assert_eq!(placed, vec![Placement { block: 2, area: Rect::new(0, 0, 40, 4), scroll: 0 }]);
}

#[test]
fn layout_stops_at_an_image_that_does_not_fit() {
    let area = Rect::new(0, 0, 40, 5);
    let shapes = [BlockShape::Text { lines: 2 }, BlockShape::Image { pixel_size: None }, BlockShape::Text { lines: 1 }];
    let placed = layout_preview(&shapes, 0, area, (10, 20));
    assert_eq!(placed, vec![Placement { block: 0, area: Rect::new(0, 0, 40, 2), scroll: 0 }]);
    assert!(layout_preview(&shapes, 0, Rect::new(0, 0, 0, 5), (10, 20)).is_empty());
}

#[test]
fn tags_label_marks_each_tag() {
    assert_eq!(tags_label_text(&vec!["a".to_owned(), "b c".to_owned()]), "#a #b c");
    assert_eq!(tags_label_text(&Vec::new()), "-");
}

#[test]
fn tags_label_keeps_a_span_per_text_line() {
    let parts = preview_parts(&sample_note(&["a\nb"], Vec::new())).unwrap();
    match &parts[0] {
        PreviewPart::Text(StyledText { lines }) => {
            let spans: Vec<&str> = lines[1].spans.iter().map(|s| s.content.as_str()).collect();
            assert_eq!(spans, vec!["Tags: #a", "b"]);
        }
        _ => unreachable!(),
    }
}
