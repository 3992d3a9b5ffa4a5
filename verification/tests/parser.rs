use notes::parser::{
    image_links, link_candidate, link_target, resolved_candidate, split_blocks, TextBlock,
};
use notes::{extract_images, parse_blocks, resolve_link, NoteBlock};
use std::path::{Path, PathBuf};

#[test]
fn extracts_all_images_from_body() {
    let images = extract_images(
        Path::new("/tmp/vault/notes/example.md"),
        "Text ![inline](../images/a.png)\n\n![block](../images/b.jpg)",
    );

    assert_eq!(images.len(), 2);
    assert_eq!(images[0].alt, "inline");
    assert_eq!(images[1].href, "../images/b.jpg");
}

#[test]
fn splits_markdown_images_and_formulas() {
    let blocks = parse_blocks(
        Path::new("/tmp/vault/notes/example.md"),
        "# Title\n\n![Graph](../images/graph.jpg)\n\n$$\na + b\n$$\n\nDone",
    );

    assert_eq!(blocks.len(), 4);
    assert!(matches!(blocks[0], NoteBlock::Markdown(_)));
    assert!(matches!(blocks[1], NoteBlock::Image { .. }));
    assert_eq!(blocks[2], NoteBlock::Formula("a + b".to_owned()));
    assert_eq!(blocks[3], NoteBlock::Markdown("Done".to_owned()));
}

#[test]
fn supports_latex_fences() {
    let blocks = parse_blocks(
        Path::new("/tmp/vault/notes/example.md"),
        "```latex\n\\frac{a}{b}\n```\n",
    );

    assert_eq!(blocks, vec![NoteBlock::Formula("\\frac{a}{b}".to_owned())]);
}

#[test]
fn image_links_are_trimmed_and_need_an_href() {
    let links = image_links("![ a ]( x.png ) ![b]() ![c](y\n.png)");
    assert_eq!(links.len(), 2);
    assert_eq!(links[0].alt, "a");
    assert_eq!(links[0].href, "x.png");
    assert_eq!(links[1].alt, "c");
    assert_eq!(links[1].href, "y\n.png");
}

#[test]
fn url_links_are_never_resolved() {
    assert_eq!(resolve_link(Path::new("/tmp/n.md"), "https://example.com/a.png"), None);
    let images = extract_images(Path::new("/tmp/n.md"), "![x](http://e.org/i.png)");
    assert_eq!(images[0].resolved, None);
}

#[test]
fn missing_files_are_not_resolved() {
    assert_eq!(resolve_link(Path::new("/nonexistent/dir/n.md"), "img.png"), None);
}

#[test]
fn existing_files_resolve_to_canonical_paths() {
    let resolved = resolve_link(Path::new("/nonexistent/n.md"), " / ");
    assert_eq!(resolved, Some(std::path::PathBuf::from("/")));
}

#[test]
fn image_block_alt_falls_back_to_file_name() {
    let blocks = split_blocks("![](../images/graph.jpg)\n![ ](dir/)\n");
    assert_eq!(
        blocks,
        vec![
            TextBlock::Image { alt: "graph.jpg".to_owned(), href: "../images/graph.jpg".to_owned() },
            TextBlock::Image { alt: "dir".to_owned(), href: "dir/".to_owned() },
        ]
    );
    let blocks = split_blocks("![](..)");
    assert_eq!(blocks, vec![TextBlock::Image { alt: "..".to_owned(), href: "..".to_owned() }]);
}

#[test]
fn block_syntax_must_start_a_line() {
    let blocks = split_blocks("text $$a$$ and ![x](y.png)\n$$b$$");
    assert_eq!(
        blocks,
        vec![
            TextBlock::Markdown("text $$a$$ and ![x](y.png)".to_owned()),
            TextBlock::Formula("b".to_owned()),
        ]
    );
}

#[test]
fn display_formulas_close_at_first_marker() {
    let blocks = split_blocks("$$\nx\n$$ \t\nnext\n$$$$\n$$ unclosed");
    assert_eq!(
        blocks,
        vec![
            TextBlock::Formula("x".to_owned()),
            TextBlock::Markdown("next".to_owned()),
            TextBlock::Markdown("$$ unclosed".to_owned()),
        ]
    );
}

#[test]
fn math_fences_and_unclosed_fences() {
    let blocks = split_blocks("```math\na\n```\n```latex\nb");
    assert_eq!(
        blocks,
        vec![TextBlock::Formula("a".to_owned()), TextBlock::Markdown("```latex\nb".to_owned())]
    );
}

#[test]
fn blank_body_has_no_blocks() {
    assert!(split_blocks(" \n\t ").is_empty());
    assert_eq!(split_blocks("just text"), vec![TextBlock::Markdown("just text".to_owned())]);
}

#[test]
fn links_are_looked_up_next_to_the_note() {
    assert_eq!(link_target("  ../images/a.png "), Some("../images/a.png".to_owned()));
    assert_eq!(link_target("https://x.org/a.png"), None);
    assert_eq!(
        link_candidate(Path::new("/v/notes/n.md"), "../images/a.png"),
        PathBuf::from("/v/notes/../images/a.png")
    );
    assert_eq!(link_candidate(Path::new("/"), "a.png"), PathBuf::from("a.png"));
    let candidate = PathBuf::from("/v/a.png");
    assert_eq!(resolved_candidate(candidate.clone(), false, None), None);
    assert_eq!(resolved_candidate(candidate.clone(), true, None), Some(candidate.clone()));
    assert_eq!(
        resolved_candidate(candidate, true, Some(PathBuf::from("/w/a.png"))),
        Some(PathBuf::from("/w/a.png"))
    );
}
