use notes::frontmatter::{FrontMatter, Tags};
use notes::vault::{
    fallback_title, is_note_file, order_notes, order_notes_by_file_name, title_from_stem,
    vault_root,
};
use notes::{NoteBlock, Vault};
use std::path::{Path, PathBuf};

#[test]
fn fallback_title_uses_file_stem() {
    assert_eq!(
        fallback_title(Path::new("01-example_note.md")),
        "01 example note"
    );
}

#[test]
fn title_without_stem_is_untitled() {
    assert_eq!(title_from_stem(None), "Untitled");
    assert_eq!(fallback_title(Path::new("/")), "Untitled");
    assert_eq!(title_from_stem(Some("a-b_c".to_owned())), "a b c");
}

#[test]
fn vault_keeps_notes_under_root() {
    let vault = Vault::new("/nonexistent/vault");
    assert_eq!(vault.root, PathBuf::from("/nonexistent/vault"));
    assert_eq!(vault.notes_dir, PathBuf::from("/nonexistent/vault/notes"));
}

#[test]
fn builds_note_from_frontmatter_and_body() {
    let vault = Vault::new("/nonexistent/vault");
    let front = FrontMatter {
        title: None,
        tags: Tags::Csv("b, A".to_owned()),
    };
    let note = vault.build_note(
        Path::new("/nonexistent/vault/notes/my-note.md"),
        front,
        "\n\nIntro ![pic](../images/p.png)\n\n$$x$$\n",
    );
    assert_eq!(note.path, PathBuf::from("notes/my-note.md"));
    assert_eq!(note.title, "my note");
    assert_eq!(note.tags, vec!["A", "b"]);
    assert_eq!(note.images.len(), 1);
    assert_eq!(note.images[0].resolved, None);
    assert_eq!(
        note.blocks,
        vec![
            NoteBlock::Markdown("Intro ![pic](../images/p.png)".to_owned()),
            NoteBlock::Formula("x".to_owned()),
        ]
    );
}

#[test]
fn frontmatter_title_wins() {
    let vault = Vault::new("/nonexistent/vault");
    let front = FrontMatter { title: Some("Given".to_owned()), tags: Tags::Absent };
    let note = vault.build_note(Path::new("/elsewhere/x.md"), front, "");
    assert_eq!(note.title, "Given");
    assert_eq!(note.path, PathBuf::from("/elsewhere/x.md"));
    assert!(note.blocks.is_empty());
    assert!(note.tags.is_empty());
}

fn titled(title: &str) -> notes::Note {
    notes::Note {
        path: PathBuf::from(title),
        title: title.to_owned(),
        tags: Vec::new(),
        blocks: Vec::new(),
        images: Vec::new(),
    }
}

#[test]
fn notes_are_ordered_by_lowercase_file_name() {
    let notes = vec![titled("b"), titled("A"), titled("c"), titled("a2")];
    let names: Vec<String> = vec!["b.md".into(), "Z.md".into(), "B.md".into(), "a.md".into()];
    let ordered = order_notes(notes, &names);
    let titles: Vec<&str> = ordered.iter().map(|n| n.title.as_str()).collect();
    assert_eq!(titles, vec!["a2", "b", "c", "A"]);
}

#[test]
fn only_markdown_files_are_notes() {
    assert!(is_note_file(Path::new("/vault/notes/01-a.md")));
    assert!(!is_note_file(Path::new("/vault/notes/01-a.MD")));
    assert!(!is_note_file(Path::new("/vault/notes/a.markdown")));
    assert!(!is_note_file(Path::new("/vault/notes/md")));
    assert!(!is_note_file(Path::new("/vault/notes/.md")));
}

#[test]
fn notes_are_ordered_by_their_own_file_names() {
    let mut notes = vec![titled("x"), titled("y"), titled("z")];
    notes[0].path = PathBuf::from("notes/b.md");
    notes[1].path = PathBuf::from("other/A.md");
    notes[2].path = PathBuf::from("notes/c.md");
    let ordered = order_notes_by_file_name(notes);
    let titles: Vec<&str> = ordered.iter().map(|n| n.title.as_str()).collect();
    assert_eq!(titles, vec!["y", "x", "z"]);
}

#[test]
fn built_notes_take_the_stem_title_and_a_relative_path() {
    let vault = Vault { root: PathBuf::from("/v"), notes_dir: PathBuf::from("/v/notes") };
    let note = vault.build_note(
        Path::new("/v/notes/my-first_note.md"),
        FrontMatter { title: None, tags: Tags::Absent },
        "body",
    );
    assert_eq!(note.title, "my first note");
    assert_eq!(note.path, PathBuf::from("notes/my-first_note.md"));
    let outside = vault.build_note(
        Path::new("/elsewhere/a.md"),
        FrontMatter { title: Some("T".to_owned()), tags: Tags::Absent },
        "",
    );
    assert_eq!(outside.title, "T");
    assert_eq!(outside.path, PathBuf::from("/elsewhere/a.md"));
}

#[test]
fn vault_root_prefers_the_canonical_path() {
    assert_eq!(vault_root(PathBuf::from("v"), None), PathBuf::from("v"));
    assert_eq!(vault_root(PathBuf::from("v"), Some(PathBuf::from("/abs/v"))), PathBuf::from("/abs/v"));
}
