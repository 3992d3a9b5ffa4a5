use notes::frontmatter::{normalize_tags, Tags};

#[test]
fn normalizes_list_tags() {
    let tags = normalize_tags(Tags::List(vec![
        " GraphRAG ".to_owned(),
        "rust".to_owned(),
        "graphrag".to_owned(),
    ]));

    assert_eq!(tags, vec!["GraphRAG", "rust"]);
}

#[test]
fn normalizes_csv_tags() {
    let tags = normalize_tags(Tags::Csv("rag, graph,  rust ".to_owned()));

    assert_eq!(tags, vec!["graph", "rag", "rust"]);
}

#[test]
fn missing_tags_normalize_to_nothing() {
    assert!(normalize_tags(Tags::Absent).is_empty());
    assert!(normalize_tags(Tags::Csv(" , ,".to_owned())).is_empty());
}

#[test]
fn sorting_ignores_case_and_keeps_first_spelling() {
    let tags = normalize_tags(Tags::List(vec![
        "beta".to_owned(),
        "Alpha".to_owned(),
        "ALPHA".to_owned(),
        "alpha2".to_owned(),
    ]));
    assert_eq!(tags, vec!["Alpha", "alpha2", "beta"]);
}

#[test]
fn normalizing_twice_changes_nothing() {
    let once = normalize_tags(Tags::Csv(" Rust, graph ,rust, , Graph,ai ".to_owned()));
    assert_eq!(once, vec!["ai", "graph", "Rust"]);
    let twice = normalize_tags(Tags::List(once.clone()));
    assert_eq!(twice, once);
}

#[test]
fn csv_and_list_tags_normalize_alike() {
    let csv = " b, A ,,a ";
    let list: Vec<String> = csv.split(',').map(|p| p.to_owned()).collect();
    assert_eq!(normalize_tags(Tags::Csv(csv.to_owned())), normalize_tags(Tags::List(list)));
    assert_eq!(normalize_tags(Tags::Csv(csv.to_owned())), vec!["A", "b"]);
}
