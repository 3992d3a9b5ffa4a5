use notes::markdown::{markdown_to_text, markdown_to_text_checked, TermColor};
use notes::math::{inline_math_to_text, inline_math_to_text_checked};

fn plain_lines(markdown: &str) -> Vec<String> {
    markdown_to_text(markdown)
        .lines
        .into_iter()
        .map(|line| line.spans.into_iter().map(|span| span.content).collect())
        .collect()
}

#[test]
fn renders_headings_and_inline_code() {
    let lines = plain_lines("# Title\n\nUse `code` here.");

    assert_eq!(lines[0], "Title");
    assert!(lines.iter().any(|line| line == "Use code here."));
}

#[test]
fn renders_tables() {
    let lines = plain_lines("| Name | Score |\n|------|------:|\n| Алиса | 10 |\n| Bob | 2 |");

    assert!(lines.iter().any(|line| line.contains("Name")));
    assert!(lines.iter().any(|line| line.contains("Алиса")));
    assert!(lines.iter().any(|line| line.contains("│")));
}

#[test]
fn renders_inline_math_as_readable_text() {
    let lines = plain_lines(
        r"Graph $G = (V, E)$, $\mathbf{v}_i \in \mathbb{R}^d$, $\frac{a}{b}$, $\alpha \cdot \beta$.",
    );

    let line = lines.join("\n");
    assert!(line.contains("G = (V, E)"));
    assert!(line.contains("vᵢ ∈ ℝᵈ"));
    assert!(line.contains("(a)/(b)"));
    assert!(line.contains("α · β"));
    assert!(!line.contains('$'));
    assert!(!line.contains(r"\mathbf"));
}

#[test]
fn renders_inline_math_inside_table_cells() {
    let lines = plain_lines(
        r"| Metric | Formula |
|---|---|
| Recall | $\frac{\text{relevant in context}}{\text{total relevant}}$ |
| Space | $\mathbb{R}^d$ |",
    );

    let table = lines.join("\n");
    assert!(table.contains("(relevant in context)/(total relevant)"));
    assert!(table.contains("ℝᵈ"));
    assert!(!table.contains('$'));
}

#[test]
fn renders_inline_math_scripts() {
    let lines =
        plain_lines(r"$e_c$, $K_c$, $A_{ij}$, $E_i^2$, $E_\text{person}$, $\mathbb{R}^d$");

    let line = lines.join("\n");
    assert!(line.contains("e₍c₎"));
    assert!(line.contains("K₍c₎"));
    assert!(line.contains("Aᵢⱼ"));
    assert!(line.contains("Eᵢ²"));
    assert!(line.contains("E₍person₎"));
    assert!(line.contains("ℝᵈ"));
    assert!(!line.contains("e_c"));
    assert!(!line.contains("R^d"));
}

#[test]
fn table_layout_is_exact() {
    let lines = plain_lines("| a | bb |\n|:-:|--:|\n| xyz | c |");
    assert_eq!(
        lines,
        vec![
            "┌─────┬────┐",
            "│  a  │ bb │",
            "├─────┼────┤",
            "│ xyz │  c │",
            "└─────┴────┘",
        ]
    );
}

#[test]
fn heading_styles_and_emphasis() {
    let text = markdown_to_text("## Sub\n\n**bold *both***");
    assert_eq!(text.lines[0].spans[0].content, "Sub");
    assert_eq!(text.lines[0].spans[0].style.fg, Some(TermColor::Green));
    assert!(text.lines[0].spans[0].style.bold);
    let both = text.lines.iter().flat_map(|l| l.spans.iter()).find(|s| s.content == "both").unwrap();
    assert!(both.style.bold && both.style.italic);
}

#[test]
fn list_items_get_dashes() {
    assert_eq!(plain_lines("- one\n- two"), vec!["- one", "", "- two"]);
}

#[test]
fn empty_and_unrendered_markdown_fall_back_to_the_text() {
    assert_eq!(markdown_to_text("").lines.len(), 1);
    assert!(markdown_to_text("").lines[0].spans.is_empty());
    assert_eq!(plain_lines("---"), vec!["---"]);
}

#[test]
fn inline_math_edges() {
    assert_eq!(inline_math_to_text("cost $$ and \\$5 or $x"), "cost $$ and \\$5 or $x");
    assert_eq!(inline_math_to_text("$\\sqrt[3]{x^2}$"), "√[3](x²)");
    assert_eq!(inline_math_to_text("$a \\le b \\quad c$"), "a ≤ b c");
    assert_eq!(inline_math_to_text("$\\operatorname{softmax}(x)$"), "softmax(x)");
    assert_eq!(inline_math_to_text("$\\unknown{y}$"), "unknowny");
}

#[test]
fn trailing_backslash_in_math_is_reported() {
    assert_eq!(inline_math_to_text_checked("$x \\ $"), None);
    assert_eq!(markdown_to_text_checked("text $x \\ $"), None);
    assert!(markdown_to_text_checked("plain").is_some());
}

#[test]
fn empty_markdown_still_takes_a_line() {
    assert_eq!(markdown_to_text("").lines.len(), 1);
    assert_eq!(markdown_to_text("   \n").lines.len(), 1);
}

#[test]
fn inline_math_is_single_spaced() {
    assert_eq!(inline_math_to_text("x $a   +\n b$ y"), "x a + b y");
}

#[test]
fn text_without_dollars_is_kept() {
    assert_eq!(inline_math_to_text("no math here \\ at all"), "no math here \\ at all");
}
