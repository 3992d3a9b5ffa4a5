use notes::formula::{
    formula_cache_file_name, formula_cache_path, is_mathjax_retry, normalize_formula,
    should_retry_render, tint_svg,
};
use std::path::{Path, PathBuf};

#[test]
fn normalizes_formula_whitespace() {
    assert_eq!(normalize_formula("  a  \n + \t b  "), "a + b");
    assert_eq!(
        normalize_formula(r"\mathbf{q} \in \mathbb{R}^{1536}"),
        r"\mathbf{q} \in \mathrm{I\!R}^{1536}"
    );
    assert_eq!(
        normalize_formula(r"x < \theta \quad y > 0"),
        r"x \lt  \theta \quad y \gt  0"
    );
}

#[test]
fn preserves_common_math_styles_for_mathjax() {
    let normalized = normalize_formula(r"\mathbf{v}_i \in \mathbb{R}^d");

    assert_eq!(normalized, r"\mathbf{v}_i \in \mathrm{I\!R}^d");
    assert!(normalized.contains(r"\mathbf"));
    assert!(normalized.contains(r"\mathrm{I\!R}"));
    assert!(!normalized.contains(r"\mathbb"));
}

#[test]
fn mathbb_rewrites_each_letter_and_keeps_commands() {
    assert_eq!(
        normalize_formula(r"\mathbb{NZCQx1\alpha+}"),
        r"\mathrm{I\!N}\mathrm{Z\!\!Z}\mathrm{I\!C}\mathrm{I\!Q}\mathrm{x}\mathrm{1}\alpha+"
    );
}

#[test]
fn mathbb_with_nested_and_unclosed_groups() {
    assert_eq!(normalize_formula(r"\mathbb{R{x}}"), r"\mathrm{I\!R}{\mathrm{x}}");
    assert_eq!(normalize_formula(r"\mathbb{R"), r"\mathbb{R");
    assert_eq!(normalize_formula(r"\mathbb R"), r"\mathbb R");
}

#[test]
fn normalized_formula_has_no_angle_brackets() {
    let normalized = normalize_formula("a<b>c <> d");
    assert!(!normalized.contains('<'));
    assert!(!normalized.contains('>'));
    assert_eq!(normalized, r"a\lt b\gt c \lt \gt  d");
}

#[test]
fn blank_formula_normalizes_to_empty() {
    assert_eq!(normalize_formula(" \t\n "), "");
}

#[test]
fn tints_first_svg_tag_only() {
    assert_eq!(
        tint_svg("<svg a><svg b>", "#ffffff"),
        "<svg color=\"#ffffff\" a><svg b>"
    );
    assert_eq!(tint_svg("<path/>", "#fff"), "<path/>");
}

#[test]
fn retries_only_transient_mathjax_errors() {
    assert!(is_mathjax_retry("error: MathJax retry later"));
    assert!(!is_mathjax_retry("Undefined control sequence"));
    assert!(should_retry_render("MathJax retry", 1));
    assert!(should_retry_render("MathJax retry", 2));
    assert!(!should_retry_render("MathJax retry", 3));
    assert!(!should_retry_render("parse error", 1));
}

#[test]
fn formula_cache_files_are_named_by_sha1() {
    assert_eq!(
        formula_cache_file_name("abc"),
        "a9993e364706816aba3e25717850c26c9cd0d89d.png"
    );
    assert_eq!(
        formula_cache_path(Path::new("/v/.cache/formula"), ""),
        PathBuf::from("/v/.cache/formula/da39a3ee5e6b4b0d3255bfef95601890afd80709.png")
    );
}
