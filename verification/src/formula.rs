//! Preparing TeX formulas for MathJax: whitespace collapsing, a rewrite of
//! `\mathbb{..}` into commands MathJax renders without extra fonts, escaping of
//! `<` and `>`, and tinting of the rendered SVG.

use vstd::prelude::*;
use sha1::{Digest, Sha1};
use std::path::{Path, PathBuf};
use crate::paths::{join_path, path_joined};
use crate::text::{
    chars_of, collapse_whitespace, collapse_ws, contains_seq, find_from, first_occurrence_from,
    lemma_first_occurrence, occurs_at, occurs_at_exec, push_all, slice_of, string_of,
};

verus! {

/// Errors of the formula renderer.
pub enum FormulaError {
    MathJax(String),
    Svg(String),
    PixmapAllocation,
    Png(String),
}

/// A formula rendered to SVG and to PNG.
pub struct RenderedFormula {
    pub svg: String,
    pub png: Vec<u8>,
    pub width: u32,
    pub height: u32,
}

/// How many times a TeX formula is handed to MathJax before its error is final.
pub const MAX_RENDER_ATTEMPTS: usize = 3;

/// The color that rendered formulas are tinted with.
pub open spec fn svg_color() -> Seq<char> {
    seq!['#', 'f', 'f', 'f', 'f', 'f', 'f']
}

pub open spec fn mathbb_command() -> Seq<char> {
    seq!['\\', 'm', 'a', 't', 'h', 'b', 'b']
}

pub open spec fn mathrm_open() -> Seq<char> {
    seq!['\\', 'm', 'a', 't', 'h', 'r', 'm', '{']
}

pub open spec fn is_ascii_alpha(c: char) -> bool {
    ('a' <= c && c <= 'z') || ('A' <= c && c <= 'Z')
}

pub open spec fn is_ascii_alnum(c: char) -> bool {
    is_ascii_alpha(c) || ('0' <= c && c <= '9')
}

pub fn is_ascii_alphabetic(c: char) -> (r: bool)
    ensures
        r == is_ascii_alpha(c),
{
    ('a' <= c && c <= 'z') || ('A' <= c && c <= 'Z')
}

/// Scan for the delimiter that closes a group: `depth` counts the open
/// delimiters seen so far; a closing one lowers it (never below zero) and
/// ends the scan when it reaches zero.
pub open spec fn group_close_from(s: Seq<char>, j: int, depth: nat, open: char, close: char) -> Option<int>
    decreases s.len() - j,
{
    if j < 0 || j >= s.len() {
        None
    } else if s[j] == open {
        group_close_from(s, j + 1, depth + 1, open, close)
    } else if s[j] == close {
        let d: nat = if depth == 0 { 0 } else { (depth - 1) as nat };
        if d == 0 {
            Some(j)
        } else {
            group_close_from(s, j + 1, d, open, close)
        }
    } else {
        group_close_from(s, j + 1, depth, open, close)
    }
}

/// Index of the delimiter closing the group that opens at `at`, if `s[at]` is
/// `open` and the group is closed.
pub open spec fn group_close(s: Seq<char>, at: int, open: char, close: char) -> Option<int> {
    if 0 <= at < s.len() && s[at] == open {
        group_close_from(s, at, 0, open, close)
    } else {
        None
    }
}

pub proof fn lemma_group_close_from_bounds(s: Seq<char>, j: int, depth: nat, open: char, close: char)
    ensures
        group_close_from(s, j, depth, open, close) matches Some(k) ==> j <= k < s.len() && s[k]
            == close,
    decreases s.len() - j,
{
    if 0 <= j < s.len() {
        if s[j] == open {
            lemma_group_close_from_bounds(s, j + 1, depth + 1, open, close);
        } else if s[j] == close {
            let d: nat = if depth == 0 { 0 } else { (depth - 1) as nat };
            if d != 0 {
                lemma_group_close_from_bounds(s, j + 1, d, open, close);
            }
        } else {
            lemma_group_close_from_bounds(s, j + 1, depth, open, close);
        }
    }
}

pub proof fn lemma_group_close_bounds(s: Seq<char>, at: int, open: char, close: char)
    requires
        open != close,
    ensures
        group_close(s, at, open, close) matches Some(k) ==> 0 <= at < k < s.len() && s[k]
            == close,
{
    lemma_group_close_from_bounds(s, at, 0, open, close);
    if 0 <= at < s.len() && s[at] == open {
        lemma_group_close_from_bounds(s, at + 1, 1, open, close);
    }
}

/// The delimited group that opens at `at`: the index of its closing delimiter.
pub fn delimited_group(s: &Vec<char>, at: usize, open: char, close: char) -> (r: Option<usize>)
    requires
        open != close,
    ensures
        r matches Some(k) ==> group_close(s@, at as int, open, close) == Some(k as int),
        r is None ==> group_close(s@, at as int, open, close) is None,
{
    if at >= s.len() || s[at] != open {
        return None;
    }
    let mut depth: usize = 0;
    let mut j = at;
    while j < s.len()
        invariant
            at <= j <= s.len(),
            depth <= j - at,
            group_close(s@, at as int, open, close) == group_close_from(s@, j as int, depth as nat, open, close),
        decreases s.len() - j,
    {
        let c = s[j];
        if c == open {
            depth = depth + 1;
        } else if c == close {
            depth = if depth == 0 { 0 } else { depth - 1 };
            if depth == 0 {
                return Some(j);
            }
        }
        j = j + 1;
    }
    None
}

/// `\mathbb` content rewritten for MathJax, one character at a time.
pub open spec fn mathbb_char_safe(c: char) -> Seq<char> {
    if c == 'R' {
        mathrm_open() + seq!['I', '\\', '!', 'R', '}']
    } else if c == 'N' {
        mathrm_open() + seq!['I', '\\', '!', 'N', '}']
    } else if c == 'Z' {
        mathrm_open() + seq!['Z', '\\', '!', '\\', '!', 'Z', '}']
    } else if c == 'C' {
        mathrm_open() + seq!['I', '\\', '!', 'C', '}']
    } else if c == 'Q' {
        mathrm_open() + seq!['I', '\\', '!', 'Q', '}']
    } else if is_ascii_alnum(c) {
        mathrm_open() + seq![c, '}']
    } else {
        seq![c]
    }
}

/// End of the run of ASCII letters that starts at `k`.
pub open spec fn alpha_run_end(s: Seq<char>, k: int) -> int
    decreases s.len() - k,
{
    if 0 <= k < s.len() && is_ascii_alpha(s[k]) {
        alpha_run_end(s, k + 1)
    } else {
        k
    }
}

pub proof fn lemma_alpha_run_end(s: Seq<char>, k: int)
    requires
        0 <= k <= s.len(),
    ensures
        k <= alpha_run_end(s, k) <= s.len(),
    decreases s.len() - k,
{
    if k < s.len() && is_ascii_alpha(s[k]) {
        lemma_alpha_run_end(s, k + 1);
    }
}

/// The content of a `\mathbb{..}` group rewritten from index `k` on: commands
/// inside it are kept, every other character goes through `mathbb_char_safe`.
pub open spec fn mathbb_safe_from(s: Seq<char>, k: int) -> Seq<char>
    decreases s.len() - k,
{
    if k < 0 || k >= s.len() {
        seq![]
    } else if s[k] == '\\' {
        proof {
            lemma_alpha_run_end(s, k + 1);
        }
        let e = alpha_run_end(s, k + 1);
        s.subrange(k, e) + mathbb_safe_from(s, e)
    } else {
        mathbb_char_safe(s[k]) + mathbb_safe_from(s, k + 1)
    }
}

/// `\mathbb{..}` commands replaced, scanning from index `i`.
pub open spec fn expand_mathbb_from(s: Seq<char>, i: int) -> Seq<char>
    decreases s.len() - i,
{
    if i < 0 || i >= s.len() {
        seq![]
    } else if occurs_at(s, i, mathbb_command()) && group_close(s, i + 7, '{', '}') is Some {
        proof {
            lemma_group_close_bounds(s, i + 7, '{', '}');
        }
        let close = group_close(s, i + 7, '{', '}')->0;
        mathbb_safe_from(s.subrange(i + 8, close), 0) + expand_mathbb_from(s, close + 1)
    } else {
        seq![s[i]] + expand_mathbb_from(s, i + 1)
    }
}

/// A character made safe for MathJax's TeX input.
pub open spec fn mathjax_safe_char(c: char) -> Seq<char> {
    if c == '<' {
        seq!['\\', 'l', 't', ' ']
    } else if c == '>' {
        seq!['\\', 'g', 't', ' ']
    } else {
        seq![c]
    }
}

/// Every character of `s` made safe for MathJax.
pub open spec fn mathjax_safe(s: Seq<char>) -> Seq<char>
    decreases s.len(),
{
    if s.len() == 0 {
        seq![]
    } else {
        mathjax_safe(s.drop_last()) + mathjax_safe_char(s.last())
    }
}

/// What `normalize_formula` returns.
pub open spec fn normalized_formula(formula: Seq<char>) -> Seq<char> {
    mathjax_safe(expand_mathbb_from(collapse_ws(formula), 0))
}

fn mathbb_char_to_tex_safe(c: char) -> (r: Vec<char>)
    ensures
        r@ == mathbb_char_safe(c),
{
    let mut r = vec!['\\', 'm', 'a', 't', 'h', 'r', 'm', '{'];
    if c == 'R' {
        r.push('I'); r.push('\\'); r.push('!'); r.push('R');
    } else if c == 'N' {
        r.push('I'); r.push('\\'); r.push('!'); r.push('N');
    } else if c == 'Z' {
        r.push('Z'); r.push('\\'); r.push('!'); r.push('\\'); r.push('!'); r.push('Z');
    } else if c == 'C' {
        r.push('I'); r.push('\\'); r.push('!'); r.push('C');
    } else if c == 'Q' {
        r.push('I'); r.push('\\'); r.push('!'); r.push('Q');
    } else if is_ascii_alphabetic(c) || ('0' <= c && c <= '9') {
        r.push(c);
    } else {
        return vec![c];
    }
    r.push('}');
    assert(r@ =~= mathbb_char_safe(c));
    r
}

fn mathbb_to_tex_safe(content: &Vec<char>) -> (r: Vec<char>)
    ensures
        r@ == mathbb_safe_from(content@, 0),
{
    let c = content;
    let mut r: Vec<char> = Vec::new();
    let mut k: usize = 0;
    while k < c.len()
        invariant
            k <= c.len(),
            r@ + mathbb_safe_from(c@, k as int) == mathbb_safe_from(c@, 0),
        decreases c.len() - k,
    {
        let ghost base = r@;
        if c[k] == '\\' {
            let start = k;
            proof { lemma_alpha_run_end(c@, k + 1); }
            let ghost e = alpha_run_end(c@, k + 1);
            r.push('\\');
            k = k + 1;
            while k < c.len() && is_ascii_alphabetic(c[k])
                invariant
                    start < k <= c.len(),
                    k <= e <= c.len(),
                    e == alpha_run_end(c@, start + 1),
                    alpha_run_end(c@, k as int) == e,
                    c@[start as int] == '\\',
                    r@ == base + c@.subrange(start as int, k as int),
                decreases c.len() - k,
            {
                proof { lemma_alpha_run_end(c@, k + 1); }
                r.push(c[k]);
                k = k + 1;
                assert(r@ =~= base + c@.subrange(start as int, k as int));
            }
            assert(k == e);
            assert(r@ + mathbb_safe_from(c@, k as int) =~= base + mathbb_safe_from(c@, start as int));
        } else {
            let piece = mathbb_char_to_tex_safe(c[k]);
            push_all(&mut r, &piece);
            assert(r@ + mathbb_safe_from(c@, k + 1) =~= base + mathbb_safe_from(c@, k as int));
            k = k + 1;
        }
    }
    assert(r@ =~= r@ + mathbb_safe_from(c@, k as int));
    r
}

fn expand_mathbb_commands(s: &Vec<char>) -> (r: Vec<char>)
    ensures
        r@ == expand_mathbb_from(s@, 0),
{
    let mut r: Vec<char> = Vec::new();
    let mut i: usize = 0;
    while i < s.len()
        invariant
            i <= s.len(),
            r@ + expand_mathbb_from(s@, i as int) == expand_mathbb_from(s@, 0),
        decreases s.len() - i,
    {
        let ghost base = r@;
        if occurs_at_exec(s, i, &['\\', 'm', 'a', 't', 'h', 'b', 'b']) {
            assert(['\\', 'm', 'a', 't', 'h', 'b', 'b']@ == mathbb_command());
            if let Some(close) = braced_group(s, i + 7) {
                proof {
                    lemma_group_close_bounds(s@, i + 7, '{', '}');
                }
                let content = slice_of(s, i + 8, close);
                let piece = mathbb_to_tex_safe(&content);
                push_all(&mut r, &piece);
                assert(r@ + expand_mathbb_from(s@, close + 1) =~= base + expand_mathbb_from(
                    s@,
                    i as int,
                ));
                i = close + 1;
                continue;
            }
        }
        assert(['\\', 'm', 'a', 't', 'h', 'b', 'b']@ == mathbb_command());
        r.push(s[i]);
        assert(r@ + expand_mathbb_from(s@, i + 1) =~= base + expand_mathbb_from(s@, i as int));
        i = i + 1;
    }
    assert(r@ =~= r@ + expand_mathbb_from(s@, i as int));
    r
}

/// A `{..}` group opening at `at`: the index of its closing brace.
fn braced_group(s: &Vec<char>, at: usize) -> (r: Option<usize>)
    ensures
        r matches Some(k) ==> group_close(s@, at as int, '{', '}') == Some(k as int),
        r is None ==> group_close(s@, at as int, '{', '}') is None,
{
    delimited_group(s, at, '{', '}')
}

/// The `[..]` group opening at `at`: the index of its closing bracket.
pub fn bracket_group(s: &Vec<char>, at: usize) -> (r: Option<usize>)
    ensures
        r matches Some(k) ==> group_close(s@, at as int, '[', ']') == Some(k as int),
        r is None ==> group_close(s@, at as int, '[', ']') is None,
{
    delimited_group(s, at, '[', ']')
}

fn push_mathjax_safe_char(output: &mut Vec<char>, c: char)
    ensures
        final(output)@ == old(output)@ + mathjax_safe_char(c),
{
    if c == '<' {
        output.push('\\');
        output.push('l');
        output.push('t');
        output.push(' ');
    } else if c == '>' {
        output.push('\\');
        output.push('g');
        output.push('t');
        output.push(' ');
    } else {
        output.push(c);
    }
    assert(output@ =~= old(output)@ + mathjax_safe_char(c));
}

/// A formula made ready for MathJax: whitespace runs collapsed to single
/// spaces and the ends trimmed, `\mathbb{..}` rewritten into `\mathrm`
/// commands, and `<`, `>` replaced by `\lt `, `\gt `.
pub fn normalize_formula(formula: &str) -> (r: String)
    ensures
        r@ == normalized_formula(formula@),
{
    let chars = chars_of(formula);
    let compact = collapse_whitespace(&chars);
    let expanded = expand_mathbb_commands(&compact);
    let mut out: Vec<char> = Vec::new();
    let mut k: usize = 0;
    while k < expanded.len()
        invariant
            k <= expanded.len(),
            out@ == mathjax_safe(expanded@.take(k as int)),
        decreases expanded.len() - k,
    {
        assert(expanded@.take(k + 1).drop_last() =~= expanded@.take(k as int));
        push_mathjax_safe_char(&mut out, expanded[k]);
        k = k + 1;
    }
    assert(expanded@.take(k as int) =~= expanded@);
    string_of(&out)
}

/// No `<` or `>` survives normalization, whatever the formula.
pub proof fn lemma_normalized_formula_has_no_angle_brackets(formula: Seq<char>)
    ensures
        !normalized_formula(formula).contains('<'),
        !normalized_formula(formula).contains('>'),
{
    lemma_mathjax_safe_no_angle(expand_mathbb_from(collapse_ws(formula), 0));
}

proof fn lemma_mathjax_safe_no_angle(s: Seq<char>)
    ensures
        forall|i: int| 0 <= i < mathjax_safe(s).len() ==> mathjax_safe(s)[i] != '<' && mathjax_safe(s)[i] != '>',
    decreases s.len(),
{
    if s.len() > 0 {
        lemma_mathjax_safe_no_angle(s.drop_last());
        let a = mathjax_safe(s.drop_last());
        let b = mathjax_safe_char(s.last());
        assert forall|i: int| 0 <= i < mathjax_safe(s).len() implies mathjax_safe(s)[i] != '<'
            && mathjax_safe(s)[i] != '>' by {
            if i >= a.len() {
                assert(mathjax_safe(s)[i] == b[i - a.len()]);
            } else {
                assert(mathjax_safe(s)[i] == a[i]);
            }
        }
    }
}

pub open spec fn svg_open_tag() -> Seq<char> {
    seq!['<', 's', 'v', 'g', ' ']
}

/// The SVG with a `color` attribute added to its first `<svg ` tag.
pub open spec fn tinted_svg(svg: Seq<char>, color: Seq<char>) -> Seq<char> {
    match first_occurrence_from(svg, svg_open_tag(), 0) {
        Some(k) => svg.take(k) + seq!['<', 's', 'v', 'g', ' ', 'c', 'o', 'l', 'o', 'r', '=', '"']
            + color + seq!['"', ' '] + svg.skip(k + 5),
        None => svg,
    }
}

/// Adds `color="..."` to the first `<svg ` tag, so that `currentColor` paints
/// in that color.
pub fn tint_svg(svg: &str, color: &str) -> (r: String)
    ensures
        r@ == tinted_svg(svg@, color@),
{
    let s = chars_of(svg);
    let tag = ['<', 's', 'v', 'g', ' '];
    assert(tag@ == svg_open_tag());
    match find_from(&s, &tag, 0) {
        Some(k) => {
            proof {
                lemma_first_occurrence(s@, svg_open_tag(), 0);
            }
            let mut out = slice_of(&s, 0, k);
            let opening = vec!['<', 's', 'v', 'g', ' ', 'c', 'o', 'l', 'o', 'r', '=', '"'];
            push_all(&mut out, &opening);
            let c = chars_of(color);
            push_all(&mut out, &c);
            out.push('"');
            out.push(' ');
            let rest = slice_of(&s, k + 5, s.len());
            push_all(&mut out, &rest);
            assert(out@ =~= tinted_svg(svg@, color@));
            string_of(&out)
        },
        None => string_of(&s),
    }
}

pub open spec fn mathjax_retry_marker() -> Seq<char> {
    seq!['M', 'a', 't', 'h', 'J', 'a', 'x', ' ', 'r', 'e', 't', 'r', 'y']
}

/// MathJax reports a transient failure that a second attempt may not hit.
pub fn is_mathjax_retry(error: &str) -> (r: bool)
    ensures
        r == contains_seq(error@, mathjax_retry_marker()),
{
    let e = chars_of(error);
    let marker = ['M', 'a', 't', 'h', 'J', 'a', 'x', ' ', 'r', 'e', 't', 'r', 'y'];
    assert(marker@ == mathjax_retry_marker());
    proof {
        lemma_first_occurrence(e@, mathjax_retry_marker(), 0);
    }
    find_from(&e, &marker, 0).is_some()
}

/// After MathJax failed with `error` on attempt number `attempt` (counting
/// from one), whether to try once more.
pub fn should_retry_render(error: &str, attempt: usize) -> (r: bool)
    ensures
        r == (contains_seq(error@, mathjax_retry_marker()) && attempt < MAX_RENDER_ATTEMPTS),
{
    is_mathjax_retry(error) && attempt < MAX_RENDER_ATTEMPTS
}


/// The SHA-1 digest of the UTF-8 encoding of `s`, in lowercase hex.
pub uninterp spec fn sha1_hex_of(s: Seq<char>) -> Seq<char>;

/// A lowercase hex digit.
pub open spec fn is_lower_hex(c: char) -> bool {
    ('0' <= c && c <= '9') || ('a' <= c && c <= 'f')
}

/// `Sha1::digest` of the string's bytes, formatted with `{:x}`: the 20 bytes
/// of the digest as 40 lowercase hex digits.
#[verifier::external_body]
fn sha1_hex(value: &str) -> (r: String)
    ensures
        r@ == sha1_hex_of(value@),
        r@.len() == 40,
        forall|i: int| 0 <= i < 40 ==> is_lower_hex(#[trigger] r@[i]),
{
    format!("{:x}", Sha1::digest(value.as_bytes()))
}

/// The file that caches the picture of a normalized formula: its SHA-1 in
/// hex, then `.png`.
pub fn formula_cache_file_name(normalized: &str) -> (r: String)
    ensures
        r@ == sha1_hex_of(normalized@) + ".png"@,
{
    let hex = sha1_hex(normalized);
    let mut name = chars_of(hex.as_str());
    let ext = chars_of(".png");
    push_all(&mut name, &ext);
    string_of(&name)
}

/// The path, under the cache directory `dir`, of the picture of a normalized
/// formula.
pub fn formula_cache_path(dir: &Path, normalized: &str) -> (r: PathBuf)
    ensures
        r == path_joined(dir, sha1_hex_of(normalized@) + ".png"@),
{
    let name = formula_cache_file_name(normalized);
    join_path(dir, name.as_str())
}

} // verus!
