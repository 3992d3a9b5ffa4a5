//! Inline TeX (`$..$`) turned into readable plain text: Greek letters and
//! operators as Unicode symbols, fractions and roots spelled out, scripts as
//! Unicode sub- and superscripts where every character has one.

use vstd::prelude::*;
use crate::formula::{alpha_run_end, group_close, lemma_alpha_run_end, lemma_group_close_bounds};
use crate::formula::{bracket_group, delimited_group, is_ascii_alphabetic};
use crate::text::{
    lemma_collapse_ws_single_spaced, single_spaced, char_views, chars_of, collapse_whitespace, collapse_ws, join, lemma_join_push, occurs_at,
    occurs_at_exec, push_all, slice_of, split_words, str_eq, string_of, trim, trim_bounds, words,
};

verus! {

/// The outcome of reading a construct at some position: it cannot be read,
/// it is not there, or its text and the position after it.
pub enum Scan {
    Unreadable,
    Skip,
    Text(Seq<char>, int),
}

/// End of the command whose backslash is at `i`: the backslash with the ASCII
/// letters after it, or with the one character after it when no letter
/// follows.
pub open spec fn command_end(s: Seq<char>, i: int) -> int {
    let e = alpha_run_end(s, i + 1);
    if e > i + 1 {
        e
    } else {
        i + 2
    }
}

/// The Unicode text of a simple TeX command.
pub open spec fn simple_command_text(cmd: Seq<char>) -> Option<Seq<char>> {
    if cmd == "\\alpha"@ { Some("α"@) }
    else if cmd == "\\beta"@ { Some("β"@) }
    else if cmd == "\\gamma"@ { Some("γ"@) }
    else if cmd == "\\delta"@ { Some("δ"@) }
    else if cmd == "\\epsilon"@ { Some("ε"@) }
    else if cmd == "\\lambda"@ { Some("λ"@) }
    else if cmd == "\\mu"@ { Some("μ"@) }
    else if cmd == "\\theta"@ { Some("θ"@) }
    else if cmd == "\\phi"@ { Some("φ"@) }
    else if cmd == "\\pi"@ { Some("π"@) }
    else if cmd == "\\sigma"@ { Some("σ"@) }
    else if cmd == "\\Delta"@ { Some("Δ"@) }
    else if cmd == "\\Sigma"@ || cmd == "\\sum"@ { Some("Σ"@) }
    else if cmd == "\\times"@ { Some("×"@) }
    else if cmd == "\\subseteq"@ { Some("⊆"@) }
    else if cmd == "\\in"@ { Some("∈"@) }
    else if cmd == "\\cdot"@ { Some("·"@) }
    else if cmd == "\\approx"@ { Some("≈"@) }
    else if cmd == "\\neq"@ || cmd == "\\ne"@ { Some("≠"@) }
    else if cmd == "\\leq"@ || cmd == "\\le"@ { Some("≤"@) }
    else if cmd == "\\geq"@ || cmd == "\\ge"@ { Some("≥"@) }
    else if cmd == "\\cap"@ { Some("∩"@) }
    else if cmd == "\\cup"@ { Some("∪"@) }
    else if cmd == "\\emptyset"@ { Some("∅"@) }
    else if cmd == "\\to"@ || cmd == "\\rightarrow"@ || cmd == "\\xrightarrow"@ { Some("→"@) }
    else if cmd == "\\left"@ || cmd == "\\right"@ { Some(""@) }
    else if cmd == "\\log"@ { Some("log"@) }
    else if cmd == "\\ln"@ { Some("ln"@) }
    else if cmd == "\\sin"@ { Some("sin"@) }
    else if cmd == "\\cos"@ { Some("cos"@) }
    else if cmd == "\\tan"@ { Some("tan"@) }
    else if cmd == "\\quad"@ || cmd == "\\qquad"@ || cmd == "\\,"@ || cmd == "\\;"@ || cmd == "\\:"@
        || cmd == "\\ "@ { Some(" "@) }
    else { None }
}

/// A command without its leading backslashes.
pub open spec fn strip_backslashes(cmd: Seq<char>) -> Seq<char>
    decreases cmd.len(),
{
    if cmd.len() > 0 && cmd[0] == '\\' {
        strip_backslashes(cmd.drop_first())
    } else {
        cmd
    }
}

/// The text an unstructured command stands for.
pub open spec fn command_text(cmd: Seq<char>) -> Seq<char> {
    match simple_command_text(cmd) {
        Some(t) => t,
        None => strip_backslashes(cmd),
    }
}

pub open spec fn subscript_of(c: char) -> Option<char> {
    match c {
        '0' => Some('₀'), '1' => Some('₁'), '2' => Some('₂'), '3' => Some('₃'), '4' => Some('₄'),
        '5' => Some('₅'), '6' => Some('₆'), '7' => Some('₇'), '8' => Some('₈'), '9' => Some('₉'),
        '+' => Some('₊'), '-' => Some('₋'), '=' => Some('₌'), '(' => Some('₍'), ')' => Some('₎'),
        'a' => Some('ₐ'), 'e' => Some('ₑ'), 'h' => Some('ₕ'), 'i' => Some('ᵢ'), 'j' => Some('ⱼ'),
        'k' => Some('ₖ'), 'l' => Some('ₗ'), 'm' => Some('ₘ'), 'n' => Some('ₙ'), 'o' => Some('ₒ'),
        'p' => Some('ₚ'), 's' => Some('ₛ'), 't' => Some('ₜ'), 'u' => Some('ᵤ'), 'v' => Some('ᵥ'),
        'x' => Some('ₓ'),
        _ => None,
    }
}

pub open spec fn superscript_of(c: char) -> Option<char> {
    match c {
        '0' => Some('⁰'), '1' => Some('¹'), '2' => Some('²'), '3' => Some('³'), '4' => Some('⁴'),
        '5' => Some('⁵'), '6' => Some('⁶'), '7' => Some('⁷'), '8' => Some('⁸'), '9' => Some('⁹'),
        '+' => Some('⁺'), '-' => Some('⁻'), '=' => Some('⁼'), '(' => Some('⁽'), ')' => Some('⁾'),
        'a' => Some('ᵃ'), 'b' => Some('ᵇ'), 'c' => Some('ᶜ'), 'd' => Some('ᵈ'), 'e' => Some('ᵉ'),
        'f' => Some('ᶠ'), 'g' => Some('ᵍ'), 'h' => Some('ʰ'), 'i' => Some('ⁱ'), 'j' => Some('ʲ'),
        'k' => Some('ᵏ'), 'l' => Some('ˡ'), 'm' => Some('ᵐ'), 'n' => Some('ⁿ'), 'o' => Some('ᵒ'),
        'p' => Some('ᵖ'), 'r' => Some('ʳ'), 's' => Some('ˢ'), 't' => Some('ᵗ'), 'u' => Some('ᵘ'),
        'v' => Some('ᵛ'), 'w' => Some('ʷ'), 'x' => Some('ˣ'), 'y' => Some('ʸ'), 'z' => Some('ᶻ'),
        _ => None,
    }
}

pub open spec fn double_struck_of(c: char) -> char {
    match c {
        'A' => '𝔸', 'B' => '𝔹', 'C' => 'ℂ', 'D' => '𝔻', 'E' => '𝔼', 'F' => '𝔽', 'G' => '𝔾',
        'H' => 'ℍ', 'I' => '𝕀', 'J' => '𝕁', 'K' => '𝕂', 'L' => '𝕃', 'M' => '𝕄', 'N' => 'ℕ',
        'O' => '𝕆', 'P' => 'ℙ', 'Q' => 'ℚ', 'R' => 'ℝ', 'S' => '𝕊', 'T' => '𝕋', 'U' => '𝕌',
        'V' => '𝕍', 'W' => '𝕎', 'X' => '𝕏', 'Y' => '𝕐', 'Z' => 'ℤ',
        _ => c,
    }
}

/// Every character of `s` through the sub- (or super-) script table, if all
/// of them have an entry.
pub open spec fn script_chars(s: Seq<char>, sub: bool) -> Option<Seq<char>>
    decreases s.len(),
{
    if s.len() == 0 {
        Some(seq![])
    } else {
        let m = if sub { subscript_of(s.last()) } else { superscript_of(s.last()) };
        match (script_chars(s.drop_last(), sub), m) {
            (Some(p), Some(c)) => Some(p.push(c)),
            _ => None,
        }
    }
}

/// A script's text: whitespace removed, then as Unicode script characters
/// when each has one, else wrapped in script parentheses.
pub open spec fn script_text_of(text: Seq<char>, sub: bool) -> Seq<char> {
    let compact = join(words(text), seq![]);
    if compact.len() == 0 {
        seq![]
    } else {
        match script_chars(compact, sub) {
            Some(m) => m,
            None => if sub {
                seq!['₍'] + compact + seq!['₎']
            } else {
                seq!['⁽'] + compact + seq!['⁾']
            },
        }
    }
}

pub open spec fn style_command(s: Seq<char>, i: int) -> Option<int> {
    if occurs_at(s, i, "\\mathbf"@) {
        Some(i + "\\mathbf"@.len())
    } else if occurs_at(s, i, "\\boldsymbol"@) {
        Some(i + "\\boldsymbol"@.len())
    } else if occurs_at(s, i, "\\mathrm"@) {
        Some(i + "\\mathrm"@.len())
    } else if occurs_at(s, i, "\\mathit"@) {
        Some(i + "\\mathit"@.len())
    } else if occurs_at(s, i, "\\operatorname"@) {
        Some(i + "\\operatorname"@.len())
    } else {
        None
    }
}

/// The text of the `{..}` group whose content lies at `lo..hi` of `s`, read
/// as a math expression.
pub open spec fn group_text(s: Seq<char>, lo: int, hi: int) -> Option<Seq<char>>
    decreases s.len(), 0int, 0int,
{
    if 0 < lo <= hi <= s.len() {
        math_text(s.subrange(lo, hi))
    } else {
        None
    }
}

/// `\frac{a}{b}` at `i`.
pub open spec fn frac_at(s: Seq<char>, i: int) -> Scan
    decreases s.len(), s.len() - i, 0int,
{
    let open1 = i + "\\frac"@.len();
    if !(0 <= i < s.len()) {
        Scan::Skip
    } else {
        match group_close(s, open1, '{', '}') {
            None => Scan::Skip,
            Some(close1) => match group_close(s, close1 + 1, '{', '}') {
                None => Scan::Skip,
                Some(close2) => if !(i < open1 < close1 && close1 + 1 < close2 < s.len()) {
                    Scan::Skip
                } else {
                    match (group_text(s, open1 + 1, close1), group_text(s, close1 + 2, close2)) {
                        (Some(a), Some(b)) => Scan::Text(
                            seq!['('] + a + seq![')', '/', '('] + b + seq![')'],
                            close2 + 1,
                        ),
                        _ => Scan::Unreadable,
                    }
                },
            },
        }
    }
}

/// `\sqrt{x}` or `\sqrt[n]{x}` at `i`.
pub open spec fn sqrt_at(s: Seq<char>, i: int) -> Scan
    decreases s.len(), s.len() - i, 0int,
{
    let g = i + "\\sqrt"@.len();
    let root = if 0 <= g < s.len() && s[g] == '[' { group_close(s, g, '[', ']') } else { None };
    let open = match root {
        Some(c) => c + 1,
        None => g,
    };
    if !(0 <= i < s.len()) {
        Scan::Skip
    } else {
        match group_close(s, open, '{', '}') {
            None => Scan::Skip,
            Some(close) => if !(i < g <= open < close < s.len()) {
                Scan::Skip
            } else {
                match group_text(s, open + 1, close) {
                    None => Scan::Unreadable,
                    Some(content) => match root {
                        Some(c) => match group_text(s, g + 1, c) {
                            Some(r) => Scan::Text(
                                seq!['√', '['] + r + seq![']', '('] + content + seq![')'],
                                close + 1,
                            ),
                            None => Scan::Unreadable,
                        },
                        None => Scan::Text(seq!['√', '('] + content + seq![')'], close + 1),
                    },
                }
            },
        }
    }
}

/// A command at `i` whose `{..}` group opens at `open`, its group read as
/// math and each character of that passed through `f`.
pub open spec fn group_command_at(s: Seq<char>, i: int, open: int, double_struck: bool) -> Scan
    decreases s.len(), s.len() - i, 0int,
{
    if !(0 <= i < s.len()) {
        Scan::Skip
    } else {
        match group_close(s, open, '{', '}') {
            None => Scan::Skip,
            Some(close) => if !(i < open < close < s.len()) {
                Scan::Skip
            } else {
                match group_text(s, open + 1, close) {
                    Some(t) => Scan::Text(
                        if double_struck {
                            t.map_values(|c: char| double_struck_of(c))
                        } else {
                            t
                        },
                        close + 1,
                    ),
                    None => Scan::Unreadable,
                }
            },
        }
    }
}

/// `\text{..}` at `i`: the group's content as it is.
pub open spec fn text_at(s: Seq<char>, i: int) -> Scan {
    let open = i + "\\text"@.len();
    match group_close(s, open, '{', '}') {
        None => Scan::Skip,
        Some(close) => if !(0 <= i < open < close < s.len()) {
            Scan::Skip
        } else {
            Scan::Text(s.subrange(open + 1, close), close + 1)
        },
    }
}

/// A structured command at `i`: `\frac{a}{b}`, `\sqrt[n]{x}`, a style command
/// with its group, `\mathbb{..}` or `\text{..}`.
pub open spec fn structured_at(s: Seq<char>, i: int) -> Scan
    decreases s.len(), s.len() - i, 1int,
{
    if !(0 <= i < s.len()) {
        Scan::Skip
    } else if occurs_at(s, i, "\\frac"@) {
        frac_at(s, i)
    } else if occurs_at(s, i, "\\sqrt"@) {
        sqrt_at(s, i)
    } else if style_command(s, i) is Some {
        group_command_at(s, i, style_command(s, i)->0, false)
    } else if occurs_at(s, i, "\\mathbb"@) {
        group_command_at(s, i, i + "\\mathbb"@.len(), true)
    } else if occurs_at(s, i, "\\text"@) {
        text_at(s, i)
    } else {
        Scan::Skip
    }
}

/// The script (after `_` or `^`) that starts at `j`: a `{..}` group read as
/// math, a command, or a single character.
pub open spec fn script_at(s: Seq<char>, j: int) -> Scan
    decreases s.len(), s.len() - j, 2int,
{
    if !(0 <= j < s.len()) {
        Scan::Skip
    } else if s[j] == '{' {
        match group_close(s, j, '{', '}') {
            None => Scan::Skip,
            Some(close) => if !(j < close < s.len()) {
                Scan::Skip
            } else {
                match group_text(s, j + 1, close) {
                    Some(t) => Scan::Text(t, close + 1),
                    None => Scan::Unreadable,
                }
            },
        }
    } else if s[j] == '\\' {
        match structured_at(s, j) {
            Scan::Skip => if j + 1 >= s.len() {
                Scan::Unreadable
            } else {
                let e = command_end(s, j);
                Scan::Text(command_text(s.subrange(j, e)), e)
            },
            other => other,
        }
    } else {
        Scan::Text(seq![s[j]], j + 1)
    }
}

/// `prefix` before the text, when there is one.
pub open spec fn prepend(prefix: Seq<char>, rest: Option<Seq<char>>) -> Option<Seq<char>> {
    match rest {
        Some(r) => Some(prefix + r),
        None => None,
    }
}

/// The text of a math expression from `i` on, before whitespace is collapsed;
/// `None` where it cannot be read (a command backslash with nothing after
/// it).
pub open spec fn math_raw(s: Seq<char>, i: int) -> Option<Seq<char>>
    decreases s.len(), s.len() - i, 3int,
{
    if !(0 <= i < s.len()) {
        Some(seq![])
    } else {
        match structured_at(s, i) {
            Scan::Unreadable => None,
            Scan::Text(t, after) => if i < after <= s.len() {
                prepend(t, math_raw(s, after))
            } else {
                None
            },
            Scan::Skip => {
                let c = s[i];
                let script = if c == '_' || c == '^' { script_at(s, i + 1) } else { Scan::Skip };
                match script {
                    Scan::Unreadable => None,
                    Scan::Text(t, after) => if i < after <= s.len() {
                        prepend(script_text_of(t, c == '_'), math_raw(s, after))
                    } else {
                        None
                    },
                    Scan::Skip => if c == '\\' {
                        if i + 1 >= s.len() {
                            None
                        } else {
                            let e = command_end(s, i);
                            if i < e <= s.len() {
                                prepend(command_text(s.subrange(i, e)), math_raw(s, e))
                            } else {
                                None
                            }
                        }
                    } else if c == '{' || c == '}' {
                        math_raw(s, i + 1)
                    } else {
                        prepend(seq![c], math_raw(s, i + 1))
                    },
                }
            },
        }
    }
}

/// A math expression as plain text, its whitespace collapsed; `None` where
/// it cannot be read.
pub open spec fn math_text(s: Seq<char>) -> Option<Seq<char>>
    decreases s.len(), s.len() + 1, 0int,
{
    match math_raw(s, 0) {
        Some(r) => Some(collapse_ws(r)),
        None => None,
    }
}

fn simple_math_command(cmd: &str) -> (r: Option<&'static str>)
    ensures
        r matches Some(t) ==> simple_command_text(cmd@) == Some(t@),
        r is None ==> simple_command_text(cmd@) is None,
{
    if str_eq(cmd, "\\alpha") { Some("α") }
    else if str_eq(cmd, "\\beta") { Some("β") }
    else if str_eq(cmd, "\\gamma") { Some("γ") }
    else if str_eq(cmd, "\\delta") { Some("δ") }
    else if str_eq(cmd, "\\epsilon") { Some("ε") }
    else if str_eq(cmd, "\\lambda") { Some("λ") }
    else if str_eq(cmd, "\\mu") { Some("μ") }
    else if str_eq(cmd, "\\theta") { Some("θ") }
    else if str_eq(cmd, "\\phi") { Some("φ") }
    else if str_eq(cmd, "\\pi") { Some("π") }
    else if str_eq(cmd, "\\sigma") { Some("σ") }
    else if str_eq(cmd, "\\Delta") { Some("Δ") }
    else if str_eq(cmd, "\\Sigma") || str_eq(cmd, "\\sum") { Some("Σ") }
    else if str_eq(cmd, "\\times") { Some("×") }
    else if str_eq(cmd, "\\subseteq") { Some("⊆") }
    else if str_eq(cmd, "\\in") { Some("∈") }
    else if str_eq(cmd, "\\cdot") { Some("·") }
    else if str_eq(cmd, "\\approx") { Some("≈") }
    else if str_eq(cmd, "\\neq") || str_eq(cmd, "\\ne") { Some("≠") }
    else if str_eq(cmd, "\\leq") || str_eq(cmd, "\\le") { Some("≤") }
    else if str_eq(cmd, "\\geq") || str_eq(cmd, "\\ge") { Some("≥") }
    else if str_eq(cmd, "\\cap") { Some("∩") }
    else if str_eq(cmd, "\\cup") { Some("∪") }
    else if str_eq(cmd, "\\emptyset") { Some("∅") }
    else if str_eq(cmd, "\\to") || str_eq(cmd, "\\rightarrow") || str_eq(cmd, "\\xrightarrow") { Some("→") }
    else if str_eq(cmd, "\\left") || str_eq(cmd, "\\right") { Some("") }
    else if str_eq(cmd, "\\log") { Some("log") }
    else if str_eq(cmd, "\\ln") { Some("ln") }
    else if str_eq(cmd, "\\sin") { Some("sin") }
    else if str_eq(cmd, "\\cos") { Some("cos") }
    else if str_eq(cmd, "\\tan") { Some("tan") }
    else if str_eq(cmd, "\\quad") || str_eq(cmd, "\\qquad") || str_eq(cmd, "\\,") || str_eq(cmd, "\\;")
        || str_eq(cmd, "\\:") || str_eq(cmd, "\\ ") { Some(" ") }
    else { None }
}

fn subscript_char(c: char) -> (r: Option<char>)
    ensures
        r == subscript_of(c),
{
    match c {
        '0' => Some('₀'), '1' => Some('₁'), '2' => Some('₂'), '3' => Some('₃'), '4' => Some('₄'),
        '5' => Some('₅'), '6' => Some('₆'), '7' => Some('₇'), '8' => Some('₈'), '9' => Some('₉'),
        '+' => Some('₊'), '-' => Some('₋'), '=' => Some('₌'), '(' => Some('₍'), ')' => Some('₎'),
        'a' => Some('ₐ'), 'e' => Some('ₑ'), 'h' => Some('ₕ'), 'i' => Some('ᵢ'), 'j' => Some('ⱼ'),
        'k' => Some('ₖ'), 'l' => Some('ₗ'), 'm' => Some('ₘ'), 'n' => Some('ₙ'), 'o' => Some('ₒ'),
        'p' => Some('ₚ'), 's' => Some('ₛ'), 't' => Some('ₜ'), 'u' => Some('ᵤ'), 'v' => Some('ᵥ'),
        'x' => Some('ₓ'),
        _ => None,
    }
}

fn superscript_char(c: char) -> (r: Option<char>)
    ensures
        r == superscript_of(c),
{
    match c {
        '0' => Some('⁰'), '1' => Some('¹'), '2' => Some('²'), '3' => Some('³'), '4' => Some('⁴'),
        '5' => Some('⁵'), '6' => Some('⁶'), '7' => Some('⁷'), '8' => Some('⁸'), '9' => Some('⁹'),
        '+' => Some('⁺'), '-' => Some('⁻'), '=' => Some('⁼'), '(' => Some('⁽'), ')' => Some('⁾'),
        'a' => Some('ᵃ'), 'b' => Some('ᵇ'), 'c' => Some('ᶜ'), 'd' => Some('ᵈ'), 'e' => Some('ᵉ'),
        'f' => Some('ᶠ'), 'g' => Some('ᵍ'), 'h' => Some('ʰ'), 'i' => Some('ⁱ'), 'j' => Some('ʲ'),
        'k' => Some('ᵏ'), 'l' => Some('ˡ'), 'm' => Some('ᵐ'), 'n' => Some('ⁿ'), 'o' => Some('ᵒ'),
        'p' => Some('ᵖ'), 'r' => Some('ʳ'), 's' => Some('ˢ'), 't' => Some('ᵗ'), 'u' => Some('ᵘ'),
        'v' => Some('ᵛ'), 'w' => Some('ʷ'), 'x' => Some('ˣ'), 'y' => Some('ʸ'), 'z' => Some('ᶻ'),
        _ => None,
    }
}

fn double_struck_char(c: char) -> (r: char)
    ensures
        r == double_struck_of(c),
{
    match c {
        'A' => '𝔸', 'B' => '𝔹', 'C' => 'ℂ', 'D' => '𝔻', 'E' => '𝔼', 'F' => '𝔽', 'G' => '𝔾',
        'H' => 'ℍ', 'I' => '𝕀', 'J' => '𝕁', 'K' => '𝕂', 'L' => '𝕃', 'M' => '𝕄', 'N' => 'ℕ',
        'O' => '𝕆', 'P' => 'ℙ', 'Q' => 'ℚ', 'R' => 'ℝ', 'S' => '𝕊', 'T' => '𝕋', 'U' => '𝕌',
        'V' => '𝕍', 'W' => '𝕎', 'X' => '𝕏', 'Y' => '𝕐', 'Z' => 'ℤ',
        _ => c,
    }
}

/// End of the command whose backslash is at `i`.
fn read_command(s: &Vec<char>, i: usize) -> (e: usize)
    requires
        i + 1 < s.len(),
    ensures
        e == command_end(s@, i as int),
        i + 2 <= e <= s.len(),
{
    proof {
        lemma_alpha_run_end(s@, i + 1);
    }
    let mut e = i + 1;
    while e < s.len() && is_ascii_alphabetic(s[e])
        invariant
            i + 1 <= e <= s.len(),
            alpha_run_end(s@, e as int) == alpha_run_end(s@, i + 1),
        decreases s.len() - e,
    {
        e = e + 1;
    }
    if e > i + 1 {
        e
    } else {
        i + 2
    }
}

/// The text an unstructured command stands for.
fn command_text_exec(cmd: &Vec<char>) -> (r: Vec<char>)
    ensures
        r@ == command_text(cmd@),
{
    let name = string_of(cmd);
    match simple_math_command(name.as_str()) {
        Some(t) => chars_of(t),
        None => {
            let mut k: usize = 0;
            assert(cmd@.skip(0) =~= cmd@);
            while k < cmd.len() && cmd[k] == '\\'
                invariant
                    k <= cmd.len(),
                    strip_backslashes(cmd@) == strip_backslashes(cmd@.skip(k as int)),
                decreases cmd.len() - k,
            {
                assert(cmd@.skip(k as int).drop_first() =~= cmd@.skip(k + 1));
                k = k + 1;
            }
            assert(cmd@.subrange(k as int, cmd.len() as int) =~= cmd@.skip(k as int));
            slice_of(cmd, k, cmd.len())
        },
    }
}

/// The script's text with all whitespace removed.
fn compact_text(text: &Vec<char>) -> (r: Vec<char>)
    ensures
        r@ == join(words(text@), seq![]),
{
    let ws = split_words(text);
    let mut r: Vec<char> = Vec::new();
    let mut k: usize = 0;
    assert(char_views(ws@).len() == ws@.len());
    while k < ws.len()
        invariant
            k <= ws.len() == char_views(ws@).len(),
            char_views(ws@) == words(text@),
            r@ == join(char_views(ws@).take(k as int), seq![]),
        decreases ws.len() - k,
    {
        let ghost cw = char_views(ws@);
        proof {
            lemma_join_push(cw.take(k as int), cw[k as int], seq![]);
            assert(cw.take(k + 1) =~= cw.take(k as int).push(cw[k as int]));
        }
        push_all(&mut r, &ws[k]);
        k = k + 1;
        assert(r@ =~= join(cw.take(k as int), seq![]));
    }
    assert(char_views(ws@).take(ws.len() as int) =~= char_views(ws@));
    r
}

fn script_text(text: &Vec<char>, sub: bool) -> (r: Vec<char>)
    ensures
        r@ == script_text_of(text@, sub),
{
    let compact = compact_text(text);
    if compact.len() == 0 {
        return Vec::new();
    }
    let mut mapped: Vec<char> = Vec::new();
    let mut k: usize = 0;
    let mut all = true;
    while k < compact.len() && all
        invariant
            k <= compact.len(),
            all ==> script_chars(compact@.take(k as int), sub) == Some(mapped@),
            !all ==> script_chars(compact@, sub) is None,
        decreases compact.len() - k + (if all { 1int } else { 0int }),
    {
        assert(compact@.take(k + 1).drop_last() =~= compact@.take(k as int));
        let m = if sub { subscript_char(compact[k]) } else { superscript_char(compact[k]) };
        match m {
            Some(c) => {
                mapped.push(c);
                k = k + 1;
            },
            None => {
                proof {
                    lemma_script_chars_prefix_none(compact@, k + 1, sub);
                }
                all = false;
            },
        }
    }
    if all {
        assert(compact@.take(compact.len() as int) =~= compact@);
        mapped
    } else {
        let mut r: Vec<char> = Vec::new();
        r.push(if sub { '₍' } else { '⁽' });
        push_all(&mut r, &compact);
        r.push(if sub { '₎' } else { '⁾' });
        assert(r@ =~= script_text_of(text@, sub));
        r
    }
}

proof fn lemma_script_chars_prefix_none(s: Seq<char>, n: int, sub: bool)
    requires
        0 <= n <= s.len(),
        script_chars(s.take(n), sub) is None,
    ensures
        script_chars(s, sub) is None,
    decreases s.len() - n,
{
    if n < s.len() {
        assert(s.take(n + 1).drop_last() =~= s.take(n));
        lemma_script_chars_prefix_none(s, n + 1, sub);
    } else {
        assert(s.take(n) =~= s);
    }
}

fn subscript_text(text: &Vec<char>) -> (r: Vec<char>)
    ensures
        r@ == script_text_of(text@, true),
{
    script_text(text, true)
}

fn superscript_text(text: &Vec<char>) -> (r: Vec<char>)
    ensures
        r@ == script_text_of(text@, false),
{
    script_text(text, false)
}

/// What reading a construct gave, as values.
enum ScanResult {
    Unreadable,
    Skip,
    Text(Vec<char>, usize),
}

spec fn scan_view(r: ScanResult) -> Scan {
    match r {
        ScanResult::Unreadable => Scan::Unreadable,
        ScanResult::Skip => Scan::Skip,
        ScanResult::Text(t, a) => Scan::Text(t@, a as int),
    }
}

pub open spec fn opt_chars(r: Option<Vec<char>>) -> Option<Seq<char>> {
    match r {
        Some(v) => Some(v@),
        None => None,
    }
}

proof fn lemma_prepend_assoc(a: Seq<char>, b: Seq<char>, x: Option<Seq<char>>)
    ensures
        prepend(a, prepend(b, x)) == prepend(a + b, x),
{
    if let Some(r) = x {
        assert(a + (b + r) =~= (a + b) + r);
    }
}

/// The math text of `s[lo..hi]`.
fn group_math_text(s: &Vec<char>, lo: usize, hi: usize) -> (r: Option<Vec<char>>)
    requires
        0 < lo <= hi <= s.len(),
    ensures
        opt_chars(r) == group_text(s@, lo as int, hi as int),
    decreases s.len(), 0int,
{
    let content = slice_of(s, lo, hi);
    math_expression_to_text(&content)
}

/// Builds `√[root](content)` or `√(content)`.
fn root_text(root: Option<Vec<char>>, content: &Vec<char>) -> (r: Vec<char>)
    ensures
        r@ == match root {
            Some(rt) => seq!['√', '['] + rt@ + seq![']', '('] + content@ + seq![')'],
            None => seq!['√', '('] + content@ + seq![')'],
        },
{
    let mut r: Vec<char> = Vec::new();
    r.push('√');
    match root {
        Some(rt) => {
            r.push('[');
            push_all(&mut r, &rt);
            r.push(']');
            r.push('(');
            push_all(&mut r, content);
            r.push(')');
            assert(r@ =~= seq!['√', '['] + rt@ + seq![']', '('] + content@ + seq![')']);
        },
        None => {
            r.push('(');
            push_all(&mut r, content);
            r.push(')');
            assert(r@ =~= seq!['√', '('] + content@ + seq![')']);
        },
    }
    r
}

/// Where the group of a style command at `i` opens, if one is there.
fn style_command_open(s: &Vec<char>, i: usize) -> (r: Option<usize>)
    ensures
        r matches Some(o) ==> style_command(s@, i as int) == Some(o as int),
        r is None ==> style_command(s@, i as int) is None,
{
    let names = [
        chars_of("\\mathbf"),
        chars_of("\\boldsymbol"),
        chars_of("\\mathrm"),
        chars_of("\\mathit"),
        chars_of("\\operatorname"),
    ];
    let mut k: usize = 0;
    while k < 5
        invariant
            k <= 5,
            names@.len() == 5,
            names@[0]@ == "\\mathbf"@,
            names@[1]@ == "\\boldsymbol"@,
            names@[2]@ == "\\mathrm"@,
            names@[3]@ == "\\mathit"@,
            names@[4]@ == "\\operatorname"@,
            forall|q: int| 0 <= q < k ==> !occurs_at(s@, i as int, #[trigger] names@[q]@),
        decreases 5 - k,
    {
        let n = names[k].len();
        if occurs_at_exec(s, i, names[k].as_slice()) {
            assert(i + n <= s.len());
            return Some(i + n);
        }
        k = k + 1;
    }
    None
}

#[verifier::spinoff_prover]
#[verifier::rlimit(40)]
fn frac_command(s: &Vec<char>, i: usize) -> (r: ScanResult)
    requires
        i < s.len(),
        occurs_at(s@, i as int, "\\frac"@),
    ensures
        scan_view(r) == frac_at(s@, i as int),
        r matches ScanResult::Text(_, a) ==> i < a <= s.len(),
    decreases s.len(), 1int,
{
    proof {
        reveal_strlit("\\frac");
    }
    let open1 = i + 5;
    let close1 = match delimited_group(s, open1, '{', '}') {
        Some(c) => c,
        None => return ScanResult::Skip,
    };
    proof {
        lemma_group_close_bounds(s@, open1 as int, '{', '}');
    }
    let close2 = match delimited_group(s, close1 + 1, '{', '}') {
        Some(c) => c,
        None => return ScanResult::Skip,
    };
    proof {
        lemma_group_close_bounds(s@, close1 + 1, '{', '}');
    }
    let a = group_math_text(s, open1 + 1, close1);
    let b = group_math_text(s, close1 + 2, close2);
    match (a, b) {
        (Some(a), Some(b)) => {
            let mut out: Vec<char> = Vec::new();
            out.push('(');
            push_all(&mut out, &a);
            out.push(')');
            out.push('/');
            out.push('(');
            push_all(&mut out, &b);
            out.push(')');
            assert(out@ =~= seq!['('] + a@ + seq![')', '/', '('] + b@ + seq![')']);
            ScanResult::Text(out, close2 + 1)
        },
        _ => ScanResult::Unreadable,
    }
}

#[verifier::spinoff_prover]
#[verifier::rlimit(40)]
fn sqrt_command(s: &Vec<char>, i: usize) -> (r: ScanResult)
    requires
        i < s.len(),
        occurs_at(s@, i as int, "\\sqrt"@),
    ensures
        scan_view(r) == sqrt_at(s@, i as int),
        r matches ScanResult::Text(_, a) ==> i < a <= s.len(),
    decreases s.len(), 1int,
{
    proof {
        reveal_strlit("\\sqrt");
    }
    let g = i + 5;
    let root = if g < s.len() && s[g] == '[' {
        bracket_group(s, g)
    } else {
        None
    };
    proof {
        lemma_group_close_bounds(s@, g as int, '[', ']');
    }
    let open = match root {
        Some(c) => c + 1,
        None => g,
    };
    let close = match delimited_group(s, open, '{', '}') {
        Some(c) => c,
        None => return ScanResult::Skip,
    };
    proof {
        lemma_group_close_bounds(s@, open as int, '{', '}');
    }
    let content = match group_math_text(s, open + 1, close) {
        Some(t) => t,
        None => return ScanResult::Unreadable,
    };
    match root {
        Some(c) => match group_math_text(s, g + 1, c) {
            Some(rt) => ScanResult::Text(root_text(Some(rt), &content), close + 1),
            None => ScanResult::Unreadable,
        },
        None => ScanResult::Text(root_text(None, &content), close + 1),
    }
}

#[verifier::spinoff_prover]
#[verifier::rlimit(40)]
fn group_command(s: &Vec<char>, i: usize, open: usize, double_struck: bool) -> (r: ScanResult)
    requires
        i < open <= s.len(),
    ensures
        scan_view(r) == group_command_at(s@, i as int, open as int, double_struck),
        r matches ScanResult::Text(_, a) ==> i < a <= s.len(),
    decreases s.len(), 1int,
{
    let close = match delimited_group(s, open, '{', '}') {
        Some(c) => c,
        None => return ScanResult::Skip,
    };
    proof {
        lemma_group_close_bounds(s@, open as int, '{', '}');
    }
    match group_math_text(s, open + 1, close) {
        Some(t) => {
            if !double_struck {
                return ScanResult::Text(t, close + 1);
            }
            let mut out: Vec<char> = Vec::new();
            let mut k: usize = 0;
            while k < t.len()
                invariant
                    k <= t.len(),
                    out@ == t@.take(k as int).map_values(|c: char| double_struck_of(c)),
                decreases t.len() - k,
            {
                out.push(double_struck_char(t[k]));
                k = k + 1;
                assert(out@ =~= t@.take(k as int).map_values(|c: char| double_struck_of(c)));
            }
            assert(t@.take(t.len() as int) =~= t@);
            ScanResult::Text(out, close + 1)
        },
        None => ScanResult::Unreadable,
    }
}

/// A structured command at `i`.
#[verifier::spinoff_prover]
#[verifier::rlimit(40)]
fn structured_math_command(s: &Vec<char>, i: usize) -> (r: ScanResult)
    ensures
        scan_view(r) == structured_at(s@, i as int),
        r matches ScanResult::Text(_, a) ==> i < a <= s.len(),
    decreases s.len(), 2int,
{
    if i >= s.len() {
        return ScanResult::Skip;
    }
    let frac = chars_of("\\frac");
    let sqrt = chars_of("\\sqrt");
    let mathbb = chars_of("\\mathbb");
    let text = chars_of("\\text");
    if occurs_at_exec(s, i, frac.as_slice()) {
        frac_command(s, i)
    } else if occurs_at_exec(s, i, sqrt.as_slice()) {
        sqrt_command(s, i)
    } else if let Some(open) = style_command_open(s, i) {
        proof {
            reveal_strlit("\\mathbf");
            reveal_strlit("\\boldsymbol");
            reveal_strlit("\\mathrm");
            reveal_strlit("\\mathit");
            reveal_strlit("\\operatorname");
        }
        group_command(s, i, open, false)
    } else if occurs_at_exec(s, i, mathbb.as_slice()) {
        proof {
            reveal_strlit("\\mathbb");
        }
        group_command(s, i, i + 7, true)
    } else if occurs_at_exec(s, i, text.as_slice()) {
        proof {
            reveal_strlit("\\text");
        }
        let open = i + 5;
        let close = match delimited_group(s, open, '{', '}') {
            Some(c) => c,
            None => return ScanResult::Skip,
        };
        proof {
            lemma_group_close_bounds(s@, open as int, '{', '}');
        }
        ScanResult::Text(slice_of(s, open + 1, close), close + 1)
    } else {
        ScanResult::Skip
    }
}

/// The script that starts at `j` (after `_` or `^`).
fn read_script(s: &Vec<char>, j: usize) -> (r: ScanResult)
    ensures
        scan_view(r) == script_at(s@, j as int),
        r matches ScanResult::Text(_, a) ==> j < a <= s.len(),
    decreases s.len(), 3int,
{
    if j >= s.len() {
        return ScanResult::Skip;
    }
    if s[j] == '{' {
        let close = match delimited_group(s, j, '{', '}') {
            Some(c) => c,
            None => return ScanResult::Skip,
        };
        proof {
            lemma_group_close_bounds(s@, j as int, '{', '}');
        }
        match group_math_text(s, j + 1, close) {
            Some(t) => ScanResult::Text(t, close + 1),
            None => ScanResult::Unreadable,
        }
    } else if s[j] == '\\' {
        match structured_math_command(s, j) {
            ScanResult::Skip => {
                if j + 1 >= s.len() {
                    ScanResult::Unreadable
                } else {
                    let e = read_command(s, j);
                    ScanResult::Text(command_text_exec(&slice_of(s, j, e)), e)
                }
            },
            other => other,
        }
    } else {
        let mut t: Vec<char> = Vec::new();
        t.push(s[j]);
        assert(t@ =~= seq![s@[j as int]]);
        ScanResult::Text(t, j + 1)
    }
}

/// A math expression as plain text; `None` where it cannot be read.
fn math_expression_to_text(s: &Vec<char>) -> (r: Option<Vec<char>>)
    ensures
        opt_chars(r) == math_text(s@),
    decreases s.len(), 4int,
{
    let mut out: Vec<char> = Vec::new();
    let mut i: usize = 0;
    while i < s.len()
        invariant
            i <= s.len(),
            math_raw(s@, 0) == prepend(out@, math_raw(s@, i as int)),
        decreases s.len() - i,
    {
        let ghost before = out@;
        match structured_math_command(s, i) {
            ScanResult::Unreadable => {
                return None;
            },
            ScanResult::Text(t, after) => {
                proof {
                    lemma_prepend_assoc(before, t@, math_raw(s@, after as int));
                }
                push_all(&mut out, &t);
                i = after;
            },
            ScanResult::Skip => {
                let c = s[i];
                let script = if c == '_' || c == '^' {
                    read_script(s, i + 1)
                } else {
                    ScanResult::Skip
                };
                match script {
                    ScanResult::Unreadable => {
                        return None;
                    },
                    ScanResult::Text(t, after) => {
                        let st = script_text(&t, c == '_');
                        proof {
                            lemma_prepend_assoc(before, st@, math_raw(s@, after as int));
                        }
                        push_all(&mut out, &st);
                        i = after;
                    },
                    ScanResult::Skip => {
                        if c == '\\' {
                            if i + 1 >= s.len() {
                                return None;
                            }
                            let e = read_command(s, i);
                            let ct = command_text_exec(&slice_of(s, i, e));
                            proof {
                                lemma_prepend_assoc(before, ct@, math_raw(s@, e as int));
                            }
                            push_all(&mut out, &ct);
                            i = e;
                        } else if c == '{' || c == '}' {
                            i = i + 1;
                        } else {
                            proof {
                                lemma_prepend_assoc(before, seq![c], math_raw(s@, i + 1));
                            }
                            out.push(c);
                            i = i + 1;
                        }
                    },
                }
            },
        }
    }
    Some(collapse_whitespace(&out))
}

/// Number of backslashes right before index `i`.
pub open spec fn backslashes_before(s: Seq<char>, i: int) -> nat
    decreases i,
{
    if 0 < i <= s.len() && s[i - 1] == '\\' {
        1 + backslashes_before(s, i - 1)
    } else {
        0
    }
}

/// The character at `i` is escaped: an odd number of backslashes precede it.
pub open spec fn escaped_at(s: Seq<char>, i: int) -> bool {
    backslashes_before(s, i) % 2 == 1
}

/// The `$` closing inline math, searching from `j`: unescaped and not part
/// of `$$`.
pub open spec fn inline_math_end(s: Seq<char>, j: int) -> Option<int>
    decreases s.len() - j,
{
    if j < 0 || j >= s.len() {
        None
    } else if s[j] == '$' && !escaped_at(s, j) && !occurs_at(s, j, seq!['$', '$']) {
        Some(j)
    } else {
        inline_math_end(s, j + 1)
    }
}

/// Text with every inline `$..$` span replaced by its math as plain text,
/// scanning from `i`: `$$` stays as it is, escaped or unclosed `$` stays; the
/// span's content is trimmed before it is read. `None` where a span cannot
/// be read.
pub open spec fn inline_math_from(s: Seq<char>, i: int) -> Option<Seq<char>>
    decreases s.len() - i,
{
    if i < 0 || i >= s.len() {
        Some(seq![])
    } else if occurs_at(s, i, seq!['$', '$']) {
        prepend(seq!['$', '$'], inline_math_from(s, i + 2))
    } else if s[i] != '$' || escaped_at(s, i) {
        prepend(seq![s[i]], inline_math_from(s, i + 1))
    } else {
        match inline_math_end(s, i + 1) {
            None => prepend(seq!['$'], inline_math_from(s, i + 1)),
            Some(j) => if i < j < s.len() {
                match math_text(trim(s.subrange(i + 1, j))) {
                    Some(t) => prepend(t, inline_math_from(s, j + 1)),
                    None => None,
                }
            } else {
                None
            },
        }
    }
}

pub open spec fn inline_math_text(s: Seq<char>) -> Option<Seq<char>> {
    inline_math_from(s, 0)
}

proof fn lemma_inline_math_end(s: Seq<char>, j: int)
    requires
        j >= 0,
    ensures
        inline_math_end(s, j) matches Some(k) ==> j <= k < s.len(),
    decreases s.len() - j,
{
    if j < s.len() && !(s[j] == '$' && !escaped_at(s, j) && !occurs_at(s, j, seq!['$', '$'])) {
        lemma_inline_math_end(s, j + 1);
    }
}

/// Whether the character at `i` is escaped by an odd run of backslashes.
fn is_escaped(s: &Vec<char>, i: usize) -> (r: bool)
    requires
        i <= s.len(),
    ensures
        r == escaped_at(s@, i as int),
{
    let mut k = i;
    let mut count: usize = 0;
    while k > 0 && s[k - 1] == '\\'
        invariant
            k <= i <= s.len(),
            count == i - k,
            backslashes_before(s@, i as int) == count + backslashes_before(s@, k as int),
        decreases k,
    {
        k = k - 1;
        count = count + 1;
    }
    count % 2 == 1
}

fn find_inline_math_end(s: &Vec<char>, start: usize) -> (r: Option<usize>)
    ensures
        r matches Some(k) ==> inline_math_end(s@, start as int) == Some(k as int),
        r is None ==> inline_math_end(s@, start as int) is None,
{
    let mut j = start;
    let dd = ['$', '$'];
    assert(dd@ == seq!['$', '$']);
    while j < s.len()
        invariant
            start <= j,
            dd@ == seq!['$', '$'],
            inline_math_end(s@, start as int) == inline_math_end(s@, j as int),
        decreases s.len() - j,
    {
        if s[j] == '$' && !is_escaped(s, j) && !occurs_at_exec(s, j, &dd) {
            return Some(j);
        }
        j = j + 1;
    }
    None
}

/// Every inline `$..$` span of the text replaced by its math as plain text;
/// `None` exactly where a span cannot be read.
pub fn inline_math_to_text_checked(input: &str) -> (r: Option<String>)
    ensures
        match r {
            Some(t) => inline_math_text(input@) == Some(t@),
            None => inline_math_text(input@) is None,
        },
{
    let s = chars_of(input);
    let dd = ['$', '$'];
    assert(dd@ == seq!['$', '$']);
    let mut out: Vec<char> = Vec::new();
    let mut i: usize = 0;
    while i < s.len()
        invariant
            i <= s.len(),
            s@ == input@,
            dd@ == seq!['$', '$'],
            inline_math_from(s@, 0) == prepend(out@, inline_math_from(s@, i as int)),
        decreases s.len() - i,
    {
        let ghost before = out@;
        if occurs_at_exec(&s, i, &dd) {
            proof {
                lemma_prepend_assoc(before, seq!['$', '$'], inline_math_from(s@, i + 2));
            }
            out.push('$');
            out.push('$');
            assert(out@ =~= before + seq!['$', '$']);
            i = i + 2;
            continue;
        }
        let c = s[i];
        if c != '$' || is_escaped(&s, i) {
            proof {
                lemma_prepend_assoc(before, seq![c], inline_math_from(s@, i + 1));
            }
            out.push(c);
            i = i + 1;
            continue;
        }
        proof {
            lemma_inline_math_end(s@, i + 1);
        }
        match find_inline_math_end(&s, i + 1) {
            None => {
                proof {
                    lemma_prepend_assoc(before, seq!['$'], inline_math_from(s@, i + 1));
                }
                out.push('$');
                i = i + 1;
            },
            Some(j) => {
                let (a, b) = trim_bounds(&s, i + 1, j);
                match math_expression_to_text(&slice_of(&s, a, b)) {
                    Some(t) => {
                        proof {
                            lemma_prepend_assoc(before, t@, inline_math_from(s@, j + 1));
                        }
                        push_all(&mut out, &t);
                        i = j + 1;
                    },
                    None => {
                        return None;
                    },
                }
            },
        }
    }
    assert(out@ =~= out@ + seq![]);
    Some(string_of(&out))
}

/// Every inline `$..$` span of the text replaced by its math as plain text,
/// for a text on which this does not fail (see `inline_math_to_text_checked`).
pub fn inline_math_to_text(input: &str) -> (r: String)
    requires
        inline_math_text(input@) is Some,
    ensures
        inline_math_text(input@) == Some(r@),
{
    match inline_math_to_text_checked(input) {
        Some(t) => t,
        None => String::new(),
    }
}


proof fn lemma_no_dollar_from(s: Seq<char>, i: int)
    requires
        0 <= i <= s.len(),
        !s.contains('$'),
    ensures
        inline_math_from(s, i) == Some(s.skip(i)),
    decreases s.len() - i,
{
    if i < s.len() {
        lemma_no_dollar_from(s, i + 1);
        assert(s[i] != '$');
        assert(!occurs_at(s, i, seq!['$', '$'])) by {
            if occurs_at(s, i, seq!['$', '$']) {
                assert(s.subrange(i, i + 2)[0] == s[i]);
            }
        }
        assert(seq![s[i]] + s.skip(i + 1) =~= s.skip(i));
    } else {
        assert(s.skip(i) =~= Seq::<char>::empty());
    }
}

/// Text without a `$` holds no inline math and is left as it is.
pub proof fn lemma_text_without_dollar_unchanged(s: Seq<char>)
    requires
        !s.contains('$'),
    ensures
        inline_math_text(s) == Some(s),
{
    lemma_no_dollar_from(s, 0);
    assert(s.skip(0) =~= s);
}


/// The text of a math expression is single spaced: its whitespace collapsed
/// to single spaces between words, none at either end.
pub proof fn lemma_math_text_single_spaced(s: Seq<char>)
    ensures
        math_text(s) matches Some(t) ==> single_spaced(t),
{
    if let Some(r) = math_raw(s, 0) {
        lemma_collapse_ws_single_spaced(r);
    }
}


/// The symbol each named TeX command stands for, by its Unicode code point:
/// Greek letters, relations, set and arrow operators; `\le`/`\leq` is
/// U+2264 (less-or-equal) and `\ge`/`\geq` is U+2265 (greater-or-equal), so
/// the two relations never swap.
pub proof fn lemma_command_symbols()
    ensures
        simple_command_text("\\alpha"@) == Some(seq!['\u{3b1}']),
        simple_command_text("\\beta"@) == Some(seq!['\u{3b2}']),
        simple_command_text("\\gamma"@) == Some(seq!['\u{3b3}']),
        simple_command_text("\\delta"@) == Some(seq!['\u{3b4}']),
        simple_command_text("\\epsilon"@) == Some(seq!['\u{3b5}']),
        simple_command_text("\\lambda"@) == Some(seq!['\u{3bb}']),
        simple_command_text("\\mu"@) == Some(seq!['\u{3bc}']),
        simple_command_text("\\theta"@) == Some(seq!['\u{3b8}']),
        simple_command_text("\\phi"@) == Some(seq!['\u{3c6}']),
        simple_command_text("\\pi"@) == Some(seq!['\u{3c0}']),
        simple_command_text("\\sigma"@) == Some(seq!['\u{3c3}']),
        simple_command_text("\\Delta"@) == Some(seq!['\u{394}']),
        simple_command_text("\\Sigma"@) == Some(seq!['\u{3a3}']),
        simple_command_text("\\sum"@) == Some(seq!['\u{3a3}']),
        simple_command_text("\\times"@) == Some(seq!['\u{d7}']),
        simple_command_text("\\subseteq"@) == Some(seq!['\u{2286}']),
        simple_command_text("\\in"@) == Some(seq!['\u{2208}']),
        simple_command_text("\\cdot"@) == Some(seq!['\u{b7}']),
        simple_command_text("\\approx"@) == Some(seq!['\u{2248}']),
        simple_command_text("\\neq"@) == Some(seq!['\u{2260}']),
        simple_command_text("\\ne"@) == Some(seq!['\u{2260}']),
        simple_command_text("\\leq"@) == Some(seq!['\u{2264}']),
        simple_command_text("\\le"@) == Some(seq!['\u{2264}']),
        simple_command_text("\\geq"@) == Some(seq!['\u{2265}']),
        simple_command_text("\\ge"@) == Some(seq!['\u{2265}']),
        simple_command_text("\\cap"@) == Some(seq!['\u{2229}']),
        simple_command_text("\\cup"@) == Some(seq!['\u{222a}']),
        simple_command_text("\\emptyset"@) == Some(seq!['\u{2205}']),
        simple_command_text("\\to"@) == Some(seq!['\u{2192}']),
        simple_command_text("\\rightarrow"@) == Some(seq!['\u{2192}']),
        simple_command_text("\\xrightarrow"@) == Some(seq!['\u{2192}']),
        simple_command_text("\\left"@) == Some(Seq::<char>::empty()),
        simple_command_text("\\right"@) == Some(Seq::<char>::empty()),
        simple_command_text("\\log"@) == Some(seq!['l', 'o', 'g']),
        simple_command_text("\\ln"@) == Some(seq!['l', 'n']),
        simple_command_text("\\sin"@) == Some(seq!['s', 'i', 'n']),
        simple_command_text("\\cos"@) == Some(seq!['c', 'o', 's']),
        simple_command_text("\\tan"@) == Some(seq!['t', 'a', 'n']),
        simple_command_text("\\quad"@) == Some(seq![' ']),
        simple_command_text("\\qquad"@) == Some(seq![' ']),
        simple_command_text("\\,"@) == Some(seq![' ']),
        simple_command_text("\\;"@) == Some(seq![' ']),
        simple_command_text("\\:"@) == Some(seq![' ']),
        simple_command_text("\\ "@) == Some(seq![' ']),
{
    reveal_strlit("\\alpha");
    reveal_strlit("\\beta");
    reveal_strlit("\\gamma");
    reveal_strlit("\\delta");
    reveal_strlit("\\epsilon");
    reveal_strlit("\\lambda");
    reveal_strlit("\\mu");
    reveal_strlit("\\theta");
    reveal_strlit("\\phi");
    reveal_strlit("\\pi");
    reveal_strlit("\\sigma");
    reveal_strlit("\\Delta");
    reveal_strlit("\\Sigma");
    reveal_strlit("\\sum");
    reveal_strlit("\\times");
    reveal_strlit("\\subseteq");
    reveal_strlit("\\in");
    reveal_strlit("\\cdot");
    reveal_strlit("\\approx");
    reveal_strlit("\\neq");
    reveal_strlit("\\ne");
    reveal_strlit("\\leq");
    reveal_strlit("\\le");
    reveal_strlit("\\geq");
    reveal_strlit("\\ge");
    reveal_strlit("\\cap");
    reveal_strlit("\\cup");
    reveal_strlit("\\emptyset");
    reveal_strlit("\\to");
    reveal_strlit("\\rightarrow");
    reveal_strlit("\\xrightarrow");
    reveal_strlit("\\left");
    reveal_strlit("\\right");
    reveal_strlit("\\log");
    reveal_strlit("\\ln");
    reveal_strlit("\\sin");
    reveal_strlit("\\cos");
    reveal_strlit("\\tan");
    reveal_strlit("\\quad");
    reveal_strlit("\\qquad");
    reveal_strlit("\\,");
    reveal_strlit("\\;");
    reveal_strlit("\\:");
    reveal_strlit("\\ ");
    reveal_strlit("α");
    reveal_strlit("β");
    reveal_strlit("γ");
    reveal_strlit("δ");
    reveal_strlit("ε");
    reveal_strlit("λ");
    reveal_strlit("μ");
    reveal_strlit("θ");
    reveal_strlit("φ");
    reveal_strlit("π");
    reveal_strlit("σ");
    reveal_strlit("Δ");
    reveal_strlit("Σ");
    reveal_strlit("×");
    reveal_strlit("⊆");
    reveal_strlit("∈");
    reveal_strlit("·");
    reveal_strlit("≈");
    reveal_strlit("≠");
    reveal_strlit("≤");
    reveal_strlit("≥");
    reveal_strlit("∩");
    reveal_strlit("∪");
    reveal_strlit("∅");
    reveal_strlit("→");
    reveal_strlit("");
    reveal_strlit("log");
    reveal_strlit("ln");
    reveal_strlit("sin");
    reveal_strlit("cos");
    reveal_strlit("tan");
    reveal_strlit(" ");
    assert("\\alpha"@.len() == 6 && "\\alpha"@[0] == '\\' && "\\alpha"@[1] == 'a' && "\\alpha"@[2] == 'l' && "\\alpha"@[3] == 'p' && "\\alpha"@[4] == 'h' && "\\alpha"@[5] == 'a');
    assert("\\beta"@.len() == 5 && "\\beta"@[0] == '\\' && "\\beta"@[1] == 'b' && "\\beta"@[2] == 'e' && "\\beta"@[3] == 't' && "\\beta"@[4] == 'a');
    assert("\\gamma"@.len() == 6 && "\\gamma"@[0] == '\\' && "\\gamma"@[1] == 'g' && "\\gamma"@[2] == 'a' && "\\gamma"@[3] == 'm' && "\\gamma"@[4] == 'm' && "\\gamma"@[5] == 'a');
    assert("\\delta"@.len() == 6 && "\\delta"@[0] == '\\' && "\\delta"@[1] == 'd' && "\\delta"@[2] == 'e' && "\\delta"@[3] == 'l' && "\\delta"@[4] == 't' && "\\delta"@[5] == 'a');
    assert("\\epsilon"@.len() == 8 && "\\epsilon"@[0] == '\\' && "\\epsilon"@[1] == 'e' && "\\epsilon"@[2] == 'p' && "\\epsilon"@[3] == 's' && "\\epsilon"@[4] == 'i' && "\\epsilon"@[5] == 'l' && "\\epsilon"@[6] == 'o' && "\\epsilon"@[7] == 'n');
    assert("\\lambda"@.len() == 7 && "\\lambda"@[0] == '\\' && "\\lambda"@[1] == 'l' && "\\lambda"@[2] == 'a' && "\\lambda"@[3] == 'm' && "\\lambda"@[4] == 'b' && "\\lambda"@[5] == 'd' && "\\lambda"@[6] == 'a');
    assert("\\mu"@.len() == 3 && "\\mu"@[0] == '\\' && "\\mu"@[1] == 'm' && "\\mu"@[2] == 'u');
    assert("\\theta"@.len() == 6 && "\\theta"@[0] == '\\' && "\\theta"@[1] == 't' && "\\theta"@[2] == 'h' && "\\theta"@[3] == 'e' && "\\theta"@[4] == 't' && "\\theta"@[5] == 'a');
    assert("\\phi"@.len() == 4 && "\\phi"@[0] == '\\' && "\\phi"@[1] == 'p' && "\\phi"@[2] == 'h' && "\\phi"@[3] == 'i');
    assert("\\pi"@.len() == 3 && "\\pi"@[0] == '\\' && "\\pi"@[1] == 'p' && "\\pi"@[2] == 'i');
    assert("\\sigma"@.len() == 6 && "\\sigma"@[0] == '\\' && "\\sigma"@[1] == 's' && "\\sigma"@[2] == 'i' && "\\sigma"@[3] == 'g' && "\\sigma"@[4] == 'm' && "\\sigma"@[5] == 'a');
    assert("\\Delta"@.len() == 6 && "\\Delta"@[0] == '\\' && "\\Delta"@[1] == 'D' && "\\Delta"@[2] == 'e' && "\\Delta"@[3] == 'l' && "\\Delta"@[4] == 't' && "\\Delta"@[5] == 'a');
    assert("\\Sigma"@.len() == 6 && "\\Sigma"@[0] == '\\' && "\\Sigma"@[1] == 'S' && "\\Sigma"@[2] == 'i' && "\\Sigma"@[3] == 'g' && "\\Sigma"@[4] == 'm' && "\\Sigma"@[5] == 'a');
    assert("\\sum"@.len() == 4 && "\\sum"@[0] == '\\' && "\\sum"@[1] == 's' && "\\sum"@[2] == 'u' && "\\sum"@[3] == 'm');
    assert("\\times"@.len() == 6 && "\\times"@[0] == '\\' && "\\times"@[1] == 't' && "\\times"@[2] == 'i' && "\\times"@[3] == 'm' && "\\times"@[4] == 'e' && "\\times"@[5] == 's');
    assert("\\subseteq"@.len() == 9 && "\\subseteq"@[0] == '\\' && "\\subseteq"@[1] == 's' && "\\subseteq"@[2] == 'u' && "\\subseteq"@[3] == 'b' && "\\subseteq"@[4] == 's' && "\\subseteq"@[5] == 'e' && "\\subseteq"@[6] == 't' && "\\subseteq"@[7] == 'e' && "\\subseteq"@[8] == 'q');
    assert("\\in"@.len() == 3 && "\\in"@[0] == '\\' && "\\in"@[1] == 'i' && "\\in"@[2] == 'n');
    assert("\\cdot"@.len() == 5 && "\\cdot"@[0] == '\\' && "\\cdot"@[1] == 'c' && "\\cdot"@[2] == 'd' && "\\cdot"@[3] == 'o' && "\\cdot"@[4] == 't');
    assert("\\approx"@.len() == 7 && "\\approx"@[0] == '\\' && "\\approx"@[1] == 'a' && "\\approx"@[2] == 'p' && "\\approx"@[3] == 'p' && "\\approx"@[4] == 'r' && "\\approx"@[5] == 'o' && "\\approx"@[6] == 'x');
    assert("\\neq"@.len() == 4 && "\\neq"@[0] == '\\' && "\\neq"@[1] == 'n' && "\\neq"@[2] == 'e' && "\\neq"@[3] == 'q');
    assert("\\ne"@.len() == 3 && "\\ne"@[0] == '\\' && "\\ne"@[1] == 'n' && "\\ne"@[2] == 'e');
    assert("\\leq"@.len() == 4 && "\\leq"@[0] == '\\' && "\\leq"@[1] == 'l' && "\\leq"@[2] == 'e' && "\\leq"@[3] == 'q');
    assert("\\le"@.len() == 3 && "\\le"@[0] == '\\' && "\\le"@[1] == 'l' && "\\le"@[2] == 'e');
    assert("\\geq"@.len() == 4 && "\\geq"@[0] == '\\' && "\\geq"@[1] == 'g' && "\\geq"@[2] == 'e' && "\\geq"@[3] == 'q');
    assert("\\ge"@.len() == 3 && "\\ge"@[0] == '\\' && "\\ge"@[1] == 'g' && "\\ge"@[2] == 'e');
    assert("\\cap"@.len() == 4 && "\\cap"@[0] == '\\' && "\\cap"@[1] == 'c' && "\\cap"@[2] == 'a' && "\\cap"@[3] == 'p');
    assert("\\cup"@.len() == 4 && "\\cup"@[0] == '\\' && "\\cup"@[1] == 'c' && "\\cup"@[2] == 'u' && "\\cup"@[3] == 'p');
    assert("\\emptyset"@.len() == 9 && "\\emptyset"@[0] == '\\' && "\\emptyset"@[1] == 'e' && "\\emptyset"@[2] == 'm' && "\\emptyset"@[3] == 'p' && "\\emptyset"@[4] == 't' && "\\emptyset"@[5] == 'y' && "\\emptyset"@[6] == 's' && "\\emptyset"@[7] == 'e' && "\\emptyset"@[8] == 't');
    assert("\\to"@.len() == 3 && "\\to"@[0] == '\\' && "\\to"@[1] == 't' && "\\to"@[2] == 'o');
    assert("\\rightarrow"@.len() == 11 && "\\rightarrow"@[0] == '\\' && "\\rightarrow"@[1] == 'r' && "\\rightarrow"@[2] == 'i' && "\\rightarrow"@[3] == 'g' && "\\rightarrow"@[4] == 'h' && "\\rightarrow"@[5] == 't' && "\\rightarrow"@[6] == 'a' && "\\rightarrow"@[7] == 'r' && "\\rightarrow"@[8] == 'r' && "\\rightarrow"@[9] == 'o' && "\\rightarrow"@[10] == 'w');
    assert("\\xrightarrow"@.len() == 12 && "\\xrightarrow"@[0] == '\\' && "\\xrightarrow"@[1] == 'x' && "\\xrightarrow"@[2] == 'r' && "\\xrightarrow"@[3] == 'i' && "\\xrightarrow"@[4] == 'g' && "\\xrightarrow"@[5] == 'h' && "\\xrightarrow"@[6] == 't' && "\\xrightarrow"@[7] == 'a' && "\\xrightarrow"@[8] == 'r' && "\\xrightarrow"@[9] == 'r' && "\\xrightarrow"@[10] == 'o' && "\\xrightarrow"@[11] == 'w');
    assert("\\left"@.len() == 5 && "\\left"@[0] == '\\' && "\\left"@[1] == 'l' && "\\left"@[2] == 'e' && "\\left"@[3] == 'f' && "\\left"@[4] == 't');
    assert("\\right"@.len() == 6 && "\\right"@[0] == '\\' && "\\right"@[1] == 'r' && "\\right"@[2] == 'i' && "\\right"@[3] == 'g' && "\\right"@[4] == 'h' && "\\right"@[5] == 't');
    assert("\\log"@.len() == 4 && "\\log"@[0] == '\\' && "\\log"@[1] == 'l' && "\\log"@[2] == 'o' && "\\log"@[3] == 'g');
    assert("\\ln"@.len() == 3 && "\\ln"@[0] == '\\' && "\\ln"@[1] == 'l' && "\\ln"@[2] == 'n');
    assert("\\sin"@.len() == 4 && "\\sin"@[0] == '\\' && "\\sin"@[1] == 's' && "\\sin"@[2] == 'i' && "\\sin"@[3] == 'n');
    assert("\\cos"@.len() == 4 && "\\cos"@[0] == '\\' && "\\cos"@[1] == 'c' && "\\cos"@[2] == 'o' && "\\cos"@[3] == 's');
    assert("\\tan"@.len() == 4 && "\\tan"@[0] == '\\' && "\\tan"@[1] == 't' && "\\tan"@[2] == 'a' && "\\tan"@[3] == 'n');
    assert("\\quad"@.len() == 5 && "\\quad"@[0] == '\\' && "\\quad"@[1] == 'q' && "\\quad"@[2] == 'u' && "\\quad"@[3] == 'a' && "\\quad"@[4] == 'd');
    assert("\\qquad"@.len() == 6 && "\\qquad"@[0] == '\\' && "\\qquad"@[1] == 'q' && "\\qquad"@[2] == 'q' && "\\qquad"@[3] == 'u' && "\\qquad"@[4] == 'a' && "\\qquad"@[5] == 'd');
    assert("\\,"@.len() == 2 && "\\,"@[0] == '\\' && "\\,"@[1] == ',');
    assert("\\;"@.len() == 2 && "\\;"@[0] == '\\' && "\\;"@[1] == ';');
    assert("\\:"@.len() == 2 && "\\:"@[0] == '\\' && "\\:"@[1] == ':');
    assert("\\ "@.len() == 2 && "\\ "@[0] == '\\' && "\\ "@[1] == ' ');
}



/// Digits have subscript forms U+2080 to U+2089 and superscript forms
/// U+2070, U+00B9, U+00B2, U+00B3 and U+2074 to U+2079, so `x_2` reads x₂ and
/// `x^2` reads x².
pub proof fn lemma_digit_scripts()
    ensures
        subscript_of('0') == Some('\u{2080}'),
        subscript_of('1') == Some('\u{2081}'),
        subscript_of('2') == Some('\u{2082}'),
        subscript_of('3') == Some('\u{2083}'),
        subscript_of('4') == Some('\u{2084}'),
        subscript_of('5') == Some('\u{2085}'),
        subscript_of('6') == Some('\u{2086}'),
        subscript_of('7') == Some('\u{2087}'),
        subscript_of('8') == Some('\u{2088}'),
        subscript_of('9') == Some('\u{2089}'),
        superscript_of('0') == Some('\u{2070}'),
        superscript_of('1') == Some('\u{b9}'),
        superscript_of('2') == Some('\u{b2}'),
        superscript_of('3') == Some('\u{b3}'),
        superscript_of('4') == Some('\u{2074}'),
        superscript_of('5') == Some('\u{2075}'),
        superscript_of('6') == Some('\u{2076}'),
        superscript_of('7') == Some('\u{2077}'),
        superscript_of('8') == Some('\u{2078}'),
        superscript_of('9') == Some('\u{2079}'),
{
}

} // verus!
