//! The syntax of a note's body: image links `![alt](href)`, and the blocks a
//! body splits into (display formulas in `$$..$$` or in ```` ```latex ````
//! / ```` ```math ```` fences, image lines, and the markdown between them).

use vstd::prelude::*;
use std::path::{Path, PathBuf};
use crate::note::{NoteBlock, NoteImage};
use crate::paths::{
    canonical_path, file_name_of, join_path, parent_of, path_exists, path_file_name, path_from,
    path_joined, path_of_text, path_parent,
};
use crate::text::{
    chars_of, contains_seq, find_from, first_occurrence_from, lemma_first_occurrence,
    lemma_trim_idempotent, occurs_at, occurs_at_exec, slice_of, string_of, trim, trim_bounds,
};

verus! {

/// Index of the first `c` in `s` at or after `from`.
pub open spec fn find_char(s: Seq<char>, c: char, from: int) -> Option<int>
    decreases s.len() - from,
{
    if from < 0 || from >= s.len() {
        None
    } else if s[from] == c {
        Some(from)
    } else {
        find_char(s, c, from + 1)
    }
}

pub proof fn lemma_find_char(s: Seq<char>, c: char, from: int)
    requires
        from >= 0,
    ensures
        find_char(s, c, from) matches Some(k) ==> from <= k < s.len() && s[k] == c && forall|j: int|
            from <= j < k ==> s[j] != c,
        find_char(s, c, from) is None ==> forall|j: int| from <= j < s.len() ==> s[j] != c,
    decreases s.len() - from,
{
    if from < s.len() && s[from] != c {
        lemma_find_char(s, c, from + 1);
    }
}

fn find_char_exec(s: &Vec<char>, c: char, from: usize) -> (r: Option<usize>)
    ensures
        r matches Some(k) ==> find_char(s@, c, from as int) == Some(k as int),
        r is None ==> find_char(s@, c, from as int) is None,
{
    let mut i = from;
    while i < s.len()
        invariant
            from <= i,
            find_char(s@, c, from as int) == find_char(s@, c, i as int),
        decreases s.len() - i,
    {
        if s[i] == c {
            return Some(i);
        }
        i = i + 1;
    }
    None
}

/// The image syntax `![alt](href)` starting at `i`: the indices of its `]` and
/// of its closing `)`. The alt text holds no `]`, the href is not empty and
/// holds no `)`; both may span lines.
pub open spec fn image_syntax_at(s: Seq<char>, i: int) -> Option<(int, int)> {
    if 0 <= i && i + 1 < s.len() && s[i] == '!' && s[i + 1] == '[' {
        match find_char(s, ']', i + 2) {
            Some(j) => if j + 1 < s.len() && s[j + 1] == '(' {
                match find_char(s, ')', j + 2) {
                    Some(k) => if k > j + 2 {
                        Some((j, k))
                    } else {
                        None
                    },
                    None => None,
                }
            } else {
                None
            },
            None => None,
        }
    } else {
        None
    }
}

pub proof fn lemma_image_syntax_at(s: Seq<char>, i: int)
    ensures
        image_syntax_at(s, i) matches Some((j, k)) ==> 0 <= i && i + 2 <= j && j + 2 < k < s.len(),
{
    if 0 <= i && i + 1 < s.len() && s[i] == '!' && s[i + 1] == '[' {
        lemma_find_char(s, ']', i + 2);
        if let Some(j) = find_char(s, ']', i + 2) {
            if j + 1 < s.len() {
                lemma_find_char(s, ')', j + 2);
            }
        }
    }
}

fn image_syntax_at_exec(s: &Vec<char>, i: usize) -> (r: Option<(usize, usize)>)
    ensures
        r matches Some((j, k)) ==> image_syntax_at(s@, i as int) == Some((j as int, k as int)),
        r is None ==> image_syntax_at(s@, i as int) is None,
{
    if i >= s.len() || s.len() - i < 2 || s[i] != '!' || s[i + 1] != '[' {
        return None;
    }
    proof {
        lemma_find_char(s@, ']', i + 2);
    }
    match find_char_exec(s, ']', i + 2) {
        Some(j) => {
            if j + 1 < s.len() && s[j + 1] == '(' {
                match find_char_exec(s, ')', j + 2) {
                    Some(k) => {
                        if k > j + 2 {
                            Some((j, k))
                        } else {
                            None
                        }
                    },
                    None => None,
                }
            } else {
                None
            }
        },
        None => None,
    }
}

/// The image links of a text, as `(alt, href)` pairs both trimmed: every
/// leftmost image syntax from `from` on, the search going on after each one.
pub open spec fn image_links_from(s: Seq<char>, from: int) -> Seq<(Seq<char>, Seq<char>)>
    decreases s.len() - from,
{
    if from < 0 || from >= s.len() {
        seq![]
    } else {
        match image_syntax_at(s, from) {
            Some((j, k)) => {
                proof {
                    lemma_image_syntax_at(s, from);
                }
                seq![(trim(s.subrange(from + 2, j)), trim(s.subrange(j + 2, k)))]
                    + image_links_from(s, k + 1)
            },
            None => image_links_from(s, from + 1),
        }
    }
}

/// An image link of a note's text, alt text and href trimmed.
#[derive(Debug, Clone, PartialEq, Eq)]
pub struct ImageLink {
    pub alt: String,
    pub href: String,
}

impl View for ImageLink {
    type V = (Seq<char>, Seq<char>);

    open spec fn view(&self) -> (Seq<char>, Seq<char>) {
        (self.alt@, self.href@)
    }
}

/// Every `![alt](href)` of the text, in order, alt and href trimmed.
pub fn image_links(body: &str) -> (r: Vec<ImageLink>)
    ensures
        r@.map_values(|l: ImageLink| l@) == image_links_from(body@, 0),
{
    let s = chars_of(body);
    let mut r: Vec<ImageLink> = Vec::new();
    let mut i: usize = 0;
    while i < s.len()
        invariant
            i <= s.len(),
            s@ == body@,
            r@.map_values(|l: ImageLink| l@) + image_links_from(s@, i as int) == image_links_from(s@, 0),
        decreases s.len() - i,
    {
        let ghost before = r@.map_values(|l: ImageLink| l@);
        match image_syntax_at_exec(&s, i) {
            Some((j, k)) => {
                proof {
                    lemma_image_syntax_at(s@, i as int);
                }
                let (a0, a1) = trim_bounds(&s, i + 2, j);
                let (h0, h1) = trim_bounds(&s, j + 2, k);
                let link = ImageLink {
                    alt: string_of(&slice_of(&s, a0, a1)),
                    href: string_of(&slice_of(&s, h0, h1)),
                };
                r.push(link);
                assert(r@.map_values(|l: ImageLink| l@) =~= before.push(link@));
                assert(r@.map_values(|l: ImageLink| l@) + image_links_from(s@, k + 1)
                    =~= before + image_links_from(s@, i as int));
                i = k + 1;
            },
            None => {
                i = i + 1;
            },
        }
    }
    assert(r@.map_values(|l: ImageLink| l@) =~= r@.map_values(|l: ImageLink| l@)
        + image_links_from(s@, i as int));
    r
}

pub open spec fn url_scheme_separator() -> Seq<char> {
    seq![':', '/', '/']
}

/// What a link looks up on disk: its href trimmed; nothing for a URL (any
/// href holding `://`).
pub open spec fn link_target_of(href: Seq<char>) -> Option<Seq<char>> {
    if contains_seq(href, url_scheme_separator()) {
        None
    } else {
        Some(trim(href))
    }
}

/// The directory a note's links are relative to: the note's parent, or the
/// empty path.
pub open spec fn link_base(note_path: &Path) -> &Path {
    match path_parent(note_path) {
        Some(p) => p,
        None => path_from(""@),
    }
}

/// What a link resolves to once the filesystem has answered whether the
/// candidate exists and what its canonical form is: nothing when it does not
/// exist, else the canonical form, or the candidate itself without one.
pub open spec fn resolved_of(candidate: PathBuf, exists: bool, canonical: Option<PathBuf>) -> Option<
    PathBuf,
> {
    if !exists {
        None
    } else {
        match canonical {
            Some(c) => Some(c),
            None => Some(candidate),
        }
    }
}

/// What a link looks up on disk: its href trimmed, or nothing for a URL.
pub fn link_target(href: &str) -> (r: Option<String>)
    ensures
        r matches Some(t) ==> link_target_of(href@) == Some(t@),
        r is None ==> link_target_of(href@) is None,
{
    let h = chars_of(href);
    let sep = [':', '/', '/'];
    assert(sep@ == url_scheme_separator());
    proof {
        lemma_first_occurrence(h@, url_scheme_separator(), 0);
    }
    if find_from(&h, &sep, 0).is_some() {
        return None;
    }
    let (a, b) = trim_bounds(&h, 0, h.len());
    assert(h@.subrange(0, h@.len() as int) =~= h@);
    Some(string_of(&slice_of(&h, a, b)))
}

/// The path that a link to `target` from the note at `note_path` names: the
/// note's directory joined with the target.
pub fn link_candidate(note_path: &Path, target: &str) -> (r: PathBuf)
    ensures
        r == path_joined(link_base(note_path), target@),
{
    let base = match parent_of(note_path) {
        Some(p) => p,
        None => path_of_text(""),
    };
    join_path(base, target)
}

/// What a link resolves to, given whether its candidate exists and the
/// candidate's canonical form, if the filesystem gave one.
pub fn resolved_candidate(candidate: PathBuf, exists: bool, canonical: Option<PathBuf>) -> (r:
    Option<PathBuf>)
    ensures
        r == resolved_of(candidate, exists, canonical),
{
    if !exists {
        return None;
    }
    match canonical {
        Some(c) => Some(c),
        None => Some(candidate),
    }
}

/// The file a link of the note at `note_path` points to: `None` for a URL
/// (any href holding `://`); else the note's directory joined with the
/// trimmed href (`link_candidate`) is asked of the filesystem, and the result
/// is `resolved_of` the candidate, whether it exists and its canonical form.
pub fn resolve_link(note_path: &Path, href: &str) -> (r: Option<PathBuf>)
    ensures
        link_target_of(href@) is None ==> r is None,
        contains_seq(href@, url_scheme_separator()) ==> r is None,
        r is Some ==> link_target_of(href@) is Some,
        link_target_of(href@) is Some ==> exists|found: bool, canonical: Option<PathBuf>|
            r == #[trigger] resolved_of(
                path_joined(link_base(note_path), link_target_of(href@)->Some_0),
                found,
                canonical,
            ),
{
    let target = match link_target(href) {
        Some(t) => t,
        None => return None,
    };
    let candidate = link_candidate(note_path, target.as_str());
    let ghost c = candidate;
    let exists = path_exists(&candidate);
    let canonical = if exists {
        canonical_path(&candidate)
    } else {
        None
    };
    let r = resolved_candidate(candidate, exists, canonical);
    assert(link_target_of(href@)->Some_0 == target@);
    assert(r == resolved_of(c, exists, canonical));
    assert(exists|found: bool, k: Option<PathBuf>| r == #[trigger] resolved_of(
        path_joined(link_base(note_path), link_target_of(href@)->Some_0), found, k));
    r
}

/// Every image link of a note's body, in order, each resolved against the
/// note's path.
pub fn extract_images(note_path: &Path, body: &str) -> (r: Vec<NoteImage>)
    ensures
        r.len() == image_links_from(body@, 0).len(),
        forall|i: int|
            0 <= i < r.len() ==> {
                &&& (#[trigger] r@[i]).alt@ == image_links_from(body@, 0)[i].0
                &&& r@[i].href@ == image_links_from(body@, 0)[i].1
                &&& contains_seq(r@[i].href@, url_scheme_separator()) ==> r@[i].resolved is None
            },
{
    let links = image_links(body);
    let ghost spec_links = image_links_from(body@, 0);
    let mut r: Vec<NoteImage> = Vec::new();
    let mut i: usize = 0;
    while i < links.len()
        invariant
            i <= links.len(),
            r.len() == i,
            links@.map_values(|l: ImageLink| l@) == spec_links,
            forall|q: int|
                0 <= q < i ==> {
                    &&& (#[trigger] r@[q]).alt@ == spec_links[q].0
                    &&& r@[q].href@ == spec_links[q].1
                    &&& contains_seq(r@[q].href@, url_scheme_separator()) ==> r@[q].resolved is None
                },
        decreases links.len() - i,
    {
        assert(spec_links[i as int] == links@[i as int]@);
        let href = links[i].href.clone();
        let alt = links[i].alt.clone();
        let resolved = resolve_link(note_path, href.as_str());
        r.push(NoteImage { alt, href, resolved });
        i = i + 1;
    }
    r
}

/// `i` is at the start of a line.
pub open spec fn line_start(s: Seq<char>, i: int) -> bool {
    i == 0 || (0 < i <= s.len() && s[i - 1] == '\n')
}

/// End of the run of spaces and tabs that starts at `k`.
pub open spec fn skip_blanks(s: Seq<char>, k: int) -> int
    decreases s.len() - k,
{
    if 0 <= k < s.len() && (s[k] == ' ' || s[k] == '\t') {
        skip_blanks(s, k + 1)
    } else {
        k
    }
}

/// End of trailing spaces and tabs and one optional newline after `k`.
pub open spec fn trailer_end(s: Seq<char>, k: int) -> int {
    let t = skip_blanks(s, k);
    if 0 <= t < s.len() && s[t] == '\n' {
        t + 1
    } else {
        t
    }
}

pub open spec fn latex_fence_open() -> Seq<char> {
    seq!['`', '`', '`', 'l', 'a', 't', 'e', 'x', '\n']
}

pub open spec fn math_fence_open() -> Seq<char> {
    seq!['`', '`', '`', 'm', 'a', 't', 'h', '\n']
}

pub open spec fn fence_close() -> Seq<char> {
    seq!['\n', '`', '`', '`']
}

pub open spec fn display_mark() -> Seq<char> {
    seq!['$', '$']
}

pub open spec fn display_close_line() -> Seq<char> {
    seq!['\n', '$', '$']
}

/// Where the body of a ```` ```latex ```` or ```` ```math ```` fence opening at
/// `i` begins.
pub open spec fn fence_body_start(s: Seq<char>, i: int) -> Option<int> {
    if occurs_at(s, i, latex_fence_open()) {
        Some(i + 9)
    } else if occurs_at(s, i, math_fence_open()) {
        Some(i + 8)
    } else {
        None
    }
}

/// The first index at or after `e` where a display formula can close: a
/// newline followed by `$$`, or `$$`.
pub open spec fn display_close_from(s: Seq<char>, e: int) -> Option<int>
    decreases s.len() - e,
{
    if e < 0 || e >= s.len() {
        None
    } else if occurs_at(s, e, display_close_line()) || occurs_at(s, e, display_mark()) {
        Some(e)
    } else {
        display_close_from(s, e + 1)
    }
}

/// The block syntax found at a position: a display formula (its body and the
/// end of the whole match), or an image line.
pub enum BlockSyntax {
    Formula { body_start: int, body_end: int, end: int },
    Image { bracket: int, paren: int, end: int },
}

pub open spec fn syntax_end(m: BlockSyntax) -> int {
    match m {
        BlockSyntax::Formula { end, .. } => end,
        BlockSyntax::Image { end, .. } => end,
    }
}

/// The block syntax that starts at `i`, if any: it starts a line and is,
/// tried in this order, a fenced formula (the body ends at the first newline
/// followed by three backticks), a `$$` formula (an optional newline after the
/// opening `$$`; the body ends at the first `$$` or newline and `$$`), or an
/// image link. Trailing spaces, tabs and one newline belong to the match.
pub open spec fn block_syntax_at(s: Seq<char>, i: int) -> Option<BlockSyntax> {
    if !(0 <= i < s.len()) || !line_start(s, i) {
        None
    } else {
        match fence_body_start(s, i) {
            Some(b) => match first_occurrence_from(s, fence_close(), b) {
                Some(e) => Some(BlockSyntax::Formula { body_start: b, body_end: e, end: trailer_end(s, e + 4) }),
                None => None,
            },
            None => if occurs_at(s, i, display_mark()) {
                let b = if i + 2 < s.len() && s[i + 2] == '\n' { i + 3 } else { i + 2 };
                match display_close_from(s, b) {
                    Some(e) => Some(BlockSyntax::Formula {
                        body_start: b,
                        body_end: e,
                        end: trailer_end(s, if s[e] == '\n' { e + 3 } else { e + 2 }),
                    }),
                    None => None,
                }
            } else {
                match image_syntax_at(s, i) {
                    Some((j, k)) => Some(BlockSyntax::Image { bracket: j, paren: k, end: trailer_end(s, k + 1) }),
                    None => None,
                }
            },
        }
    }
}

proof fn lemma_skip_blanks(s: Seq<char>, k: int)
    requires
        0 <= k <= s.len(),
    ensures
        k <= skip_blanks(s, k) <= s.len(),
    decreases s.len() - k,
{
    if k < s.len() && (s[k] == ' ' || s[k] == '\t') {
        lemma_skip_blanks(s, k + 1);
    }
}

proof fn lemma_display_close(s: Seq<char>, e: int)
    requires
        e >= 0,
    ensures
        display_close_from(s, e) matches Some(c) ==> e <= c && (occurs_at(s, c, display_close_line())
            || occurs_at(s, c, display_mark())),
    decreases s.len() - e,
{
    if e < s.len() && !(occurs_at(s, e, display_close_line()) || occurs_at(s, e, display_mark())) {
        lemma_display_close(s, e + 1);
    }
}

/// Where a block syntax ends, and that its parts lie in order inside it.
pub proof fn lemma_block_syntax_bounds(s: Seq<char>, i: int)
    ensures
        block_syntax_at(s, i) matches Some(m) ==> i < syntax_end(m) <= s.len() && match m {
            BlockSyntax::Formula { body_start, body_end, end } => i < body_start <= body_end < end,
            BlockSyntax::Image { bracket, paren, end } => i + 2 <= bracket && bracket + 2 < paren
                && paren < end,
        },
{
    if 0 <= i < s.len() && line_start(s, i) {
        match fence_body_start(s, i) {
            Some(b) => {
                lemma_first_occurrence(s, fence_close(), b);
                if let Some(e) = first_occurrence_from(s, fence_close(), b) {
                    lemma_skip_blanks(s, e + 4);
                }
            },
            None => {
                if occurs_at(s, i, display_mark()) {
                    let b = if i + 2 < s.len() && s[i + 2] == '\n' { i + 3 } else { i + 2 };
                    lemma_display_close(s, b);
                    if let Some(e) = display_close_from(s, b) {
                        if s[e] == '\n' {
                            assert(s.subrange(e, e + 3)[0] == '\n');
                            lemma_skip_blanks(s, e + 3);
                        } else {
                            lemma_skip_blanks(s, e + 2);
                        }
                    }
                } else {
                    lemma_image_syntax_at(s, i);
                    if let Some((j, k)) = image_syntax_at(s, i) {
                        lemma_skip_blanks(s, k + 1);
                    }
                }
            },
        }
    }
}

/// A block of a note's body, as text.
pub enum SpecBlock {
    Markdown(Seq<char>),
    Image { alt: Seq<char>, href: Seq<char> },
    Formula(Seq<char>),
}

/// The markdown between two syntax blocks: trimmed, and dropped when blank.
pub open spec fn markdown_piece(t: Seq<char>) -> Seq<SpecBlock> {
    if trim(t).len() > 0 {
        seq![SpecBlock::Markdown(trim(t))]
    } else {
        seq![]
    }
}

/// The alt text of an image block: the trimmed alt text, or when that is
/// empty the file name of the href, or the href itself.
pub open spec fn image_alt(alt: Seq<char>, href: Seq<char>) -> Seq<char> {
    if alt.len() > 0 {
        alt
    } else {
        match path_file_name(href) {
            Some(name) => name,
            None => href,
        }
    }
}

/// The block that a syntax match at `i` contributes: a formula with its body
/// trimmed (nothing for a blank one), or an image with trimmed href.
pub open spec fn syntax_piece(s: Seq<char>, i: int, m: BlockSyntax) -> Seq<SpecBlock> {
    match m {
        BlockSyntax::Formula { body_start, body_end, .. } => {
            let body = trim(s.subrange(body_start, body_end));
            if body.len() > 0 {
                seq![SpecBlock::Formula(body)]
            } else {
                seq![]
            }
        },
        BlockSyntax::Image { bracket, paren, .. } => {
            let href = trim(s.subrange(bracket + 2, paren));
            seq![SpecBlock::Image { alt: image_alt(trim(s.subrange(i + 2, bracket)), href), href }]
        },
    }
}

/// The blocks of `s` from `pos` on, searching for block syntax from `i`: the
/// text from `pos` up to the next syntax match is a markdown block, then comes
/// the match's own block, and the search goes on after the match.
pub open spec fn blocks_search(s: Seq<char>, pos: int, i: int) -> Seq<SpecBlock>
    decreases s.len() - i,
{
    if i < 0 || i >= s.len() {
        markdown_piece(s.subrange(pos, s.len() as int))
    } else {
        match block_syntax_at(s, i) {
            Some(m) => {
                proof {
                    lemma_block_syntax_bounds(s, i);
                }
                markdown_piece(s.subrange(pos, i)) + syntax_piece(s, i, m) + blocks_search(
                    s,
                    syntax_end(m),
                    syntax_end(m),
                )
            },
            None => blocks_search(s, pos, i + 1),
        }
    }
}

/// The blocks a note's body splits into.
pub open spec fn body_blocks(s: Seq<char>) -> Seq<SpecBlock> {
    blocks_search(s, 0, 0)
}

/// A block of a note's body, as text.
#[derive(Debug, Clone, PartialEq, Eq)]
pub enum TextBlock {
    Markdown(String),
    Image { alt: String, href: String },
    Formula(String),
}

impl View for TextBlock {
    type V = SpecBlock;

    open spec fn view(&self) -> SpecBlock {
        match self {
            TextBlock::Markdown(t) => SpecBlock::Markdown(t@),
            TextBlock::Image { alt, href } => SpecBlock::Image { alt: alt@, href: href@ },
            TextBlock::Formula(t) => SpecBlock::Formula(t@),
        }
    }
}

enum SyntaxMatch {
    Formula { body_start: usize, body_end: usize, end: usize },
    Image { bracket: usize, paren: usize, end: usize },
}

spec fn syntax_view(m: SyntaxMatch) -> BlockSyntax {
    match m {
        SyntaxMatch::Formula { body_start, body_end, end } => BlockSyntax::Formula {
            body_start: body_start as int,
            body_end: body_end as int,
            end: end as int,
        },
        SyntaxMatch::Image { bracket, paren, end } => BlockSyntax::Image {
            bracket: bracket as int,
            paren: paren as int,
            end: end as int,
        },
    }
}

fn trailer_end_exec(s: &Vec<char>, k: usize) -> (r: usize)
    requires
        k <= s.len(),
    ensures
        r == trailer_end(s@, k as int),
{
    let mut t = k;
    while t < s.len() && (s[t] == ' ' || s[t] == '\t')
        invariant
            k <= t <= s.len(),
            skip_blanks(s@, k as int) == skip_blanks(s@, t as int),
        decreases s.len() - t,
    {
        t = t + 1;
    }
    if t < s.len() && s[t] == '\n' {
        t + 1
    } else {
        t
    }
}

fn display_close_exec(s: &Vec<char>, from: usize) -> (r: Option<usize>)
    ensures
        r matches Some(e) ==> display_close_from(s@, from as int) == Some(e as int),
        r is None ==> display_close_from(s@, from as int) is None,
{
    let mut e = from;
    let close_line = ['\n', '$', '$'];
    let mark = ['$', '$'];
    assert(close_line@ == display_close_line());
    assert(mark@ == display_mark());
    while e < s.len()
        invariant
            from <= e,
            close_line@ == display_close_line(),
            mark@ == display_mark(),
            display_close_from(s@, from as int) == display_close_from(s@, e as int),
        decreases s.len() - e,
    {
        if occurs_at_exec(s, e, &close_line) || occurs_at_exec(s, e, &mark) {
            return Some(e);
        }
        e = e + 1;
    }
    None
}

fn block_syntax_at_exec(s: &Vec<char>, i: usize) -> (r: Option<SyntaxMatch>)
    requires
        i < s.len(),
    ensures
        r matches Some(m) ==> block_syntax_at(s@, i as int) == Some(syntax_view(m)),
        r is None ==> block_syntax_at(s@, i as int) is None,
{
    if !(i == 0 || s[i - 1] == '\n') {
        return None;
    }
    let latex = ['`', '`', '`', 'l', 'a', 't', 'e', 'x', '\n'];
    let math = ['`', '`', '`', 'm', 'a', 't', 'h', '\n'];
    let close = ['\n', '`', '`', '`'];
    let mark = ['$', '$'];
    assert(latex@ == latex_fence_open());
    assert(math@ == math_fence_open());
    assert(close@ == fence_close());
    assert(mark@ == display_mark());
    let fence_start = if occurs_at_exec(s, i, &latex) {
        Some(i + 9)
    } else if occurs_at_exec(s, i, &math) {
        Some(i + 8)
    } else {
        None
    };
    proof {
        lemma_block_syntax_bounds(s@, i as int);
    }
    match fence_start {
        Some(b) => {
            proof {
                lemma_first_occurrence(s@, fence_close(), b as int);
            }
            match find_from(s, &close, b) {
                Some(e) => {
                    let end = trailer_end_exec(s, e + 4);
                    Some(SyntaxMatch::Formula { body_start: b, body_end: e, end })
                },
                None => None,
            }
        },
        None => {
            if occurs_at_exec(s, i, &mark) {
                let b = if i + 2 < s.len() && s[i + 2] == '\n' { i + 3 } else { i + 2 };
                proof {
                    lemma_display_close(s@, b as int);
                }
                match display_close_exec(s, b) {
                    Some(e) => {
                        let after = if s[e] == '\n' {
                            assert(s@.subrange(e as int, e + 3)[0] == '\n');
                            e + 3
                        } else {
                            e + 2
                        };
                        let end = trailer_end_exec(s, after);
                        Some(SyntaxMatch::Formula { body_start: b, body_end: e, end })
                    },
                    None => None,
                }
            } else {
                proof {
                    lemma_image_syntax_at(s@, i as int);
                }
                match image_syntax_at_exec(s, i) {
                    Some((j, k)) => {
                        let end = trailer_end_exec(s, k + 1);
                        Some(SyntaxMatch::Image { bracket: j, paren: k, end })
                    },
                    None => None,
                }
            }
        },
    }
}

fn push_markdown(blocks: &mut Vec<TextBlock>, s: &Vec<char>, lo: usize, hi: usize)
    requires
        lo <= hi <= s.len(),
    ensures
        final(blocks)@.map_values(|b: TextBlock| b@) == old(blocks)@.map_values(|b: TextBlock| b@)
            + markdown_piece(s@.subrange(lo as int, hi as int)),
{
    let (a, b) = trim_bounds(s, lo, hi);
    if a < b {
        let block = TextBlock::Markdown(string_of(&slice_of(s, a, b)));
        blocks.push(block);
        assert(blocks@.map_values(|b: TextBlock| b@) =~= old(blocks)@.map_values(|b: TextBlock| b@).push(block@));
    } else {
        assert(blocks@.map_values(|b: TextBlock| b@) =~= old(blocks)@.map_values(|b: TextBlock| b@)
            + markdown_piece(s@.subrange(lo as int, hi as int)));
    }
}

/// The alt text of an image block.
fn block_image_alt(alt: Vec<char>, href: &String) -> (r: String)
    ensures
        r@ == image_alt(alt@, href@),
{
    if alt.len() > 0 {
        string_of(&alt)
    } else {
        match file_name_of(href.as_str()) {
            Some(name) => name,
            None => href.clone(),
        }
    }
}

/// The blocks a note's body splits into: display formulas, image lines and
/// the (trimmed, non-blank) markdown between them, in order.
pub fn split_blocks(body: &str) -> (r: Vec<TextBlock>)
    ensures
        r@.map_values(|b: TextBlock| b@) == body_blocks(body@),
{
    let s = chars_of(body);
    let mut r: Vec<TextBlock> = Vec::new();
    let mut pos: usize = 0;
    let mut i: usize = 0;
    while i < s.len()
        invariant
            pos <= i <= s.len(),
            s@ == body@,
            r@.map_values(|b: TextBlock| b@) + blocks_search(s@, pos as int, i as int) == body_blocks(s@),
        decreases s.len() - i,
    {
        proof {
            lemma_block_syntax_bounds(s@, i as int);
        }
        match block_syntax_at_exec(&s, i) {
            Some(m) => {
                let ghost before = r@.map_values(|b: TextBlock| b@);
                push_markdown(&mut r, &s, pos, i);
                let ghost mid = r@.map_values(|b: TextBlock| b@);
                let end = match m {
                    SyntaxMatch::Formula { body_start, body_end, end } => {
                        let (a, b) = trim_bounds(&s, body_start, body_end);
                        if a < b {
                            let block = TextBlock::Formula(string_of(&slice_of(&s, a, b)));
                            r.push(block);
                            assert(r@.map_values(|b: TextBlock| b@) =~= mid.push(block@));
                        } else {
                            assert(r@.map_values(|b: TextBlock| b@) =~= mid);
                        }
                        end
                    },
                    SyntaxMatch::Image { bracket, paren, end } => {
                        let (h0, h1) = trim_bounds(&s, bracket + 2, paren);
                        let href = string_of(&slice_of(&s, h0, h1));
                        let (a0, a1) = trim_bounds(&s, i + 2, bracket);
                        let alt = block_image_alt(slice_of(&s, a0, a1), &href);
                        let block = TextBlock::Image { alt, href };
                        r.push(block);
                        assert(r@.map_values(|b: TextBlock| b@) =~= mid.push(block@));
                        end
                    },
                };
                assert(r@.map_values(|b: TextBlock| b@) =~= before + markdown_piece(
                    s@.subrange(pos as int, i as int),
                ) + syntax_piece(s@, i as int, syntax_view(m)));
                pos = end;
                i = end;
            },
            None => {
                i = i + 1;
            },
        }
    }
    let ghost before = r@.map_values(|b: TextBlock| b@);
    push_markdown(&mut r, &s, pos, s.len());
    r
}

/// A block of a note agrees with the text block it was made from: the same
/// text, and for an image no resolved file when the href is a URL.
pub open spec fn note_block_agrees(b: NoteBlock, t: SpecBlock) -> bool {
    match (b, t) {
        (NoteBlock::Markdown(m), SpecBlock::Markdown(u)) => m@ == u,
        (NoteBlock::Formula(m), SpecBlock::Formula(u)) => m@ == u,
        (NoteBlock::Image { href, alt, resolved }, SpecBlock::Image { alt: a, href: h }) => href@
            == h && alt@ == a && (contains_seq(href@, url_scheme_separator()) ==> resolved is None),
        _ => false,
    }
}

/// The blocks of a note's body, image blocks resolved against the note's path.
pub fn parse_blocks(note_path: &Path, body: &str) -> (r: Vec<NoteBlock>)
    ensures
        r.len() == body_blocks(body@).len(),
        forall|i: int| 0 <= i < r.len() ==> note_block_agrees(#[trigger] r@[i], body_blocks(body@)[i]),
{
    let blocks = split_blocks(body);
    let ghost spec_blocks = body_blocks(body@);
    let mut r: Vec<NoteBlock> = Vec::new();
    let mut i: usize = 0;
    while i < blocks.len()
        invariant
            i <= blocks.len(),
            r.len() == i,
            blocks@.map_values(|b: TextBlock| b@) == spec_blocks,
            forall|q: int| 0 <= q < i ==> note_block_agrees(#[trigger] r@[q], spec_blocks[q]),
        decreases blocks.len() - i,
    {
        assert(spec_blocks[i as int] == blocks@[i as int]@);
        let block = match &blocks[i] {
            TextBlock::Markdown(t) => NoteBlock::Markdown(t.clone()),
            TextBlock::Formula(t) => NoteBlock::Formula(t.clone()),
            TextBlock::Image { alt, href } => {
                let resolved = resolve_link(note_path, href.as_str());
                NoteBlock::Image { href: href.clone(), alt: alt.clone(), resolved }
            },
        };
        r.push(block);
        i = i + 1;
    }
    r
}


/// A block's text has no surrounding whitespace, and markdown and formulas
/// are not empty.
pub open spec fn block_is_trimmed(b: SpecBlock) -> bool {
    match b {
        SpecBlock::Markdown(t) => t.len() > 0 && trim(t) == t,
        SpecBlock::Formula(t) => t.len() > 0 && trim(t) == t,
        SpecBlock::Image { href, .. } => trim(href) == href,
    }
}

proof fn lemma_blocks_search_trimmed(s: Seq<char>, pos: int, i: int)
    requires
        0 <= pos <= s.len(),
        pos <= i || i >= s.len(),
    ensures
        forall|k: int|
            0 <= k < blocks_search(s, pos, i).len() ==> block_is_trimmed(
                #[trigger] blocks_search(s, pos, i)[k],
            ),
    decreases s.len() - i,
{
    if i < 0 || i >= s.len() {
        let t = s.subrange(pos, s.len() as int);
        lemma_trim_idempotent(t);
        assert(blocks_search(s, pos, i) == markdown_piece(t));
    } else {
        match block_syntax_at(s, i) {
            Some(m) => {
                lemma_block_syntax_bounds(s, i);
                assert(blocks_search(s, pos, i) == markdown_piece(s.subrange(pos, i)) + syntax_piece(
                    s,
                    i,
                    m,
                ) + blocks_search(s, syntax_end(m), syntax_end(m)));
                let e = syntax_end(m);
                lemma_blocks_search_trimmed(s, e, e);
                let a = markdown_piece(s.subrange(pos, i));
                let b = syntax_piece(s, i, m);
                let c = blocks_search(s, e, e);
                lemma_trim_idempotent(s.subrange(pos, i));
                match m {
                    BlockSyntax::Formula { body_start, body_end, .. } => {
                        lemma_trim_idempotent(s.subrange(body_start, body_end));
                    },
                    BlockSyntax::Image { bracket, paren, .. } => {
                        lemma_trim_idempotent(s.subrange(bracket + 2, paren));
                    },
                }
                assert forall|k: int| 0 <= k < (a + b + c).len() implies block_is_trimmed(
                    #[trigger] (a + b + c)[k],
                ) by {
                    if k < a.len() {
                        assert((a + b + c)[k] == a[k]);
                    } else if k < a.len() + b.len() {
                        assert((a + b + c)[k] == b[k - a.len()]);
                    } else {
                        assert((a + b + c)[k] == c[k - a.len() - b.len()]);
                    }
                }
            },
            None => {
                lemma_blocks_search_trimmed(s, pos, i + 1);
                assert(blocks_search(s, pos, i) == blocks_search(s, pos, i + 1));
            },
        }
    }
}

/// Every block of a note's body is trimmed: markdown and formulas are never
/// empty nor start or end with whitespace, and image hrefs are trimmed.
pub proof fn lemma_body_blocks_trimmed(s: Seq<char>)
    ensures
        forall|k: int| 0 <= k < body_blocks(s).len() ==> block_is_trimmed(#[trigger] body_blocks(s)[k]),
{
    lemma_blocks_search_trimmed(s, 0, 0);
}

} // verus!
