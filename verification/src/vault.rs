//! A vault of notes: its layout, and how a note is assembled from the text of
//! its file.

use vstd::prelude::*;
use std::path::{Path, PathBuf};
use crate::frontmatter::{normalize_tags, normalized_tags, raw_tags, FrontMatter};
use crate::note::Note;
use crate::parser::{
    body_blocks, extract_images, image_links_from, note_block_agrees, parse_blocks,
    url_scheme_separator,
};
use crate::paths::{
    canonical_path, extension_of, file_name_text, file_stem_of, join_path, owned_path,
    path_extension, path_file_name_text, path_file_stem, path_joined, path_of_buf, path_owned,
    path_stripped, strip_path_prefix,
};
use crate::text::{
    chars_of, contains_seq, lemma_lex_le_total, lemma_lex_le_transitive, lex_le, lex_le_chars,
    lowercase, slice_of, string_of, to_lowercase, trim, trim_bounds,
};

verus! {

#[verifier::external_type_specification]
#[verifier::external_body]
pub struct ExIoError(std::io::Error);

/// A vault on disk: its root and the directory holding the notes.
#[derive(Debug, Clone)]
pub struct Vault {
    pub root: PathBuf,
    pub notes_dir: PathBuf,
}

/// Why a vault could not be loaded.
#[derive(Debug)]
pub enum VaultError {
    Read { path: PathBuf, source: std::io::Error },
    Frontmatter { path: PathBuf, message: String },
    WalkDir(String),
}

/// `AsRef::<Path>::as_ref`. Nothing is claimed of the result.
#[verifier::external_body]
fn path_ref<P: AsRef<Path>>(p: &P) -> &Path {
    p.as_ref()
}

/// The root of a vault: the canonical form of the given path, or the given
/// path itself when the filesystem gives none.
pub open spec fn root_of(given: PathBuf, canonical: Option<PathBuf>) -> PathBuf {
    match canonical {
        Some(c) => c,
        None => given,
    }
}

/// The root of a vault, from the given path and what canonicalizing it gave.
pub fn vault_root(given: PathBuf, canonical: Option<PathBuf>) -> (r: PathBuf)
    ensures
        r == root_of(given, canonical),
{
    match canonical {
        Some(c) => c,
        None => given,
    }
}

impl Vault {
    /// The vault rooted at `root`, made canonical by `vault_root` when the
    /// filesystem can, with its notes in `notes/` under the root. What
    /// `AsRef::as_ref` gives for a generic `P` and what the filesystem answers
    /// are not modelled, so the root is not tied to `root` here.
    pub fn new<P: AsRef<Path>>(root: P) -> (r: Self)
        ensures
            r.notes_dir == path_joined(path_of_buf(&r.root), "notes"@),
    {
        let given = owned_path(path_ref(&root));
        let canonical = canonical_path(&given);
        let root = vault_root(given, canonical);
        let base: &Path = &root;
        let notes_dir = join_path(base, "notes");
        proof {
            reveal_strlit("notes");
        }
        Vault { root, notes_dir }
    }

    /// The note stored at `path` under this vault, from its frontmatter and
    /// the text after it: the title from the frontmatter or else from the file
    /// name, the tags normalized, images and blocks parsed from the trimmed
    /// body, and the path relative to the vault root where it lies under it.
    pub fn build_note(&self, path: &Path, frontmatter: FrontMatter, content: &str) -> (r: Note)
        ensures
            frontmatter.title matches Some(t) ==> r.title@ == t@,
            frontmatter.title is None ==> r.title@ == stem_title(path_file_stem(path)),
            r.path == match path_stripped(path, path_of_buf(&self.root)) {
                Some(rest) => rest,
                None => path_owned(path),
            },
            r.tags.deep_view() == normalized_tags(raw_tags(frontmatter.tags)),
            r.images.len() == image_links_from(trim(content@), 0).len(),
            forall|i: int|
                0 <= i < r.images.len() ==> {
                    &&& (#[trigger] r.images@[i]).alt@ == image_links_from(trim(content@), 0)[i].0
                    &&& r.images@[i].href@ == image_links_from(trim(content@), 0)[i].1
                    &&& contains_seq(r.images@[i].href@, url_scheme_separator())
                        ==> r.images@[i].resolved is None
                },
            r.blocks.len() == body_blocks(trim(content@)).len(),
            forall|i: int|
                0 <= i < r.blocks.len() ==> note_block_agrees(
                    #[trigger] r.blocks@[i],
                    body_blocks(trim(content@))[i],
                ),
    {
        let c = chars_of(content);
        let (a, b) = trim_bounds(&c, 0, c.len());
        assert(c@.subrange(0, c@.len() as int) =~= c@);
        let body = string_of(&slice_of(&c, a, b));
        let title = match frontmatter.title {
            Some(t) => t,
            None => fallback_title(path),
        };
        let tags = normalize_tags(frontmatter.tags);
        let images = extract_images(path, body.as_str());
        let blocks = parse_blocks(path, body.as_str());
        let root: &Path = &self.root;
        let relative = match strip_path_prefix(path, root) {
            Some(rest) => rest,
            None => owned_path(path),
        };
        Note { path: relative, title, tags, blocks, images }
    }
}

/// A title made from a file stem: dashes and underscores become spaces;
/// "Untitled" without a stem.
pub open spec fn stem_title(stem: Option<Seq<char>>) -> Seq<char> {
    match stem {
        Some(s) => s.map_values(|c: char| if c == '-' || c == '_' { ' ' } else { c }),
        None => "Untitled"@,
    }
}

pub fn title_from_stem(stem: Option<String>) -> (r: String)
    ensures
        r@ == stem_title(match stem {
            Some(s) => Some(s@),
            None => None,
        }),
{
    match stem {
        Some(s) => {
            let c = chars_of(s.as_str());
            let mut out: Vec<char> = Vec::new();
            let mut i: usize = 0;
            while i < c.len()
                invariant
                    i <= c.len(),
                    out@ == c@.take(i as int).map_values(|c: char| if c == '-' || c == '_' { ' ' } else { c }),
                decreases c.len() - i,
            {
                let ch = c[i];
                out.push(if ch == '-' || ch == '_' { ' ' } else { ch });
                i = i + 1;
                assert(out@ =~= c@.take(i as int).map_values(|c: char| if c == '-' || c == '_' { ' ' } else { c }));
            }
            assert(c@.take(c.len() as int) =~= c@);
            string_of(&out)
        },
        None => "Untitled".to_owned(),
    }
}

/// The title of a note without one in its frontmatter: its file stem with
/// dashes and underscores as spaces, or "Untitled".
pub fn fallback_title(path: &Path) -> (r: String)
    ensures
        r@ == stem_title(path_file_stem(path)),
{
    let stem = file_stem_of(path);
    let ghost w = match &stem {
        Some(s) => Some(s@),
        None => None,
    };
    let r = title_from_stem(stem);
    assert(r@ == stem_title(w));
    r
}


/// Whether the file at `path` holds a note: its extension is `md`.
pub fn is_note_file(path: &Path) -> (r: bool)
    ensures
        r == (path_extension(path) == Some("md"@)),
{
    match extension_of(path) {
        Some(ext) => {
            let e = chars_of(ext.as_str());
            let md = chars_of("md");
            proof {
                reveal_strlit("md");
            }
            if e.len() != 2 {
                return false;
            }
            let same = e[0] == md[0] && e[1] == md[1];
            proof {
                if same {
                    assert(e@ =~= md@);
                }
            }
            same
        },
        None => false,
    }
}

/// `x` inserted after the last entry whose key is not greater than its own:
/// one step of a stable sort by key.
pub open spec fn insert_keyed(sorted: Seq<(Note, Seq<char>)>, x: (Note, Seq<char>)) -> Seq<
    (Note, Seq<char>),
>
    decreases sorted.len(),
{
    if sorted.len() == 0 {
        seq![x]
    } else if lex_le(sorted.last().1, x.1) {
        sorted.push(x)
    } else {
        insert_keyed(sorted.drop_last(), x).push(sorted.last())
    }
}

/// A stable sort by key.
pub open spec fn sort_keyed(ps: Seq<(Note, Seq<char>)>) -> Seq<(Note, Seq<char>)>
    decreases ps.len(),
{
    if ps.len() == 0 {
        seq![]
    } else {
        insert_keyed(sort_keyed(ps.drop_last()), ps.last())
    }
}

/// Each note with the lowercase form of its file name.
pub open spec fn keyed_notes(notes: Seq<Note>, names: Seq<Seq<char>>) -> Seq<(Note, Seq<char>)> {
    Seq::new(notes.len(), |i: int| (notes[i], lowercase(names[i])))
}

/// The notes sorted by the lowercase form of their file names, notes with
/// equal names keeping their order.
pub open spec fn ordered_notes(notes: Seq<Note>, names: Seq<Seq<char>>) -> Seq<Note> {
    sort_keyed(keyed_notes(notes, names)).map_values(|p: (Note, Seq<char>)| p.0)
}

proof fn lemma_insert_keyed_at(s: Seq<(Note, Seq<char>)>, x: (Note, Seq<char>), p: int)
    requires
        0 <= p <= s.len(),
        forall|q: int| p <= q < s.len() ==> !lex_le((#[trigger] s[q]).1, x.1),
    ensures
        insert_keyed(s, x) == insert_keyed(s.take(p), x) + s.skip(p),
    decreases s.len(),
{
    if p < s.len() {
        lemma_insert_keyed_at(s.drop_last(), x, p);
        assert(s.drop_last().take(p) =~= s.take(p));
        assert(s.drop_last().skip(p).push(s.last()) =~= s.skip(p));
        assert((insert_keyed(s.take(p), x) + s.drop_last().skip(p)).push(s.last())
            =~= insert_keyed(s.take(p), x) + s.skip(p));
    } else {
        assert(s.take(p) =~= s);
        assert(insert_keyed(s, x) + s.skip(p) =~= insert_keyed(s, x));
    }
}

/// The file name of a note's path as text, empty when it has none or it is
/// not valid UTF-8.
pub open spec fn note_file_name(note: Note) -> Seq<char> {
    match path_file_name_text(path_of_buf(&note.path)) {
        Some(n) => n,
        None => seq![],
    }
}

/// The notes in the order the list shows them: by the lowercase form of
/// their file names, notes with equal names keeping their order.
pub fn order_notes_by_file_name(notes: Vec<Note>) -> (r: Vec<Note>)
    ensures
        r@ == ordered_notes(notes@, file_names(notes@)),
{
    let mut names: Vec<String> = Vec::new();
    let mut i: usize = 0;
    while i < notes.len()
        invariant
            i <= notes.len(),
            names.len() == i,
            forall|q: int| 0 <= q < i ==> (#[trigger] names@[q])@ == note_file_name(notes@[q]),
        decreases notes.len() - i,
    {
        let path: &Path = &notes[i].path;
        let name = match file_name_text(path) {
            Some(n) => n,
            None => String::new(),
        };
        names.push(name);
        i = i + 1;
    }
    assert(names.deep_view() =~= file_names(notes@)) by {
        assert forall|q: int| 0 <= q < names@.len() implies names.deep_view()[q] == file_names(
            notes@,
        )[q] by {
            assert(names.deep_view()[q] == names@[q]@);
        }
    }
    order_notes(notes, &names)
}

/// The file names of the notes, as `note_file_name` gives them.
pub open spec fn file_names(notes: Seq<Note>) -> Seq<Seq<char>> {
    Seq::new(notes.len(), |i: int| note_file_name(notes[i]))
}

/// The notes in the order the list shows them: by the lowercase form of
/// their file names (`names[i]` is that of `notes[i]`), notes with equal
/// names keeping their order.
pub fn order_notes(notes: Vec<Note>, names: &Vec<String>) -> (r: Vec<Note>)
    requires
        names.len() == notes.len(),
    ensures
        r@ == ordered_notes(notes@, names.deep_view()),
{
    let ghost all = keyed_notes(notes@, names.deep_view());
    let mut rest = notes;
    let mut sorted: Vec<Note> = Vec::new();
    let mut keys: Vec<Vec<char>> = Vec::new();
    let mut i: usize = 0;
    let n = rest.len();
    while rest.len() > 0
        invariant
            i + rest.len() == n == names.len(),
            all.len() == n,
            forall|q: int| 0 <= q < rest.len() ==> (#[trigger] rest@[q]) == all[i + q].0,
            forall|q: int| 0 <= q < n ==> (#[trigger] all[q]).1 == lowercase(names.deep_view()[q]),
            sorted.len() == keys.len(),
            Seq::new(sorted.len() as nat, |q: int| (sorted@[q], keys@[q]@)) == sort_keyed(
                all.take(i as int),
            ),
        decreases rest.len(),
    {
        let ghost before = Seq::new(sorted.len() as nat, |q: int| (sorted@[q], keys@[q]@));
        assert(all.take(i + 1).drop_last() =~= all.take(i as int));
        assert(names.deep_view()[i as int] == names@[i as int]@);
        let key = chars_of(to_lowercase(names[i].as_str()).as_str());
        let note = rest.remove(0);
        let ghost x = all[i as int];
        assert(x == (note, key@));
        let mut p = sorted.len();
        while p > 0 && !lex_le_chars(&keys[p - 1], &key)
            invariant
                p <= sorted.len() == keys.len(),
                before == Seq::new(sorted.len() as nat, |q: int| (sorted@[q], keys@[q]@)),
                forall|q: int| p <= q < before.len() ==> !lex_le((#[trigger] before[q]).1, key@),
            decreases p,
        {
            p = p - 1;
        }
        proof {
            lemma_insert_keyed_at(before, x, p as int);
            if p > 0 {
                assert(before.take(p as int).drop_last() =~= before.take(p - 1));
                assert(before.take(p as int).last() == before[p - 1]);
                assert(insert_keyed(before.take(p as int), x) =~= before.take(p as int).push(x));
            } else {
                assert(before.take(0) =~= Seq::<(Note, Seq<char>)>::empty());
            }
        }
        sorted.insert(p, note);
        keys.insert(p, key);
        i = i + 1;
        assert(Seq::new(sorted.len() as nat, |q: int| (sorted@[q], keys@[q]@)) =~= before.take(
            p as int,
        ).push(x) + before.skip(p as int));
    }
    assert(all.take(n as int) =~= all);
    let ghost result = Seq::new(sorted.len() as nat, |q: int| (sorted@[q], keys@[q]@));
    assert(sorted@ =~= result.map_values(|p: (Note, Seq<char>)| p.0));
    sorted
}


/// Entries in nondecreasing order of their keys.
pub open spec fn keys_sorted(ps: Seq<(Note, Seq<char>)>) -> bool {
    forall|i: int, j: int| #![trigger ps[i], ps[j]] 0 <= i < j < ps.len() ==> lex_le(ps[i].1, ps[j].1)
}

proof fn lemma_insert_keyed(s: Seq<(Note, Seq<char>)>, x: (Note, Seq<char>))
    ensures
        insert_keyed(s, x).len() == s.len() + 1,
        forall|y: (Note, Seq<char>)| #[trigger] insert_keyed(s, x).contains(y) <==> (s.contains(y) || y == x),
        keys_sorted(s) ==> keys_sorted(insert_keyed(s, x)),
    decreases s.len(),
{
    let r = insert_keyed(s, x);
    if s.len() == 0 {
        assert forall|y: (Note, Seq<char>)| #[trigger] r.contains(y) <==> (s.contains(y) || y == x) by {
            if r.contains(y) || y == x {
                assert(r[0] == x);
            }
        }
    } else if lex_le(s.last().1, x.1) {
        assert forall|y: (Note, Seq<char>)| #[trigger] r.contains(y) <==> (s.contains(y) || y == x) by {
            if r.contains(y) {
                let k = choose|k: int| 0 <= k < r.len() && r[k] == y;
                if k < s.len() {
                    assert(s[k] == y);
                }
            }
            if s.contains(y) {
                let k = choose|k: int| 0 <= k < s.len() && s[k] == y;
                assert(r[k] == y);
            }
            if y == x {
                assert(r[s.len() as int] == y);
            }
        }
        if keys_sorted(s) {
            assert forall|i: int, j: int| 0 <= i < j < r.len() implies lex_le(
                (#[trigger] r[i]).1,
                (#[trigger] r[j]).1,
            ) by {
                assert(r[i] == s[i]);
                if j < s.len() {
                    assert(r[j] == s[j]);
                } else if i < s.len() - 1 {
                    assert(s.last() == s[s.len() - 1]);
                    lemma_lex_le_transitive(s[i].1, s.last().1, x.1);
                }
            }
        }
    } else {
        let d = s.drop_last();
        let t = insert_keyed(d, x);
        lemma_insert_keyed(d, x);
        assert forall|y: (Note, Seq<char>)| #[trigger] r.contains(y) <==> (s.contains(y) || y == x) by {
            if r.contains(y) {
                let k = choose|k: int| 0 <= k < r.len() && r[k] == y;
                if k < t.len() {
                    assert(t[k] == y);
                    assert(t.contains(y));
                    if d.contains(y) {
                        let m = choose|m: int| 0 <= m < d.len() && d[m] == y;
                        assert(s[m] == y);
                    }
                } else {
                    assert(s[s.len() - 1] == y);
                }
            }
            if s.contains(y) {
                let k = choose|k: int| 0 <= k < s.len() && s[k] == y;
                if k < s.len() - 1 {
                    assert(d[k] == y);
                    assert(t.contains(y));
                    let m = choose|m: int| 0 <= m < t.len() && t[m] == y;
                    assert(r[m] == y);
                } else {
                    assert(r[t.len() as int] == y);
                }
            }
            if y == x {
                assert(t.contains(y));
                let m = choose|m: int| 0 <= m < t.len() && t[m] == y;
                assert(r[m] == y);
            }
        }
        if keys_sorted(s) {
            assert(keys_sorted(d)) by {
                assert forall|i: int, j: int| 0 <= i < j < d.len() implies lex_le(
                    (#[trigger] d[i]).1,
                    (#[trigger] d[j]).1,
                ) by {
                    assert(d[i] == s[i] && d[j] == s[j]);
                }
            }
            assert forall|i: int, j: int| 0 <= i < j < r.len() implies lex_le(
                (#[trigger] r[i]).1,
                (#[trigger] r[j]).1,
            ) by {
                if j < t.len() {
                    assert(r[i] == t[i] && r[j] == t[j]);
                } else {
                    assert(r[i] == t[i]);
                    assert(t.contains(t[i]));
                    if d.contains(t[i]) {
                        let m = choose|m: int| 0 <= m < d.len() && d[m] == t[i];
                        assert(s[m] == t[i]);
                        assert(s[s.len() - 1] == s.last());
                    } else {
                        lemma_lex_le_total(s.last().1, x.1);
                    }
                }
            }
        }
    }
}

proof fn lemma_sort_keyed(ps: Seq<(Note, Seq<char>)>)
    ensures
        sort_keyed(ps).len() == ps.len(),
        forall|y: (Note, Seq<char>)| #[trigger] sort_keyed(ps).contains(y) <==> ps.contains(y),
        keys_sorted(sort_keyed(ps)),
    decreases ps.len(),
{
    if ps.len() > 0 {
        let d = ps.drop_last();
        lemma_sort_keyed(d);
        lemma_insert_keyed(sort_keyed(d), ps.last());
        assert forall|y: (Note, Seq<char>)| #[trigger] sort_keyed(ps).contains(y) <==> ps.contains(y) by {
            if d.contains(y) {
                let m = choose|m: int| 0 <= m < d.len() && d[m] == y;
                assert(ps[m] == y);
            }
            if ps.contains(y) {
                let m = choose|m: int| 0 <= m < ps.len() && ps[m] == y;
                if m < d.len() {
                    assert(d[m] == y);
                }
            }
            if y == ps.last() {
                assert(ps[ps.len() - 1] == y);
            }
        }
    }
}

/// The note list is ordered by the lowercase form of the file names, and it
/// holds each note with its key, nothing else.
pub proof fn lemma_ordered_notes_sorted(notes: Seq<Note>, names: Seq<Seq<char>>)
    requires
        names.len() == notes.len(),
    ensures
        sort_keyed(keyed_notes(notes, names)).len() == notes.len(),
        keys_sorted(sort_keyed(keyed_notes(notes, names))),
        forall|y: (Note, Seq<char>)|
            #[trigger] sort_keyed(keyed_notes(notes, names)).contains(y) <==> keyed_notes(
                notes,
                names,
            ).contains(y),
{
    lemma_sort_keyed(keyed_notes(notes, names));
}

} // verus!
