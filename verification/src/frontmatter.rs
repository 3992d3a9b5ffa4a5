//! Note frontmatter and the normalization of its tags.

use vstd::prelude::*;
use crate::text::{
    char_views, chars_of, lemma_lex_le_total, lemma_lex_le_transitive, lemma_trim_idempotent,
    lex_le, lex_le_chars, lowercase, slice_of, split_chars, split_on, string_of, to_lowercase,
    trim, trim_bounds,
};

verus! {

/// The frontmatter fields a note may carry.
#[derive(Debug, Clone, Default)]
pub struct FrontMatter {
    pub title: Option<String>,
    pub tags: Tags,
}

/// Tags, written either as a list or as one comma-separated string.
#[derive(Debug, Clone, Default)]
pub enum Tags {
    List(Vec<String>),
    Csv(String),
    #[default]
    Absent,
}

/// The tags as written, before any normalization.
pub open spec fn raw_tags(tags: Tags) -> Seq<Seq<char>> {
    match tags {
        Tags::List(v) => v.deep_view(),
        Tags::Csv(s) => split_on(s@, ','),
        Tags::Absent => seq![],
    }
}

/// Every tag trimmed, and the empty ones dropped.
pub open spec fn cleaned_tags(ts: Seq<Seq<char>>) -> Seq<Seq<char>>
    decreases ts.len(),
{
    if ts.len() == 0 {
        seq![]
    } else {
        let p = cleaned_tags(ts.drop_last());
        let t = trim(ts.last());
        if t.len() == 0 {
            p
        } else {
            p.push(t)
        }
    }
}

/// Some tag of `ts` has the lowercase form `key`.
pub open spec fn has_lower_key(ts: Seq<Seq<char>>, key: Seq<char>) -> bool {
    exists|i: int| 0 <= i < ts.len() && lowercase(#[trigger] ts[i]) == key
}

/// The first tag of each lowercase form, in order of first appearance.
pub open spec fn dedup_by_lower(ts: Seq<Seq<char>>) -> Seq<Seq<char>>
    decreases ts.len(),
{
    if ts.len() == 0 {
        seq![]
    } else {
        let p = dedup_by_lower(ts.drop_last());
        if has_lower_key(p, lowercase(ts.last())) {
            p
        } else {
            p.push(ts.last())
        }
    }
}

/// `x` inserted into `sorted` after the last tag whose lowercase form is not
/// greater than that of `x`: one step of a stable sort by lowercase form.
pub open spec fn insert_by_lower(sorted: Seq<Seq<char>>, x: Seq<char>) -> Seq<Seq<char>>
    decreases sorted.len(),
{
    if sorted.len() == 0 {
        seq![x]
    } else if lex_le(lowercase(sorted.last()), lowercase(x)) {
        sorted.push(x)
    } else {
        insert_by_lower(sorted.drop_last(), x).push(sorted.last())
    }
}

/// A stable sort by lowercase form (`sort_by_key(|t| t.to_lowercase())`).
pub open spec fn sort_by_lower(ts: Seq<Seq<char>>) -> Seq<Seq<char>>
    decreases ts.len(),
{
    if ts.len() == 0 {
        seq![]
    } else {
        insert_by_lower(sort_by_lower(ts.drop_last()), ts.last())
    }
}

/// What `normalize_tags` returns for the tags as written.
pub open spec fn normalized_tags(raw: Seq<Seq<char>>) -> Seq<Seq<char>> {
    sort_by_lower(dedup_by_lower(cleaned_tags(raw)))
}

/// The tags as written, as character vectors.
fn raw_tag_chars(tags: Tags) -> (r: Vec<Vec<char>>)
    ensures
        char_views(r@) == raw_tags(tags),
{
    match tags {
        Tags::List(v) => {
            let mut r: Vec<Vec<char>> = Vec::new();
            let mut i: usize = 0;
            while i < v.len()
                invariant
                    i <= v.len(),
                    char_views(r@) == v.deep_view().take(i as int),
                decreases v.len() - i,
            {
                let ghost old_r = r@;
                assert(v.deep_view().take(i as int).len() == i);
                assert(char_views(r@).len() == r@.len());
                r.push(chars_of(v[i].as_str()));
                i = i + 1;
                assert forall|j: int| 0 <= j < i implies char_views(r@)[j] == v.deep_view().take(
                    i as int,
                )[j] by {
                    assert(v.deep_view()[j] == v@[j]@);
                    if j < i - 1 {
                        assert(r@[j] == old_r[j]);
                    }
                }
                assert(char_views(r@) =~= v.deep_view().take(i as int));
            }
            assert(v.deep_view().take(v.len() as int) =~= v.deep_view());
            r
        },
        Tags::Csv(s) => split_chars(&chars_of(s.as_str()), ','),
        Tags::Absent => Vec::new(),
    }
}

/// Whether two character vectors are equal.
fn same_chars(a: &Vec<char>, b: &Vec<char>) -> (r: bool)
    ensures
        r == (a@ == b@),
{
    if a.len() != b.len() {
        return false;
    }
    let mut i: usize = 0;
    while i < a.len()
        invariant
            i <= a.len() == b.len(),
            a@.take(i as int) == b@.take(i as int),
        decreases a.len() - i,
    {
        if a[i] != b[i] {
            assert(a@[i as int] != b@[i as int]);
            return false;
        }
        i = i + 1;
        assert(a@.take(i as int) =~= b@.take(i as int));
    }
    assert(a@ =~= a@.take(i as int));
    assert(b@ =~= b@.take(i as int));
    true
}

/// The lowercase form of a character vector.
fn lower_chars(t: &Vec<char>) -> (r: Vec<char>)
    ensures
        r@ == lowercase(t@),
{
    let s = string_of(t);
    let l = to_lowercase(s.as_str());
    chars_of(l.as_str())
}

proof fn lemma_insert_position(s: Seq<Seq<char>>, x: Seq<char>, p: int)
    requires
        0 <= p <= s.len(),
        forall|q: int| p <= q < s.len() ==> !lex_le(lowercase(#[trigger] s[q]), lowercase(x)),
    ensures
        insert_by_lower(s, x) == insert_by_lower(s.take(p), x) + s.skip(p),
    decreases s.len(),
{
    if p < s.len() {
        lemma_insert_position(s.drop_last(), x, p);
        assert(s.drop_last().take(p) =~= s.take(p));
        assert(s.drop_last().skip(p).push(s.last()) =~= s.skip(p));
        assert(insert_by_lower(s, x) == insert_by_lower(s.drop_last(), x).push(s.last()));
        assert((insert_by_lower(s.take(p), x) + s.drop_last().skip(p)).push(s.last())
            =~= insert_by_lower(s.take(p), x) + s.skip(p));
    } else {
        assert(s.take(p) =~= s);
        assert(s.skip(p) =~= Seq::<Seq<char>>::empty());
        assert(insert_by_lower(s, x) + s.skip(p) =~= insert_by_lower(s, x));
    }
}

/// Tags trimmed, empty ones dropped, repeats ignoring case dropped (the first
/// spelling kept), and the rest sorted by their lowercase form.
pub fn normalize_tags(tags: Tags) -> (r: Vec<String>)
    ensures
        r.deep_view() == normalized_tags(raw_tags(tags)),
{
    let raw = raw_tag_chars(tags);
    // Trim, dropping what becomes empty.
    let mut cleaned: Vec<Vec<char>> = Vec::new();
    let mut i: usize = 0;
    while i < raw.len()
        invariant
            i <= raw.len(),
            char_views(cleaned@) == cleaned_tags(char_views(raw@).take(i as int)),
        decreases raw.len() - i,
    {
        assert(char_views(raw@).take(i + 1).drop_last() =~= char_views(raw@).take(i as int));
        let (a, b) = trim_bounds(&raw[i], 0, raw[i].len());
        assert(raw[i as int]@.subrange(0, raw[i as int]@.len() as int) =~= raw[i as int]@);
        if a < b {
            cleaned.push(slice_of(&raw[i], a, b));
        }
        i = i + 1;
        assert(char_views(cleaned@) =~= cleaned_tags(char_views(raw@).take(i as int)));
    }
    assert(char_views(raw@).take(raw.len() as int) =~= char_views(raw@));
    // Keep the first spelling of each lowercase form.
    let mut kept: Vec<Vec<char>> = Vec::new();
    let mut keys: Vec<Vec<char>> = Vec::new();
    let mut i: usize = 0;
    while i < cleaned.len()
        invariant
            i <= cleaned.len(),
            char_views(kept@) == dedup_by_lower(char_views(cleaned@).take(i as int)),
            keys.len() == kept.len(),
            forall|j: int| 0 <= j < keys.len() ==> (#[trigger] keys@[j])@ == lowercase(kept@[j]@),
        decreases cleaned.len() - i,
    {
        let ghost prefix = char_views(cleaned@).take(i as int);
        assert(char_views(cleaned@).take(i + 1).drop_last() =~= prefix);
        let key = lower_chars(&cleaned[i]);
        let mut seen = false;
        let mut j: usize = 0;
        while j < keys.len()
            invariant
                j <= keys.len() == kept.len(),
                forall|q: int| 0 <= q < keys.len() ==> (#[trigger] keys@[q])@ == lowercase(kept@[q]@),
                seen == exists|q: int| 0 <= q < j && lowercase(#[trigger] char_views(kept@)[q]) == key@,
            decreases keys.len() - j,
        {
            assert(char_views(kept@)[j as int] == kept@[j as int]@);
            if same_chars(&keys[j], &key) {
                seen = true;
            }
            j = j + 1;
        }
        if !seen {
            let t = cleaned[i].clone();
            kept.push(t);
            keys.push(key);
            assert(char_views(kept@) =~= dedup_by_lower(prefix).push(char_views(cleaned@)[i as int]));
        }
        i = i + 1;
    }
    assert(char_views(cleaned@).take(cleaned.len() as int) =~= char_views(cleaned@));
    // Sort by lowercase form, by insertion.
    let mut sorted: Vec<Vec<char>> = Vec::new();
    let mut sorted_keys: Vec<Vec<char>> = Vec::new();
    let mut i: usize = 0;
    while i < kept.len()
        invariant
            i <= kept.len() == keys.len(),
            forall|j: int| 0 <= j < keys.len() ==> (#[trigger] keys@[j])@ == lowercase(kept@[j]@),
            char_views(sorted@) == sort_by_lower(char_views(kept@).take(i as int)),
            sorted_keys.len() == sorted.len(),
            forall|j: int| 0 <= j < sorted_keys.len() ==> (#[trigger] sorted_keys@[j])@ == lowercase(sorted@[j]@),
        decreases kept.len() - i,
    {
        let ghost before = char_views(sorted@);
        assert(char_views(kept@).take(i + 1).drop_last() =~= char_views(kept@).take(i as int));
        let ghost x = kept@[i as int]@;
        let mut p = sorted.len();
        while p > 0 && !lex_le_chars(&sorted_keys[p - 1], &keys[i])
            invariant
                p <= sorted.len() == sorted_keys.len(),
                i < keys.len(),
                before == char_views(sorted@),
                keys@[i as int]@ == lowercase(x),
                forall|j: int| 0 <= j < sorted_keys.len() ==> (#[trigger] sorted_keys@[j])@ == lowercase(sorted@[j]@),
                forall|q: int| p <= q < before.len() ==> !lex_le(lowercase(#[trigger] before[q]), lowercase(x)),
            decreases p,
        {
            assert(before[p - 1] == sorted@[p - 1]@);
            p = p - 1;
        }
        proof {
            lemma_insert_position(before, x, p as int);
            if p > 0 {
                assert(before[p - 1] == sorted@[p - 1]@);
                assert(before.take(p as int).drop_last() =~= before.take(p - 1));
                assert(before.take(p as int).last() == before[p - 1]);
            }
        }
        let t = kept[i].clone();
        let k = keys[i].clone();
        let ghost old_sorted = sorted@;
        let ghost old_keys = sorted_keys@;
        sorted.insert(p, t);
        sorted_keys.insert(p, k);
        assert(char_views(sorted@) =~= before.take(p as int).push(x) + before.skip(p as int));
        assert(insert_by_lower(before.take(p as int), x) =~= before.take(p as int).push(x));
        assert forall|j: int| 0 <= j < sorted_keys.len() implies (#[trigger] sorted_keys@[j])@ == lowercase(sorted@[j]@) by {
            if j < p {
                assert(sorted_keys@[j] == old_keys[j] && sorted@[j] == old_sorted[j]);
            } else if j == p {
            } else {
                assert(sorted_keys@[j] == old_keys[j - 1] && sorted@[j] == old_sorted[j - 1]);
            }
        }
        i = i + 1;
    }
    assert(char_views(kept@).take(kept.len() as int) =~= char_views(kept@));
    let mut r: Vec<String> = Vec::new();
    let mut i: usize = 0;
    while i < sorted.len()
        invariant
            i <= sorted.len(),
            r.deep_view() == char_views(sorted@).take(i as int),
        decreases sorted.len() - i,
    {
        let ghost old_r = r@;
        assert(char_views(sorted@).len() == sorted@.len());
        assert(char_views(sorted@).take(i as int).len() == i);
        assert(r.deep_view().len() == i);
        r.push(string_of(&sorted[i]));
        i = i + 1;
        assert forall|j: int| 0 <= j < i implies r.deep_view()[j] == char_views(sorted@).take(
            i as int,
        )[j] by {
            assert(r.deep_view()[j] == r@[j]@);
            if j < i - 1 {
                assert(r@[j] == old_r[j]);
            }
        }
        assert(r.deep_view() =~= char_views(sorted@).take(i as int));
    }
    assert(char_views(sorted@).take(sorted.len() as int) =~= char_views(sorted@));
    r
}


/// Ordered by lowercase form, each tag's not greater than any later one's.
pub open spec fn sorted_by_lower(ts: Seq<Seq<char>>) -> bool {
    forall|i: int, j: int|
        #![trigger ts[i], ts[j]]
        0 <= i < j < ts.len() ==> lex_le(lowercase(ts[i]), lowercase(ts[j]))
}

/// No two tags share a lowercase form.
pub open spec fn distinct_by_lower(ts: Seq<Seq<char>>) -> bool {
    forall|i: int, j: int|
        #![trigger ts[i], ts[j]]
        0 <= i < j < ts.len() ==> lowercase(ts[i]) != lowercase(ts[j])
}

proof fn lemma_insert_by_lower(s: Seq<Seq<char>>, x: Seq<char>)
    ensures
        insert_by_lower(s, x).len() == s.len() + 1,
        forall|y: Seq<char>| #[trigger]
            insert_by_lower(s, x).contains(y) <==> (s.contains(y) || y == x),
        sorted_by_lower(s) ==> sorted_by_lower(insert_by_lower(s, x)),
        distinct_by_lower(s) && !has_lower_key(s, lowercase(x)) ==> distinct_by_lower(
            insert_by_lower(s, x),
        ),
    decreases s.len(),
{
    let r = insert_by_lower(s, x);
    if s.len() == 0 {
        assert forall|y: Seq<char>| #[trigger] r.contains(y) <==> (s.contains(y) || y == x) by {
            if r.contains(y) {
                assert(r[0] == y);
            }
            if y == x {
                assert(r[0] == y);
            }
        }
    } else if lex_le(lowercase(s.last()), lowercase(x)) {
        assert(r == s.push(x));
        assert forall|y: Seq<char>| #[trigger] r.contains(y) <==> (s.contains(y) || y == x) by {
            if r.contains(y) {
                let k = choose|k: int| 0 <= k < r.len() && r[k] == y;
                if k < s.len() {
                    assert(s[k] == y);
                }
            }
            if s.contains(y) {
                let k = choose|k: int| 0 <= k < s.len() && s[k] == y;
                assert(r[k] == y);
            }
            if y == x {
                assert(r[s.len() as int] == y);
            }
        }
        if sorted_by_lower(s) {
            assert forall|i: int, j: int| 0 <= i < j < r.len() implies lex_le(
                lowercase(#[trigger] r[i]),
                lowercase(#[trigger] r[j]),
            ) by {
                assert(r[i] == s[i]);
                if j < s.len() {
                    assert(r[j] == s[j]);
                } else if i < s.len() - 1 {
                    assert(s.last() == s[s.len() - 1]);
                    lemma_lex_le_transitive(
                        lowercase(s[i]),
                        lowercase(s.last()),
                        lowercase(x),
                    );
                }
            }
        }
        if distinct_by_lower(s) && !has_lower_key(s, lowercase(x)) {
            assert forall|i: int, j: int| 0 <= i < j < r.len() implies lowercase(#[trigger] r[i])
                != lowercase(#[trigger] r[j]) by {
                assert(r[i] == s[i]);
                if j < s.len() {
                    assert(r[j] == s[j]);
                } else {
                    assert(lowercase(s[i]) != lowercase(x));
                }
            }
        }
    } else {
        let d = s.drop_last();
        let t = insert_by_lower(d, x);
        lemma_insert_by_lower(d, x);
        assert(r == t.push(s.last()));
        assert forall|y: Seq<char>| #[trigger] r.contains(y) <==> (s.contains(y) || y == x) by {
            if r.contains(y) {
                let k = choose|k: int| 0 <= k < r.len() && r[k] == y;
                if k < t.len() {
                    assert(t[k] == y);
                    assert(t.contains(y));
                    if d.contains(y) {
                        let m = choose|m: int| 0 <= m < d.len() && d[m] == y;
                        assert(s[m] == y);
                    }
                } else {
                    assert(s[s.len() - 1] == y);
                }
            }
            if s.contains(y) {
                let k = choose|k: int| 0 <= k < s.len() && s[k] == y;
                if k < s.len() - 1 {
                    assert(d[k] == y);
                    assert(d.contains(y));
                    assert(t.contains(y));
                    let m = choose|m: int| 0 <= m < t.len() && t[m] == y;
                    assert(r[m] == y);
                } else {
                    assert(r[t.len() as int] == y);
                }
            }
            if y == x {
                assert(t.contains(y));
                let m = choose|m: int| 0 <= m < t.len() && t[m] == y;
                assert(r[m] == y);
            }
        }
        if sorted_by_lower(s) {
            assert(sorted_by_lower(d)) by {
                assert forall|i: int, j: int| 0 <= i < j < d.len() implies lex_le(
                    lowercase(#[trigger] d[i]),
                    lowercase(#[trigger] d[j]),
                ) by {
                    assert(d[i] == s[i] && d[j] == s[j]);
                }
            }
            assert forall|i: int, j: int| 0 <= i < j < r.len() implies lex_le(
                lowercase(#[trigger] r[i]),
                lowercase(#[trigger] r[j]),
            ) by {
                if j < t.len() {
                    assert(r[i] == t[i] && r[j] == t[j]);
                } else {
                    assert(r[i] == t[i]);
                    assert(r[j] == s.last());
                    assert(t.contains(t[i]));
                    if d.contains(t[i]) {
                        let m = choose|m: int| 0 <= m < d.len() && d[m] == t[i];
                        assert(s[m] == t[i]);
                        assert(s[s.len() - 1] == s.last());
                    } else {
                        assert(t[i] == x);
                        lemma_lex_le_total(lowercase(s.last()), lowercase(x));
                    }
                }
            }
        }
        if distinct_by_lower(s) && !has_lower_key(s, lowercase(x)) {
            assert(distinct_by_lower(d)) by {
                assert forall|i: int, j: int| 0 <= i < j < d.len() implies lowercase(
                    #[trigger] d[i],
                ) != lowercase(#[trigger] d[j]) by {
                    assert(d[i] == s[i] && d[j] == s[j]);
                }
            }
            assert(!has_lower_key(d, lowercase(x))) by {
                if has_lower_key(d, lowercase(x)) {
                    let m = choose|m: int| 0 <= m < d.len() && lowercase(#[trigger] d[m]) == lowercase(x);
                    assert(s[m] == d[m]);
                }
            }
            assert forall|i: int, j: int| 0 <= i < j < r.len() implies lowercase(#[trigger] r[i])
                != lowercase(#[trigger] r[j]) by {
                if j < t.len() {
                    assert(r[i] == t[i] && r[j] == t[j]);
                } else {
                    assert(r[i] == t[i]);
                    assert(r[j] == s.last());
                    assert(t.contains(t[i]));
                    assert(s[s.len() - 1] == s.last());
                    if d.contains(t[i]) {
                        let m = choose|m: int| 0 <= m < d.len() && d[m] == t[i];
                        assert(s[m] == t[i]);
                    } else {
                        assert(t[i] == x);
                    }
                }
            }
        }
    }
}

proof fn lemma_sort_by_lower(ts: Seq<Seq<char>>)
    ensures
        sort_by_lower(ts).len() == ts.len(),
        forall|y: Seq<char>| #[trigger] sort_by_lower(ts).contains(y) <==> ts.contains(y),
        sorted_by_lower(sort_by_lower(ts)),
        distinct_by_lower(ts) ==> distinct_by_lower(sort_by_lower(ts)),
    decreases ts.len(),
{
    if ts.len() > 0 {
        let d = ts.drop_last();
        let p = sort_by_lower(d);
        lemma_sort_by_lower(d);
        lemma_insert_by_lower(p, ts.last());
        assert forall|y: Seq<char>| #[trigger] sort_by_lower(ts).contains(y) <==> ts.contains(y) by {
            if d.contains(y) {
                let m = choose|m: int| 0 <= m < d.len() && d[m] == y;
                assert(ts[m] == y);
            }
            if ts.contains(y) {
                let m = choose|m: int| 0 <= m < ts.len() && ts[m] == y;
                if m < d.len() {
                    assert(d[m] == y);
                }
            }
            if y == ts.last() {
                assert(ts[ts.len() - 1] == y);
            }
        }
        if distinct_by_lower(ts) {
            assert(distinct_by_lower(d)) by {
                assert forall|i: int, j: int| 0 <= i < j < d.len() implies lowercase(
                    #[trigger] d[i],
                ) != lowercase(#[trigger] d[j]) by {
                    assert(d[i] == ts[i] && d[j] == ts[j]);
                }
            }
            assert(!has_lower_key(p, lowercase(ts.last()))) by {
                if has_lower_key(p, lowercase(ts.last())) {
                    let m = choose|m: int| 0 <= m < p.len() && lowercase(#[trigger] p[m]) == lowercase(ts.last());
                    assert(p.contains(p[m]));
                    let k = choose|k: int| 0 <= k < d.len() && d[k] == p[m];
                    assert(ts[k] == d[k]);
                    assert(ts[ts.len() - 1] == ts.last());
                }
            }
        }
    }
}

proof fn lemma_dedup_by_lower(ts: Seq<Seq<char>>)
    ensures
        forall|y: Seq<char>| #[trigger] dedup_by_lower(ts).contains(y) ==> ts.contains(y),
        distinct_by_lower(dedup_by_lower(ts)),
        forall|k: int| 0 <= k < ts.len() ==> has_lower_key(dedup_by_lower(ts), lowercase(#[trigger] ts[k])),
    decreases ts.len(),
{
    if ts.len() > 0 {
        let d = ts.drop_last();
        let p = dedup_by_lower(d);
        lemma_dedup_by_lower(d);
        let r = dedup_by_lower(ts);
        assert forall|y: Seq<char>| #[trigger] r.contains(y) implies ts.contains(y) by {
            let m = choose|m: int| 0 <= m < r.len() && r[m] == y;
            if m < p.len() {
                assert(p[m] == y);
                assert(p.contains(y));
                let k = choose|k: int| 0 <= k < d.len() && d[k] == y;
                assert(ts[k] == y);
            } else {
                assert(ts[ts.len() - 1] == y);
            }
        }
        if !has_lower_key(p, lowercase(ts.last())) {
            assert forall|i: int, j: int| 0 <= i < j < r.len() implies lowercase(#[trigger] r[i])
                != lowercase(#[trigger] r[j]) by {
                assert(r[i] == p[i]);
                if j < p.len() {
                    assert(r[j] == p[j]);
                }
            }
        }
        assert forall|k: int| 0 <= k < ts.len() implies has_lower_key(r, lowercase(#[trigger] ts[k])) by {
            if k < d.len() {
                assert(ts[k] == d[k]);
                let m = choose|m: int| 0 <= m < p.len() && lowercase(#[trigger] p[m]) == lowercase(d[k]);
                assert(r[m] == p[m]);
            } else if !has_lower_key(p, lowercase(ts.last())) {
                assert(r[p.len() as int] == ts.last());
            }
        }
    }
}

proof fn lemma_cleaned_tags(raw: Seq<Seq<char>>)
    ensures
        forall|y: Seq<char>| #[trigger] cleaned_tags(raw).contains(y) ==> y.len() > 0 && exists|k: int|
            0 <= k < raw.len() && y == trim(#[trigger] raw[k]),
        forall|k: int| 0 <= k < raw.len() && trim(#[trigger] raw[k]).len() > 0 ==> cleaned_tags(raw).contains(trim(raw[k])),
    decreases raw.len(),
{
    if raw.len() > 0 {
        let d = raw.drop_last();
        let p = cleaned_tags(d);
        lemma_cleaned_tags(d);
        let r = cleaned_tags(raw);
        assert forall|y: Seq<char>| #[trigger] r.contains(y) implies y.len() > 0 && exists|k: int|
            0 <= k < raw.len() && y == trim(#[trigger] raw[k]) by {
            let m = choose|m: int| 0 <= m < r.len() && r[m] == y;
            if m < p.len() {
                assert(p[m] == y);
                assert(p.contains(y));
                let k = choose|k: int| 0 <= k < d.len() && y == trim(#[trigger] d[k]);
                assert(raw[k] == d[k]);
            } else {
                assert(y == trim(raw[raw.len() - 1]));
            }
        }
        assert forall|k: int| 0 <= k < raw.len() && trim(#[trigger] raw[k]).len() > 0 implies r.contains(trim(raw[k])) by {
            if k < d.len() {
                assert(raw[k] == d[k]);
                assert(p.contains(trim(d[k])));
                let m = choose|m: int| 0 <= m < p.len() && p[m] == trim(d[k]);
                assert(r[m] == p[m]);
            } else {
                assert(raw[k] == raw.last());
                assert(r[p.len() as int] == trim(raw.last()));
            }
        }
    }
}

/// Every normalized tag is one of the tags as written, trimmed: it is not
/// empty and has no surrounding whitespace.
pub proof fn lemma_normalized_tags_are_trimmed(raw: Seq<Seq<char>>)
    ensures
        forall|i: int|
            #![trigger normalized_tags(raw)[i]]
            0 <= i < normalized_tags(raw).len() ==> {
                let t = normalized_tags(raw)[i];
                &&& t.len() > 0
                &&& trim(t) == t
                &&& exists|k: int| 0 <= k < raw.len() && t == trim(#[trigger] raw[k])
            },
{
    let c = cleaned_tags(raw);
    let u = dedup_by_lower(c);
    let r = normalized_tags(raw);
    lemma_cleaned_tags(raw);
    lemma_dedup_by_lower(c);
    lemma_sort_by_lower(u);
    assert forall|i: int| 0 <= i < r.len() implies {
        let t = #[trigger] r[i];
        &&& t.len() > 0
        &&& trim(t) == t
        &&& exists|k: int| 0 <= k < raw.len() && t == trim(#[trigger] raw[k])
    } by {
        let t = r[i];
        assert(r.contains(t));
        assert(u.contains(t));
        assert(c.contains(t));
        let k = choose|k: int| 0 <= k < raw.len() && t == trim(#[trigger] raw[k]);
        lemma_trim_idempotent(raw[k]);
    }
}

/// The normalized tags are in strictly increasing order of their lowercase
/// forms: sorted case-insensitively, and no two equal but for case.
pub proof fn lemma_normalized_tags_sorted_and_distinct(raw: Seq<Seq<char>>)
    ensures
        sorted_by_lower(normalized_tags(raw)),
        distinct_by_lower(normalized_tags(raw)),
{
    let u = dedup_by_lower(cleaned_tags(raw));
    lemma_dedup_by_lower(cleaned_tags(raw));
    lemma_sort_by_lower(u);
}

/// No tag is lost: every tag as written that is not blank has its lowercase
/// form among the normalized tags.
pub proof fn lemma_normalized_tags_cover_input(raw: Seq<Seq<char>>)
    ensures
        forall|k: int|
            0 <= k < raw.len() && trim(#[trigger] raw[k]).len() > 0 ==> has_lower_key(
                normalized_tags(raw),
                lowercase(trim(raw[k])),
            ),
{
    let c = cleaned_tags(raw);
    let u = dedup_by_lower(c);
    let r = normalized_tags(raw);
    lemma_cleaned_tags(raw);
    lemma_dedup_by_lower(c);
    lemma_sort_by_lower(u);
    assert forall|k: int| 0 <= k < raw.len() && trim(#[trigger] raw[k]).len() > 0 implies has_lower_key(
        r,
        lowercase(trim(raw[k])),
    ) by {
        assert(c.contains(trim(raw[k])));
        let m = choose|m: int| 0 <= m < c.len() && c[m] == trim(raw[k]);
        assert(has_lower_key(u, lowercase(c[m])));
        let q = choose|q: int| 0 <= q < u.len() && lowercase(#[trigger] u[q]) == lowercase(c[m]);
        assert(u.contains(u[q]));
        assert(r.contains(u[q]));
        let i = choose|i: int| 0 <= i < r.len() && r[i] == u[q];
        assert(lowercase(r[i]) == lowercase(trim(raw[k])));
    }
}


proof fn lemma_cleaned_tags_of_clean(ts: Seq<Seq<char>>)
    requires
        forall|i: int| 0 <= i < ts.len() ==> (#[trigger] ts[i]).len() > 0 && trim(ts[i]) == ts[i],
    ensures
        cleaned_tags(ts) == ts,
    decreases ts.len(),
{
    if ts.len() > 0 {
        let d = ts.drop_last();
        assert forall|i: int| 0 <= i < d.len() implies (#[trigger] d[i]).len() > 0 && trim(d[i]) == d[i] by {
            assert(d[i] == ts[i]);
        }
        lemma_cleaned_tags_of_clean(d);
        assert(ts.last() == ts[ts.len() - 1]);
        assert(ts =~= d.push(ts.last()));
    }
}

proof fn lemma_dedup_of_distinct(ts: Seq<Seq<char>>)
    requires
        distinct_by_lower(ts),
    ensures
        dedup_by_lower(ts) == ts,
    decreases ts.len(),
{
    if ts.len() > 0 {
        let d = ts.drop_last();
        assert(distinct_by_lower(d)) by {
            assert forall|i: int, j: int| 0 <= i < j < d.len() implies lowercase(#[trigger] d[i])
                != lowercase(#[trigger] d[j]) by {
                assert(d[i] == ts[i] && d[j] == ts[j]);
            }
        }
        lemma_dedup_of_distinct(d);
        assert(!has_lower_key(d, lowercase(ts.last()))) by {
            if has_lower_key(d, lowercase(ts.last())) {
                let m = choose|m: int| 0 <= m < d.len() && lowercase(#[trigger] d[m]) == lowercase(ts.last());
                assert(ts[m] == d[m]);
                assert(ts[ts.len() - 1] == ts.last());
            }
        }
        assert(ts =~= d.push(ts.last()));
    }
}

proof fn lemma_sort_of_sorted(ts: Seq<Seq<char>>)
    requires
        sorted_by_lower(ts),
    ensures
        sort_by_lower(ts) == ts,
    decreases ts.len(),
{
    if ts.len() > 0 {
        let d = ts.drop_last();
        assert(sorted_by_lower(d)) by {
            assert forall|i: int, j: int| 0 <= i < j < d.len() implies lex_le(
                lowercase(#[trigger] d[i]),
                lowercase(#[trigger] d[j]),
            ) by {
                assert(d[i] == ts[i] && d[j] == ts[j]);
            }
        }
        lemma_sort_of_sorted(d);
        if d.len() > 0 {
            assert(d.last() == ts[d.len() - 1]);
            assert(ts.last() == ts[ts.len() - 1]);
        }
        assert(ts =~= d.push(ts.last()));
    }
}

/// Normalizing tags that are already normalized changes nothing.
pub proof fn lemma_normalize_tags_idempotent(raw: Seq<Seq<char>>)
    ensures
        normalized_tags(normalized_tags(raw)) == normalized_tags(raw),
{
    let r = normalized_tags(raw);
    lemma_normalized_tags_are_trimmed(raw);
    lemma_normalized_tags_sorted_and_distinct(raw);
    assert forall|i: int| 0 <= i < r.len() implies (#[trigger] r[i]).len() > 0 && trim(r[i]) == r[i] by {
    }
    lemma_cleaned_tags_of_clean(r);
    lemma_dedup_of_distinct(r);
    lemma_sort_of_sorted(r);
}


/// Tags written as one comma-separated string normalize as the list of its
/// comma-separated pieces does, and missing tags normalize to none.
pub proof fn lemma_csv_tags_normalize_as_list(csv: String, list: Vec<String>)
    requires
        list.deep_view() == split_on(csv@, ','),
    ensures
        normalized_tags(raw_tags(Tags::Csv(csv))) == normalized_tags(raw_tags(Tags::List(list))),
        normalized_tags(raw_tags(Tags::Absent)) == Seq::<Seq<char>>::empty(),
{
    assert(cleaned_tags(Seq::<Seq<char>>::empty()) =~= Seq::<Seq<char>>::empty());
    assert(dedup_by_lower(Seq::<Seq<char>>::empty()) =~= Seq::<Seq<char>>::empty());
}

} // verus!
