//! Names and places on disk: cleaning file names, the download folder of a
//! subscription, which URLs may be handed to the system opener, and the
//! videos folder that `user-dirs.dirs` names.
//!
//! Paths are strings here; joining follows the `/` separator convention.

use vstd::prelude::*;

use crate::text::{
    ascii_lower_chars, ascii_lower_seq, char_is_ws, chars_of, has_prefix, in_trim_set, is_ws,
    lines, lines_of, push_chars, push_str, slice_chars, starts_with_str, string_of, trim, trim_by,
    trim_chars, trim_end_by, trim_start_by, TrimSet,
};

verus! {

// ───────────────────────── file names ─────────────────────────

/// Characters that Windows forbids in file names.
pub open spec fn is_forbidden_in_name(c: char) -> bool {
    c == '\\' || c == '/' || c == ':' || c == '*' || c == '?' || c == '"' || c == '<' || c == '>'
        || c == '|'
}

/// `s` with every forbidden character replaced by a space.
pub open spec fn blank_forbidden(s: Seq<char>) -> Seq<char> {
    s.map_values(|c: char| if is_forbidden_in_name(c) { ' ' } else { c })
}

/// `str::split_whitespace`: the maximal runs of non-whitespace characters.
pub open spec fn words(s: Seq<char>) -> Seq<Seq<char>>
    decreases s.len(),
{
    if s.len() == 0 {
        Seq::empty()
    } else {
        let w = words(s.drop_last());
        let c = s.last();
        if is_ws(c) {
            w
        } else if s.len() >= 2 && !is_ws(s[s.len() - 2]) {
            w.drop_last().push(w.last().push(c))
        } else {
            w.push(seq![c])
        }
    }
}

/// The words joined by single spaces.
pub open spec fn join_words(ws: Seq<Seq<char>>) -> Seq<char>
    decreases ws.len(),
{
    if ws.len() == 0 {
        Seq::empty()
    } else if ws.len() == 1 {
        ws[0]
    } else {
        join_words(ws.drop_last()) + seq![' '] + ws.last()
    }
}

/// The name used when cleaning leaves nothing.
pub open spec fn unnamed() -> Seq<char> {
    "未命名"@
}

/// A file or folder name that is valid on every platform: the characters
/// `\ / : * ? " < > |` become spaces, runs of whitespace become one space,
/// spaces and dots go from both ends, and an empty result becomes `未命名`.
pub open spec fn spec_sanitize_file_name(name: Seq<char>) -> Seq<char> {
    let s = trim_by(TrimSet::SpaceDot, join_words(words(blank_forbidden(name))));
    if s.len() == 0 {
        unnamed()
    } else {
        s
    }
}

proof fn lemma_words_last(s: Seq<char>)
    requires
        s.len() > 0,
        !is_ws(s.last()),
    ensures
        words(s).len() > 0,
    decreases s.len(),
{
    if s.len() >= 2 && !is_ws(s[s.len() - 2]) {
        assert(s.drop_last().last() == s[s.len() - 2]);
        lemma_words_last(s.drop_last());
    }
}

proof fn lemma_join_extend(w: Seq<Seq<char>>, c: char)
    requires
        w.len() > 0,
    ensures
        join_words(w.drop_last().push(w.last().push(c))) == join_words(w).push(c),
{
    let w2 = w.drop_last().push(w.last().push(c));
    if w.len() == 1 {
        assert(w2.len() == 1);
    } else {
        assert(w2.drop_last() =~= w.drop_last());
        assert(join_words(w2) =~= join_words(w).push(c));
    }
}

proof fn lemma_join_push(w: Seq<Seq<char>>, x: Seq<char>)
    ensures
        join_words(w.push(x)) == if w.len() == 0 {
            x
        } else {
            join_words(w) + seq![' '] + x
        },
{
    assert(w.push(x).drop_last() =~= w);
}

/// Collapses runs of whitespace into single spaces and drops whitespace at
/// both ends (`split_whitespace` joined by `" "`).
fn collapse_whitespace(m: &Vec<char>) -> (res: Vec<char>)
    ensures
        res@ == join_words(words(m@)),
{
    let mut out: Vec<char> = Vec::new();
    let mut in_word = false;
    let mut i: usize = 0;
    while i < m.len()
        invariant
            i <= m.len(),
            out@ == join_words(words(m@.take(i as int))),
            (out@.len() == 0) == (words(m@.take(i as int)).len() == 0),
            in_word == (i > 0 && !is_ws(m@[i - 1])),
        decreases m.len() - i,
    {
        let c = m[i];
        let ghost t = m@.take(i as int);
        let ghost t2 = m@.take(i + 1);
        assert(t2.drop_last() =~= t);
        assert(t2.last() == c);
        let ghost w = words(t);
        if char_is_ws(c) {
            in_word = false;
            assert(words(t2) == w);
        } else {
            if in_word {
                proof {
                    assert(t.last() == m@[i - 1]);
                    lemma_words_last(t);
                    assert(t2[t2.len() - 2] == m@[i - 1]);
                    lemma_join_extend(w, c);
                }
                out.push(c);
            } else {
                proof {
                    if i > 0 {
                        assert(t2[t2.len() - 2] == m@[i - 1]);
                    }
                    lemma_join_push(w, seq![c]);
                }
                if out.len() > 0 {
                    out.push(' ');
                }
                out.push(c);
                assert(out@ =~= join_words(words(t2)));
            }
            in_word = true;
        }
        i = i + 1;
    }
    assert(m@.take(m.len() as int) =~= m@);
    out
}

/// Cleans a file or folder name (see [`spec_sanitize_file_name`]).
pub fn sanitize_file_name(name: &str) -> (res: String)
    ensures
        res@ == spec_sanitize_file_name(name@),
{
    let chars = chars_of(name);
    let mut mapped: Vec<char> = Vec::new();
    let mut i: usize = 0;
    while i < chars.len()
        invariant
            i <= chars.len(),
            mapped@ == blank_forbidden(chars@.take(i as int)),
        decreases chars.len() - i,
    {
        let c = chars[i];
        let d = if c == '\\' || c == '/' || c == ':' || c == '*' || c == '?' || c == '"' || c
            == '<' || c == '>' || c == '|' {
            ' '
        } else {
            c
        };
        mapped.push(d);
        i = i + 1;
        assert(mapped@ =~= blank_forbidden(chars@.take(i as int)));
    }
    assert(chars@.take(chars.len() as int) =~= chars@);
    let joined = collapse_whitespace(&mapped);
    let trimmed = trim_chars(TrimSet::SpaceDot, &joined);
    if trimmed.len() == 0 {
        "未命名".to_owned()
    } else {
        string_of(&trimmed)
    }
}

proof fn lemma_words_chars(s: Seq<char>)
    ensures
        forall|k: int, j: int|
            0 <= k < words(s).len() && 0 <= j < words(s)[k].len() ==> s.contains(#[trigger] words(s)[k][j]),
    decreases s.len(),
{
    if s.len() > 0 {
        let p = s.drop_last();
        lemma_words_chars(p);
        let w = words(p);
        let c = s.last();
        assert(s.contains(c)) by {
            assert(s[s.len() - 1] == c);
        }
        assert forall|x: char| p.contains(x) implies s.contains(x) by {
            let i = choose|i: int| 0 <= i < p.len() && p[i] == x;
            assert(s[i] == x);
        }
        if !is_ws(c) {
            if s.len() >= 2 && !is_ws(s[s.len() - 2]) {
                assert(s.drop_last().last() == s[s.len() - 2]);
                lemma_words_last(p);
            }
        }
    }
}

proof fn lemma_join_chars(ws: Seq<Seq<char>>, s: Seq<char>)
    requires
        forall|k: int, j: int| 0 <= k < ws.len() && 0 <= j < ws[k].len() ==> s.contains(#[trigger] ws[k][j]),
    ensures
        forall|i: int| 0 <= i < join_words(ws).len() ==> join_words(ws)[i] == ' ' || s.contains(#[trigger] join_words(ws)[i]),
    decreases ws.len(),
{
    if ws.len() > 1 {
        let p = ws.drop_last();
        assert forall|k: int, j: int| 0 <= k < p.len() && 0 <= j < p[k].len() implies s.contains(#[trigger] p[k][j]) by {
            assert(p[k] == ws[k]);
        }
        lemma_join_chars(p, s);
        let jp = join_words(p);
        let l = ws.last();
        assert forall|i: int| 0 <= i < join_words(ws).len() implies join_words(ws)[i] == ' ' || s.contains(#[trigger] join_words(ws)[i]) by {
            if i < jp.len() {
                assert(join_words(ws)[i] == jp[i]);
            } else if i > jp.len() {
                assert(join_words(ws)[i] == l[i - jp.len() - 1]);
                assert(ws[ws.len() - 1] == l);
            }
        }
    } else if ws.len() == 1 {
        assert forall|i: int| 0 <= i < join_words(ws).len() implies join_words(ws)[i] == ' ' || s.contains(#[trigger] join_words(ws)[i]) by {
            assert(join_words(ws)[i] == ws[0][i]);
        }
    }
}

proof fn lemma_trim_start_chars(set: TrimSet, s: Seq<char>)
    ensures
        forall|i: int| 0 <= i < trim_start_by(set, s).len() ==> s.contains(#[trigger] trim_start_by(set, s)[i]),
    decreases s.len(),
{
    if s.len() > 0 && in_trim_set(set, s[0]) {
        let p = s.drop_first();
        lemma_trim_start_chars(set, p);
        assert forall|i: int| 0 <= i < trim_start_by(set, s).len() implies s.contains(#[trigger] trim_start_by(set, s)[i]) by {
            assert(trim_start_by(set, s) == trim_start_by(set, p));
            let x = trim_start_by(set, p)[i];
            assert(p.contains(x));
            let j = choose|j: int| 0 <= j < p.len() && p[j] == x;
            assert(s[j + 1] == x);
        }
    } else {
        assert forall|i: int| 0 <= i < trim_start_by(set, s).len() implies s.contains(#[trigger] trim_start_by(set, s)[i]) by {
            assert(s[i] == trim_start_by(set, s)[i]);
        }
    }
}

proof fn lemma_trim_end_chars(set: TrimSet, s: Seq<char>)
    ensures
        forall|i: int| 0 <= i < trim_end_by(set, s).len() ==> s.contains(#[trigger] trim_end_by(set, s)[i]),
    decreases s.len(),
{
    if s.len() > 0 && in_trim_set(set, s.last()) {
        let p = s.drop_last();
        lemma_trim_end_chars(set, p);
        assert forall|i: int| 0 <= i < trim_end_by(set, s).len() implies s.contains(#[trigger] trim_end_by(set, s)[i]) by {
            assert(trim_end_by(set, s) == trim_end_by(set, p));
            let x = trim_end_by(set, p)[i];
            assert(p.contains(x));
            let j = choose|j: int| 0 <= j < p.len() && p[j] == x;
            assert(s[j] == x);
        }
    } else {
        assert forall|i: int| 0 <= i < trim_end_by(set, s).len() implies s.contains(#[trigger] trim_end_by(set, s)[i]) by {
            assert(s[i] == trim_end_by(set, s)[i]);
        }
    }
}

/// A cleaned name is never empty and holds none of the characters that
/// Windows forbids, so that it is always one valid path component.
pub proof fn law_sanitized_name_is_safe(name: Seq<char>)
    ensures
        spec_sanitize_file_name(name).len() > 0,
        forall|i: int|
            0 <= i < spec_sanitize_file_name(name).len() ==> !is_forbidden_in_name(
                #[trigger] spec_sanitize_file_name(name)[i],
            ),
{
    let b = blank_forbidden(name);
    let ws = words(b);
    let j = join_words(ws);
    let t = trim_by(TrimSet::SpaceDot, j);
    lemma_words_chars(b);
    lemma_join_chars(ws, b);
    lemma_trim_start_chars(TrimSet::SpaceDot, j);
    lemma_trim_end_chars(TrimSet::SpaceDot, trim_start_by(TrimSet::SpaceDot, j));
    assert forall|x: char| b.contains(x) implies !is_forbidden_in_name(x) by {
        let i = choose|i: int| 0 <= i < b.len() && b[i] == x;
        assert(b[i] == (if is_forbidden_in_name(name[i]) { ' ' } else { name[i] }));
    }
    assert forall|i: int| 0 <= i < t.len() implies !is_forbidden_in_name(#[trigger] t[i]) by {
        let ts = trim_start_by(TrimSet::SpaceDot, j);
        assert(ts.contains(t[i]));
        let k = choose|k: int| 0 <= k < ts.len() && ts[k] == t[i];
        assert(j.contains(ts[k]));
        let m = choose|m: int| 0 <= m < j.len() && j[m] == ts[k];
        assert(j[m] == ' ' || b.contains(j[m]));
    }
    reveal_strlit("未命名");
}

/// A word: a non-empty run of non-whitespace characters.
pub open spec fn is_word(w: Seq<char>) -> bool {
    w.len() > 0 && forall|j: int| 0 <= j < w.len() ==> !is_ws(#[trigger] w[j])
}

/// Whitespace in `t` is single spaces only.
pub open spec fn single_spaced(t: Seq<char>) -> bool {
    &&& forall|i: int| 0 <= i < t.len() && is_ws(#[trigger] t[i]) ==> t[i] == ' '
    &&& forall|i: int| 0 < i < t.len() && #[trigger] t[i] == ' ' ==> t[i - 1] != ' '
}

proof fn lemma_words_shape(s: Seq<char>)
    ensures
        forall|k: int| 0 <= k < words(s).len() ==> is_word(#[trigger] words(s)[k]),
    decreases s.len(),
{
    if s.len() > 0 {
        let p = s.drop_last();
        lemma_words_shape(p);
        let w = words(p);
        let c = s.last();
        if !is_ws(c) {
            if s.len() >= 2 && !is_ws(s[s.len() - 2]) {
                assert(p.last() == s[s.len() - 2]);
                lemma_words_last(p);
                let nw = w.last().push(c);
                assert(is_word(w[w.len() - 1]));
                assert(is_word(nw)) by {
                    assert forall|j: int| 0 <= j < nw.len() implies !is_ws(#[trigger] nw[j]) by {
                        if j < nw.len() - 1 {
                            assert(nw[j] == w[w.len() - 1][j]);
                        }
                    }
                }
                assert forall|k: int| 0 <= k < words(s).len() implies is_word(#[trigger] words(s)[k]) by {
                    if k < w.len() - 1 {
                        assert(words(s)[k] == w[k]);
                    }
                }
            } else {
                assert(is_word(seq![c]));
                assert forall|k: int| 0 <= k < words(s).len() implies is_word(#[trigger] words(s)[k]) by {
                    if k < w.len() {
                        assert(words(s)[k] == w[k]);
                    }
                }
            }
        }
    }
}

proof fn lemma_join_shape(ws: Seq<Seq<char>>)
    requires
        forall|k: int| 0 <= k < ws.len() ==> is_word(#[trigger] ws[k]),
    ensures
        single_spaced(join_words(ws)),
        ws.len() > 0 ==> join_words(ws).len() > 0 && !is_ws(join_words(ws)[0]) && !is_ws(
            join_words(ws).last(),
        ),
    decreases ws.len(),
{
    if ws.len() == 1 {
        assert(is_word(ws[0]));
        let j = join_words(ws);
        assert(j == ws[0]);
        assert(!is_ws(j[0]));
        assert(!is_ws(j[j.len() - 1]));
    } else if ws.len() > 1 {
        let p = ws.drop_last();
        assert forall|k: int| 0 <= k < p.len() implies is_word(#[trigger] p[k]) by {
            assert(p[k] == ws[k]);
        }
        lemma_join_shape(p);
        let jp = join_words(p);
        let l = ws.last();
        assert(is_word(ws[ws.len() - 1]));
        let j = join_words(ws);
        assert(j == jp + seq![' '] + l);
        let n = jp.len() as int;
        assert forall|i: int| 0 <= i < j.len() && is_ws(#[trigger] j[i]) implies j[i] == ' ' by {
            if i < n {
                assert(j[i] == jp[i]);
            } else if i > n {
                assert(j[i] == l[i - n - 1]);
            }
        }
        assert forall|i: int| 0 < i < j.len() && #[trigger] j[i] == ' ' implies j[i - 1] != ' ' by {
            if i < n {
                assert(j[i] == jp[i]);
                assert(j[i - 1] == jp[i - 1]);
            } else if i == n {
                assert(j[i - 1] == jp[n - 1]);
            } else {
                assert(j[i] == l[i - n - 1]);
            }
        }
        assert(j[0] == jp[0]);
        assert(j.last() == l[l.len() - 1]);
    }
}

proof fn lemma_trim_start_suffix(set: TrimSet, x: Seq<char>) -> (k: int)
    ensures
        0 <= k <= x.len(),
        trim_start_by(set, x) == x.subrange(k, x.len() as int),
        trim_start_by(set, x).len() > 0 ==> !in_trim_set(set, trim_start_by(set, x)[0]),
    decreases x.len(),
{
    if x.len() > 0 && in_trim_set(set, x[0]) {
        let k = lemma_trim_start_suffix(set, x.drop_first());
        assert(x.drop_first().subrange(k, x.drop_first().len() as int) =~= x.subrange(k + 1, x.len() as int));
        k + 1
    } else {
        assert(x.subrange(0, x.len() as int) =~= x);
        0
    }
}

proof fn lemma_trim_end_prefix(set: TrimSet, y: Seq<char>) -> (m: int)
    ensures
        0 <= m <= y.len(),
        trim_end_by(set, y) == y.subrange(0, m),
        m > 0 ==> !in_trim_set(set, y[m - 1]),
    decreases y.len(),
{
    if y.len() > 0 && in_trim_set(set, y.last()) {
        let m = lemma_trim_end_prefix(set, y.drop_last());
        assert(y.drop_last().subrange(0, m) =~= y.subrange(0, m));
        m
    } else {
        assert(y.subrange(0, y.len() as int) =~= y);
        y.len() as int
    }
}

proof fn lemma_single_spaced_sub(t: Seq<char>, a: int, b: int)
    requires
        single_spaced(t),
        0 <= a <= b <= t.len(),
    ensures
        single_spaced(t.subrange(a, b)),
{
    let u = t.subrange(a, b);
    assert forall|i: int| 0 <= i < u.len() && is_ws(#[trigger] u[i]) implies u[i] == ' ' by {
        assert(u[i] == t[a + i]);
    }
    assert forall|i: int| 0 < i < u.len() && #[trigger] u[i] == ' ' implies u[i - 1] != ' ' by {
        assert(u[i] == t[a + i]);
        assert(u[i - 1] == t[a + i - 1]);
    }
}

proof fn lemma_join_words_of_clean(t: Seq<char>)
    requires
        single_spaced(t),
        t.len() == 0 || !is_ws(t[0]),
    ensures
        join_words(words(t)) == if t.len() > 0 && is_ws(t.last()) {
            t.drop_last()
        } else {
            t
        },
    decreases t.len(),
{
    if t.len() > 0 {
        let p = t.drop_last();
        let c = t.last();
        lemma_single_spaced_sub(t, 0, t.len() - 1);
        assert(p =~= t.subrange(0, t.len() - 1));
        if p.len() > 0 {
            assert(p[0] == t[0]);
        }
        lemma_join_words_of_clean(p);
        if is_ws(c) {
            assert(t[t.len() - 1] == ' ');
            assert(t.len() >= 2);
            assert(t[t.len() - 2] != ' ');
            assert(p.last() == t[t.len() - 2]);
            assert(!is_ws(p.last()));
        } else if t.len() == 1 {
            assert(words(p) =~= Seq::<Seq<char>>::empty());
            assert(words(t) =~= seq![seq![c]]);
            assert(join_words(words(t)) =~= t);
        } else if !is_ws(t[t.len() - 2]) {
            assert(p.last() == t[t.len() - 2]);
            lemma_words_last(p);
            lemma_join_extend(words(p), c);
            assert(join_words(words(t)) =~= t);
        } else {
            assert(t[t.len() - 2] == ' ');
            assert(p.len() >= 2) by {
                if p.len() == 1 {
                    assert(p[0] == t[0]);
                }
            }
            let q = p.drop_last();
            assert(t[t.len() - 3] != ' ');
            assert(q.last() == t[t.len() - 3]);
            assert(!is_ws(q.last()));
            lemma_words_last(q);
            assert(p.last() == t[t.len() - 2]);
            assert(words(p) == words(q));
            lemma_join_push(words(p), seq![c]);
            assert(join_words(words(t)) =~= t);
        }
    }
}

/// Cleaning a name twice is cleaning it once: a cleaned name is left as it is.
pub proof fn law_sanitize_idempotent(name: Seq<char>)
    ensures
        spec_sanitize_file_name(spec_sanitize_file_name(name)) == spec_sanitize_file_name(name),
{
    law_sanitized_name_is_safe(name);
    let t = spec_sanitize_file_name(name);
    let b = blank_forbidden(name);
    let j = join_words(words(b));
    let u = trim_by(TrimSet::SpaceDot, j);
    lemma_words_shape(b);
    lemma_join_shape(words(b));
    let k = lemma_trim_start_suffix(TrimSet::SpaceDot, j);
    let ts = trim_start_by(TrimSet::SpaceDot, j);
    let m = lemma_trim_end_prefix(TrimSet::SpaceDot, ts);
    lemma_single_spaced_sub(j, k, j.len() as int);
    lemma_single_spaced_sub(ts, 0, m);
    // what a clean name looks like
    reveal_strlit("未命名");
    if u.len() > 0 {
        assert(u[0] == ts[0]);
        assert(u.last() == ts[m - 1]);
    }
    assert(t.len() > 0);
    assert(single_spaced(t));
    assert(!in_trim_set(TrimSet::SpaceDot, t[0]));
    assert(!in_trim_set(TrimSet::SpaceDot, t.last()));
    assert(!is_ws(t[0]));
    assert(!is_ws(t.last()));
    // cleaning it again changes nothing
    assert(blank_forbidden(t) =~= t) by {
        assert forall|i: int| 0 <= i < t.len() implies #[trigger] blank_forbidden(t)[i] == t[i] by {
            assert(!is_forbidden_in_name(t[i]));
        }
    }
    lemma_join_words_of_clean(t);
    assert(trim_start_by(TrimSet::SpaceDot, t) == t);
    assert(trim_end_by(TrimSet::SpaceDot, t) == t);
}

/// `base` joined with the relative name `name` by one `/`.
pub open spec fn join_path(base: Seq<char>, name: Seq<char>) -> Seq<char> {
    if base.len() == 0 {
        name
    } else if base.last() == '/' {
        base + name
    } else {
        base + seq!['/'] + name
    }
}

/// Appends `name` to `base` as a path component.
pub fn join_path_str(base: &str, name: &Vec<char>) -> (res: String)
    ensures
        res@ == join_path(base@, name@),
{
    let b = chars_of(base);
    let mut out: Vec<char> = Vec::new();
    push_chars(&mut out, &b);
    if b.len() > 0 && b[b.len() - 1] != '/' {
        out.push('/');
    }
    push_chars(&mut out, name);
    assert(out@ =~= join_path(base@, name@));
    string_of(&out)
}

/// The folder name of one subscription: `<bangumi> - <group>`, both cleaned.
pub open spec fn spec_subgroup_dir_name(bangumi_name: Seq<char>, group_name: Seq<char>) -> Seq<
    char,
> {
    spec_sanitize_file_name(bangumi_name) + " - "@ + spec_sanitize_file_name(group_name)
}

/// The download folder of one subtitle-group subscription:
/// `<download dir>/<bangumi> - <group>`. The group is part of the name so that
/// two groups never share a folder; unsubscribing removes the folder whole.
pub fn subgroup_download_dir(base_dir: &str, bangumi_name: &str, group_name: &str) -> (res: String)
    ensures
        res@ == join_path(base_dir@, spec_subgroup_dir_name(bangumi_name@, group_name@)),
{
    let a = sanitize_file_name(bangumi_name);
    let g = sanitize_file_name(group_name);
    let mut name: Vec<char> = Vec::new();
    push_str(&mut name, a.as_str());
    push_str(&mut name, " - ");
    push_str(&mut name, g.as_str());
    join_path_str(base_dir, &name)
}

// ───────────────────────── opening URLs ─────────────────────────

/// The message for a URL the opener refuses.
pub open spec fn not_http_message() -> Seq<char> {
    "仅支持 HTTP(S) URL"@
}

/// Only `http://` and `https://` addresses (scheme in any case, surrounding
/// whitespace ignored) go to the system opener; the trimmed address is what
/// it gets.
pub open spec fn spec_open_url(url: Seq<char>) -> Result<Seq<char>, Seq<char>> {
    let lower = ascii_lower_seq(trim(url));
    if has_prefix(lower, "https://"@) || has_prefix(lower, "http://"@) {
        Ok(trim(url))
    } else {
        Err(not_http_message())
    }
}

/// Checks a URL before it is handed to the system browser: `Ok` with the
/// trimmed address for HTTP(S), `Err` with the message otherwise.
pub fn open_url(url: &str) -> (res: Result<String, String>)
    ensures
        match (res, spec_open_url(url@)) {
            (Ok(a), Ok(b)) => a@ == b,
            (Err(a), Err(b)) => a@ == b,
            _ => false,
        },
{
    let chars = chars_of(url);
    let t = trim_chars(TrimSet::Whitespace, &chars);
    let lower = ascii_lower_chars(&t);
    if !starts_with_str(&lower, "https://") && !starts_with_str(&lower, "http://") {
        return Err("仅支持 HTTP(S) URL".to_owned());
    }
    Ok(string_of(&t))
}

// ───────────────────────── the videos folder ─────────────────────────

/// Where `user-dirs.dirs` puts the videos folder.
#[derive(Debug, Clone, PartialEq, Eq)]
pub enum VideoDir {
    /// `$HOME/<path>`: the path under the home folder.
    UnderHome(String),
    /// An absolute path.
    Absolute(String),
    /// No usable setting: `~/Videos`.
    Default,
}

pub enum VideoDirView {
    UnderHome(Seq<char>),
    Absolute(Seq<char>),
    Default,
}

impl DeepView for VideoDir {
    type V = VideoDirView;

    open spec fn deep_view(&self) -> VideoDirView {
        match self {
            VideoDir::UnderHome(p) => VideoDirView::UnderHome(p@),
            VideoDir::Absolute(p) => VideoDirView::Absolute(p@),
            VideoDir::Default => VideoDirView::Default,
        }
    }
}

/// The value of an `XDG_VIDEOS_DIR=` line, trimmed and unquoted:
/// `$HOME/...` is under the home folder, `/...` absolute, anything else no
/// setting.
pub open spec fn video_dir_value(rest: Seq<char>) -> VideoDirView {
    let v = trim_by(TrimSet::Quote, trim(rest));
    if has_prefix(v, "$HOME/"@) {
        VideoDirView::UnderHome(v.skip(6))
    } else if has_prefix(v, "/"@) {
        VideoDirView::Absolute(v)
    } else {
        VideoDirView::Default
    }
}

/// The first line that sets `XDG_VIDEOS_DIR` decides; without one, the
/// default.
pub open spec fn video_dir_setting(ls: Seq<Seq<char>>) -> VideoDirView
    decreases ls.len(),
{
    if ls.len() == 0 {
        VideoDirView::Default
    } else if has_prefix(trim(ls[0]), "XDG_VIDEOS_DIR="@) {
        video_dir_value(trim(ls[0]).skip(15))
    } else {
        video_dir_setting(ls.drop_first())
    }
}

fn video_dir_of_value(rest: &Vec<char>) -> (r: VideoDir)
    ensures
        r.deep_view() == video_dir_value(rest@),
{
    let t = trim_chars(TrimSet::Whitespace, rest);
    let v = trim_chars(TrimSet::Quote, &t);
    proof {
        reveal_strlit("$HOME/");
        reveal_strlit("/");
    }
    if starts_with_str(&v, "$HOME/") {
        let p = slice_chars(&v, 6, v.len());
        assert(p@ =~= v@.skip(6));
        VideoDir::UnderHome(string_of(&p))
    } else if starts_with_str(&v, "/") {
        VideoDir::Absolute(string_of(&v))
    } else {
        VideoDir::Default
    }
}

/// Reads the videos folder from the text of `~/.config/user-dirs.dirs`.
pub fn video_dir_from_user_dirs(text: &str) -> (r: VideoDir)
    ensures
        r.deep_view() == video_dir_setting(lines(text@)),
{
    let chars = chars_of(text);
    let ls = lines_of(&chars);
    let ghost all = lines(text@);
    let mut i: usize = 0;
    assert(all.skip(0) =~= all);
    while i < ls.len()
        invariant
            i <= ls.len(),
            ls.deep_view() == all,
            all == lines(text@),
            video_dir_setting(all.skip(i as int)) == video_dir_setting(all),
        decreases ls.len() - i,
    {
        proof {
            reveal_strlit("XDG_VIDEOS_DIR=");
        }
        assert(ls[i as int]@ == all[i as int]);
        let t = trim_chars(TrimSet::Whitespace, &ls[i]);
        assert(all.skip(i as int)[0] == all[i as int]);
        if starts_with_str(&t, "XDG_VIDEOS_DIR=") {
            let rest = slice_chars(&t, 15, t.len());
            assert(rest@ =~= t@.skip(15));
            return video_dir_of_value(&rest);
        }
        assert(all.skip(i as int).drop_first() =~= all.skip(i + 1));
        i = i + 1;
    }
    assert(all.skip(i as int) =~= Seq::<Seq<char>>::empty());
    VideoDir::Default
}

} // verus!
