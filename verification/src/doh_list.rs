//! The list of DoH endpoints: one URL per line, blank lines and lines that
//! start with `#` ignored.

use vstd::prelude::*;
use crate::endpoint::first_index;
use crate::text::{chars_of, string_of, string_views};

verus! {

/// Unicode white space, as `char::is_whitespace` decides it.
pub open spec fn is_whitespace(c: char) -> bool {
    ||| c == ' '
    ||| '\t' <= c <= '\r'
    ||| c == '\u{85}'
    ||| c == '\u{a0}'
    ||| c == '\u{1680}'
    ||| '\u{2000}' <= c <= '\u{200a}'
    ||| c == '\u{2028}'
    ||| c == '\u{2029}'
    ||| c == '\u{202f}'
    ||| c == '\u{205f}'
    ||| c == '\u{3000}'
}

fn char_is_whitespace(c: char) -> (b: bool)
    ensures
        b == is_whitespace(c),
{
    c == ' ' || ('\t' <= c && c <= '\r') || c == '\u{85}' || c == '\u{a0}' || c == '\u{1680}' || ('\u{2000}'
        <= c && c <= '\u{200a}') || c == '\u{2028}' || c == '\u{2029}' || c == '\u{202f}' || c == '\u{205f}'
        || c == '\u{3000}'
}

/// `s` without its leading white space.
pub open spec fn trim_start(s: Seq<char>) -> Seq<char>
    decreases s.len(),
{
    if s.len() > 0 && is_whitespace(s[0]) {
        trim_start(s.drop_first())
    } else {
        s
    }
}

/// `s` without its trailing white space.
pub open spec fn trim_end(s: Seq<char>) -> Seq<char>
    decreases s.len(),
{
    if s.len() > 0 && is_whitespace(s.last()) {
        trim_end(s.drop_last())
    } else {
        s
    }
}

/// `s` without leading and trailing white space.
pub open spec fn trim(s: Seq<char>) -> Seq<char> {
    trim_end(trim_start(s))
}

/// What one line contributes: its trimmed text, unless that is empty or a
/// comment.
pub open spec fn line_entry(line: Seq<char>) -> Seq<Seq<char>> {
    let t = trim(line);
    if t.len() == 0 || t[0] == '#' {
        seq![]
    } else {
        seq![t]
    }
}

/// The endpoint URLs that a list file holds, in order.
pub open spec fn doh_entries(s: Seq<char>) -> Seq<Seq<char>>
    decreases s.len(),
{
    if s.len() == 0 {
        seq![]
    } else {
        match first_index(s, '\n') {
            Some(i) => if 0 <= i < s.len() {
                line_entry(s.take(i)) + doh_entries(s.skip(i + 1))
            } else {
                seq![]
            },
            None => line_entry(s),
        }
    }
}

proof fn lemma_trim_start(s: Seq<char>, a: int)
    requires
        0 <= a <= s.len(),
        forall|k: int| 0 <= k < a ==> is_whitespace(#[trigger] s[k]),
        a < s.len() ==> !is_whitespace(s[a]),
    ensures
        trim_start(s) == s.skip(a),
    decreases a,
{
    if a == 0 {
        assert(s.skip(0) =~= s);
    } else {
        assert(is_whitespace(s[0]));
        let t = s.drop_first();
        assert forall|k: int| 0 <= k < a - 1 implies is_whitespace(#[trigger] t[k]) by {
            assert(t[k] == s[k + 1]);
        }
        lemma_trim_start(t, a - 1);
        assert(t.skip(a - 1) =~= s.skip(a));
    }
}

proof fn lemma_trim_end(s: Seq<char>, b: int)
    requires
        0 <= b <= s.len(),
        forall|k: int| b <= k < s.len() ==> is_whitespace(#[trigger] s[k]),
        b > 0 ==> !is_whitespace(s[b - 1]),
    ensures
        trim_end(s) == s.take(b),
    decreases s.len() - b,
{
    if b == s.len() {
        assert(s.take(b) =~= s);
    } else {
        assert(is_whitespace(s.last()));
        let t = s.drop_last();
        assert forall|k: int| b <= k < t.len() implies is_whitespace(#[trigger] t[k]) by {
            assert(t[k] == s[k]);
        }
        lemma_trim_end(t, b);
        assert(t.take(b) =~= s.take(b));
    }
}

/// Bounds of the trimmed text of `v[from..to]`.
fn trim_bounds(v: &Vec<char>, from: usize, to: usize) -> (ab: (usize, usize))
    requires
        from <= to <= v.len(),
    ensures
        from <= ab.0 <= ab.1 <= to,
        v@.subrange(ab.0 as int, ab.1 as int) == trim(v@.subrange(from as int, to as int)),
{
    let ghost line = v@.subrange(from as int, to as int);
    let mut a: usize = from;
    while a < to && char_is_whitespace(v[a])
        invariant
            from <= a <= to <= v.len(),
            forall|k: int| from <= k < a ==> is_whitespace(#[trigger] v@[k]),
        decreases to - a,
    {
        a = a + 1;
    }
    proof {
        assert forall|k: int| 0 <= k < a - from implies is_whitespace(#[trigger] line[k]) by {
            assert(line[k] == v@[from + k]);
        }
        if a < to {
            assert(line[a - from] == v@[a as int]);
        }
        lemma_trim_start(line, a - from);
    }
    let ghost t = line.skip(a - from);
    let mut b: usize = to;
    while b > a && char_is_whitespace(v[b - 1])
        invariant
            a <= b <= to <= v.len(),
            forall|k: int| b <= k < to ==> is_whitespace(#[trigger] v@[k]),
        decreases b - a,
    {
        b = b - 1;
    }
    proof {
        assert forall|k: int| b - a <= k < t.len() implies is_whitespace(#[trigger] t[k]) by {
            assert(t[k] == v@[a + k]);
        }
        if b > a {
            assert(t[b - a - 1] == v@[b - 1]);
        }
        lemma_trim_end(t, b - a);
        assert(t.take(b - a) =~= v@.subrange(a as int, b as int));
    }
    (a, b)
}

/// The endpoint URLs of a list file's text: each line trimmed of white
/// space, blank lines and lines starting with `#` left out.
pub fn parse_doh_list(content: &str) -> (urls: Vec<String>)
    ensures
        string_views(urls@) == doh_entries(content@),
{
    let v = chars_of(content);
    let mut urls: Vec<String> = Vec::new();
    let mut pos: usize = 0;
    assert(v@.skip(0) =~= v@);
    assert(string_views(urls@) + doh_entries(v@.skip(0)) =~= doh_entries(content@));
    while pos < v.len()
        invariant
            pos <= v.len(),
            v@ == content@,
            doh_entries(content@) == string_views(urls@) + doh_entries(v@.skip(pos as int)),
        decreases v.len() - pos,
    {
        let ghost rest = v@.skip(pos as int);
        let mut end: usize = pos;
        while end < v.len() && v[end] != '\n'
            invariant
                pos <= end <= v.len(),
                forall|k: int| pos <= k < end ==> v@[k] != '\n',
            decreases v.len() - end,
        {
            end = end + 1;
        }
        proof {
            crate::endpoint::lemma_first_index_slice(v@, pos as int, end as int, '\n');
            assert(rest.take(end - pos) =~= v@.subrange(pos as int, end as int));
            if end == v.len() {
                assert(rest =~= v@.subrange(pos as int, end as int));
            }
        }
        let (a, b) = trim_bounds(&v, pos, end);
        let ghost before = string_views(urls@);
        if a < b && v[a] != '#' {
            let url = string_of(&v, a, b);
            urls.push(url);
            assert(string_views(urls@) =~= before.push(v@.subrange(a as int, b as int)));
        }
        proof {
            let entry = line_entry(v@.subrange(pos as int, end as int));
            assert(string_views(urls@) =~= before + entry);
        }
        if end == v.len() {
            assert(doh_entries(v@.skip(end as int)) =~= Seq::<Seq<char>>::empty()) by {
                assert(v@.skip(end as int).len() == 0);
            }
            assert(doh_entries(content@) =~= string_views(urls@) + doh_entries(v@.skip(end as int)));
            pos = end;
        } else {
            assert(rest.skip(end - pos + 1) =~= v@.skip(end + 1));
            assert(doh_entries(content@) =~= string_views(urls@) + doh_entries(v@.skip(end + 1)));
            pos = end + 1;
        }
    }
    assert(v@.skip(pos as int).len() == 0);
    assert(string_views(urls@) + doh_entries(v@.skip(pos as int)) =~= string_views(urls@));
    urls
}


/// Where the trimmed text starts and ends: `trim(s)` is `s[a..b]`, and it
/// neither starts nor ends with white space.
proof fn lemma_trim_shape(s: Seq<char>) -> (ab: (int, int))
    ensures
        0 <= ab.0 <= ab.1 <= s.len(),
        trim(s) == s.subrange(ab.0, ab.1),
        trim(s).len() > 0 ==> !is_whitespace(trim(s)[0]) && !is_whitespace(trim(s).last()),
{
    let a = trim_start_offset(s);
    let t = s.skip(a);
    let b = trim_end_len(t);
    assert(t.take(b) =~= s.subrange(a, a + b));
    (a, a + b)
}

proof fn trim_start_offset(s: Seq<char>) -> (a: int)
    ensures
        0 <= a <= s.len(),
        trim_start(s) == s.skip(a),
        a < s.len() ==> !is_whitespace(s[a]),
    decreases s.len(),
{
    if s.len() > 0 && is_whitespace(s[0]) {
        let k = trim_start_offset(s.drop_first());
        assert(s.drop_first().skip(k) =~= s.skip(k + 1));
        if k + 1 < s.len() {
            assert(s.drop_first()[k] == s[k + 1]);
        }
        k + 1
    } else {
        assert(s.skip(0) =~= s);
        0
    }
}

proof fn trim_end_len(t: Seq<char>) -> (b: int)
    ensures
        0 <= b <= t.len(),
        trim_end(t) == t.take(b),
        b > 0 ==> !is_whitespace(t[b - 1]),
        t.len() > 0 && !is_whitespace(t[0]) ==> b > 0,
    decreases t.len(),
{
    if t.len() > 0 && is_whitespace(t.last()) {
        let k = trim_end_len(t.drop_last());
        assert(t.drop_last().take(k) =~= t.take(k));
        if k > 0 {
            assert(t.drop_last()[k - 1] == t[k - 1]);
        }
        if t.len() > 1 && !is_whitespace(t[0]) {
            assert(t.drop_last()[0] == t[0]);
        }
        k
    } else {
        assert(t.take(t.len() as int) =~= t);
        t.len() as int
    }
}

/// An entry of the list: not empty, not a comment, no surrounding white
/// space, and on one line.
pub open spec fn clean_entry(t: Seq<char>) -> bool {
    &&& t.len() > 0
    &&& t[0] != '#'
    &&& !is_whitespace(t[0])
    &&& !is_whitespace(t.last())
    &&& forall|k: int| 0 <= k < t.len() ==> t[k] != '\n'
}

/// Every URL read from a list file is a clean entry.
pub proof fn lemma_doh_entries_clean(s: Seq<char>)
    ensures
        forall|i: int| 0 <= i < doh_entries(s).len() ==> clean_entry(#[trigger] doh_entries(s)[i]),
    decreases s.len(),
{
    if s.len() > 0 {
        crate::endpoint::lemma_first_index(s, '\n');
        let line = match first_index(s, '\n') {
            Some(i) => s.take(i),
            None => s,
        };
        assert forall|k: int| 0 <= k < line.len() implies line[k] != '\n' by {
            assert(line[k] == s[k]);
        }
        let (a, b) = lemma_trim_shape(line);
        let t = trim(line);
        assert forall|k: int| 0 <= k < t.len() implies t[k] != '\n' by {
            assert(t[k] == line[a + k]);
        }
        match first_index(s, '\n') {
            Some(i) => {
                lemma_doh_entries_clean(s.skip(i + 1));
                let head = line_entry(line);
                let rest = doh_entries(s.skip(i + 1));
                assert forall|j: int| 0 <= j < doh_entries(s).len() implies clean_entry(
                    #[trigger] doh_entries(s)[j],
                ) by {
                    if j < head.len() {
                        assert(doh_entries(s)[j] == t);
                    } else {
                        assert(doh_entries(s)[j] == rest[j - head.len()]);
                    }
                }
            },
            None => {},
        }
    }
}

} // verus!
