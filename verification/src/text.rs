//! Character-level text utilities: whitespace trimming, character search,
//! and splitting source text into lines.

use vstd::prelude::*;
use vstd::string::*;

verus! {

/// The whitespace characters the dialect recognises around tokens.
pub open spec fn is_wsp(c: char) -> bool {
    c == ' ' || c == '\t' || c == '\r' || c == '\n'
}

/// The sequence with leading whitespace removed.
pub open spec fn trim_start_spec(s: Seq<char>) -> Seq<char>
    decreases s.len(),
{
    if s.len() > 0 && is_wsp(s[0]) {
        trim_start_spec(s.drop_first())
    } else {
        s
    }
}

/// The sequence with trailing whitespace removed.
pub open spec fn trim_end_spec(s: Seq<char>) -> Seq<char>
    decreases s.len(),
{
    if s.len() > 0 && is_wsp(s[s.len() - 1]) {
        trim_end_spec(s.drop_last())
    } else {
        s
    }
}

/// The sequence with surrounding whitespace removed.
pub open spec fn trim_spec(s: Seq<char>) -> Seq<char> {
    trim_end_spec(trim_start_spec(s))
}

pub proof fn lemma_trim_start_le(s: Seq<char>)
    ensures
        trim_start_spec(s).len() <= s.len(),
    decreases s.len(),
{
    if s.len() > 0 && is_wsp(s[0]) {
        lemma_trim_start_le(s.drop_first());
    }
}

pub proof fn lemma_trim_end_le(s: Seq<char>)
    ensures
        trim_end_spec(s).len() <= s.len(),
    decreases s.len(),
{
    if s.len() > 0 && is_wsp(s[s.len() - 1]) {
        lemma_trim_end_le(s.drop_last());
    }
}

pub proof fn lemma_trim_le(s: Seq<char>)
    ensures
        trim_spec(s).len() <= s.len(),
{
    lemma_trim_start_le(s);
    lemma_trim_end_le(trim_start_spec(s));
}

proof fn lemma_trim_start_at(s: Seq<char>, a: int)
    requires
        0 <= a <= s.len(),
        forall|j: int| 0 <= j < a ==> is_wsp(s[j]),
        a < s.len() ==> !is_wsp(s[a]),
    ensures
        trim_start_spec(s) == s.subrange(a, s.len() as int),
    decreases a,
{
    if a == 0 {
        assert(s.subrange(0, s.len() as int) =~= s);
    } else {
        let d = s.drop_first();
        lemma_trim_start_at(d, a - 1);
        assert(d.subrange(a - 1, d.len() as int) =~= s.subrange(a, s.len() as int));
    }
}

proof fn lemma_trim_end_at(s: Seq<char>, b: int)
    requires
        0 <= b <= s.len(),
        forall|j: int| b <= j < s.len() ==> is_wsp(s[j]),
        b > 0 ==> !is_wsp(s[b - 1]),
    ensures
        trim_end_spec(s) == s.subrange(0, b),
    decreases s.len() - b,
{
    if b == s.len() {
        if s.len() > 0 && is_wsp(s[s.len() - 1]) {
            let d = s.drop_last();
            lemma_trim_end_at(d, b - 1);
            assert(d.subrange(0, b - 1) =~= s.subrange(0, b - 1));
            assert(false);
        } else {
            assert(s.subrange(0, s.len() as int) =~= s);
        }
    } else {
        let d = s.drop_last();
        lemma_trim_end_at(d, b);
        assert(d.subrange(0, b) =~= s.subrange(0, b));
    }
}

/// Whether `c` counts as whitespace.
pub fn is_wsp_char(c: char) -> (b: bool)
    ensures
        b == is_wsp(c),
{
    c == ' ' || c == '\t' || c == '\r' || c == '\n'
}

/// Removes surrounding whitespace from a string slice.
pub fn trim_str<'a>(s: &'a str) -> (t: &'a str)
    ensures
        t@ == trim_spec(s@),
{
    let n = s.unicode_len();
    let mut a: usize = 0;
    while a < n && is_wsp_char(s.get_char(a))
        invariant
            n == s@.len(),
            0 <= a <= n,
            forall|j: int| 0 <= j < a ==> is_wsp(s@[j]),
        decreases n - a,
    {
        a = a + 1;
    }
    if a == n {
        proof {
            lemma_trim_start_at(s@, n as int);
            assert(trim_start_spec(s@) =~= Seq::<char>::empty());
            assert(trim_spec(s@) =~= s@.subrange(0, 0));
        }
        return s.substring_char(0, 0);
    }
    let mut b: usize = n;
    while b > a && is_wsp_char(s.get_char(b - 1))
        invariant
            n == s@.len(),
            0 <= a <= b <= n,
            forall|j: int| b <= j < n ==> is_wsp(s@[j]),
        decreases b,
    {
        b = b - 1;
    }
    proof {
        lemma_trim_start_at(s@, a as int);
        let m = s@.subrange(a as int, n as int);
        if b == a {
            assert(is_wsp(m[0]));
            assert(false);
        }
        lemma_trim_end_at(m, b - a);
        assert(m.subrange(0, b - a) =~= s@.subrange(a as int, b as int));
    }
    s.substring_char(a, b)
}

/// The first index at or after `from` where `c` occurs, if any.
pub open spec fn find_from(s: Seq<char>, c: char, from: int) -> Option<int>
    decreases s.len() - from,
    when 0 <= from
{
    if from >= s.len() {
        None
    } else if s[from] == c {
        Some(from)
    } else {
        find_from(s, c, from + 1)
    }
}

pub proof fn lemma_find_from(s: Seq<char>, c: char, from: int)
    requires
        0 <= from <= s.len(),
    ensures
        match find_from(s, c, from) {
            Some(i) => from <= i < s.len() && s[i] == c && forall|j: int|
                from <= j < i ==> s[j] != c,
            None => forall|j: int| from <= j < s.len() ==> s[j] != c,
        },
    decreases s.len() - from,
{
    if from < s.len() && s[from] != c {
        lemma_find_from(s, c, from + 1);
    }
}

/// Finds the first occurrence of `c` at or after index `from`.
pub fn find_char_from(s: &str, c: char, from: usize) -> (r: Option<usize>)
    requires
        from <= s@.len(),
    ensures
        match r {
            Some(i) => find_from(s@, c, from as int) == Some(i as int),
            None => find_from(s@, c, from as int) is None,
        },
{
    let n = s.unicode_len();
    let mut i: usize = from;
    while i < n
        invariant
            n == s@.len(),
            from <= i <= n,
            find_from(s@, c, from as int) == find_from(s@, c, i as int),
        decreases n - i,
    {
        if s.get_char(i) == c {
            return Some(i);
        }
        i = i + 1;
    }
    None
}

/// The lines of `s`, split at each newline character.
pub open spec fn split_lines_spec(s: Seq<char>) -> Seq<Seq<char>>
    decreases s.len(),
{
    match find_from(s, '\n', 0) {
        None => seq![s],
        Some(i) => {
            proof {
                lemma_find_from(s, '\n', 0);
            }
            seq![s.subrange(0, i)] + split_lines_spec(s.subrange(i + 1, s.len() as int))
        },
    }
}

/// The lines of `s`, each trimmed of surrounding whitespace.
pub open spec fn source_lines_spec(s: Seq<char>) -> Seq<Seq<char>> {
    split_lines_spec(s).map_values(|l: Seq<char>| trim_spec(l))
}

/// Splits source text into lines and trims each one.
pub fn source_lines(s: &str) -> (r: Vec<String>)
    ensures
        r.deep_view() == source_lines_spec(s@),
    decreases s@.len(),
{
    let n = s.unicode_len();
    match find_char_from(s, '\n', 0) {
        None => {
            let first = String::from_str(trim_str(s));
            let v = vec![first];
            proof {
                assert(v.deep_view() =~= source_lines_spec(s@));
            }
            v
        },
        Some(i) => {
            proof {
                lemma_find_from(s@, '\n', 0);
            }
            let head = trim_str(s.substring_char(0, i));
            let rest = s.substring_char(i + 1, n);
            let mut v = vec![String::from_str(head)];
            let mut tail = source_lines(rest);
            let ghost tail_dv = tail.deep_view();
            v.append(&mut tail);
            proof {
                let head_s = s@.subrange(0, i as int);
                let rest_s = s@.subrange(i + 1, n as int);
                let sl = split_lines_spec(s@);
                assert(sl == seq![head_s] + split_lines_spec(rest_s));
                assert(tail_dv == source_lines_spec(rest_s));
                assert(v@.len() == 1 + tail_dv.len());
                assert forall|k: int| 0 <= k < v@.len() implies v.deep_view()[k]
                    == source_lines_spec(s@)[k] by {
                    assert(v.deep_view()[k] == v@[k]@);
                    if k == 0 {
                        assert(v@[0]@ == trim_spec(head_s));
                        assert(sl[0] == head_s);
                    } else {
                        assert(v@[k]@ == tail_dv[k - 1]);
                        assert(tail_dv[k - 1] == trim_spec(split_lines_spec(rest_s)[k - 1]));
                        assert(sl[k] == split_lines_spec(rest_s)[k - 1]);
                    }
                }
                assert(v.deep_view() =~= source_lines_spec(s@));
            }
            v
        },
    }
}

} // verus!
