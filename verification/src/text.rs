//! Small operations on text that the HTTP layer is built from.

use vstd::prelude::*;
use vstd::string::*;

verus! {

/// The lower-case form of an ASCII capital; any other character is itself.
pub open spec fn spec_lower(c: char) -> char {
    if 'A' <= c && c <= 'Z' {
        ((c as u8) + 32) as u8 as char
    } else {
        c
    }
}

/// `s` with every ASCII capital in lower case.
pub open spec fn spec_ascii_lowercase(s: Seq<char>) -> Seq<char> {
    Seq::new(s.len(), |i: int| spec_lower(s[i]))
}

/// Calls `str::to_ascii_lowercase`: the letters 'A' to 'Z' become 'a' to
/// 'z', every other character stays.
#[verifier::external_body]
pub(crate) fn ascii_lowercase(s: &str) -> (r: String)
    ensures
        r@ == spec_ascii_lowercase(s@),
{
    s.to_ascii_lowercase()
}

/// Whether `c` is white space: the characters with the Unicode property
/// White_Space.
pub open spec fn spec_is_whitespace(c: char) -> bool {
    let u = c as u32;
    u == 0x20 || (0x09 <= u && u <= 0x0d) || u == 0x85 || u == 0xa0 || u == 0x1680 || (0x2000 <= u
        && u <= 0x200a) || u == 0x2028 || u == 0x2029 || u == 0x202f || u == 0x205f || u == 0x3000
}

pub fn is_whitespace(c: char) -> (r: bool)
    ensures
        r == spec_is_whitespace(c),
{
    let u = c as u32;
    u == 0x20 || (0x09 <= u && u <= 0x0d) || u == 0x85 || u == 0xa0 || u == 0x1680 || (0x2000 <= u
        && u <= 0x200a) || u == 0x2028 || u == 0x2029 || u == 0x202f || u == 0x205f || u == 0x3000
}

/// The first place in `s` from `from` on, and before `to`, that holds `c`;
/// `to` where there is none.
pub open spec fn spec_find(s: Seq<char>, c: char, from: int, to: int) -> int
    recommends
        0 <= from <= to <= s.len(),
    decreases to - from,
{
    if from >= to {
        to
    } else if s[from] == c {
        from
    } else {
        spec_find(s, c, from + 1, to)
    }
}

/// Any place that is in range, holds `c` and has no `c` before it is the
/// one that `spec_find` finds.
pub proof fn lemma_find_is(s: Seq<char>, c: char, from: int, to: int, at: int)
    requires
        0 <= from <= at <= to <= s.len(),
        at < to ==> s[at] == c,
        forall|i: int| from <= i < at ==> s[i] != c,
    ensures
        spec_find(s, c, from, to) == at,
    decreases to - from,
{
    if from < to && from < at {
        lemma_find_is(s, c, from + 1, to, at);
    }
}

/// The first place of `c` in `s` from `from` on and before `to`, or `to`.
pub fn find_char(s: &str, c: char, from: usize, to: usize) -> (at: usize)
    requires
        from <= to <= s@.len(),
    ensures
        at == spec_find(s@, c, from as int, to as int),
        from <= at <= to,
{
    let mut i = from;
    while i < to
        invariant
            from <= i <= to <= s@.len(),
            forall|j: int| from <= j < i ==> s@[j] != c,
        decreases to - i,
    {
        if s.get_char(i) == c {
            proof {
                lemma_find_is(s@, c, from as int, to as int, i as int);
            }
            return i;
        }
        i += 1;
    }
    proof {
        lemma_find_is(s@, c, from as int, to as int, to as int);
    }
    to
}

/// Where the text of `s` starts once leading white space is left out: the
/// first place that holds none, or the length.
pub open spec fn spec_trim_start(s: Seq<char>) -> int
    decreases s.len(),
{
    if s.len() == 0 || !spec_is_whitespace(s[0]) {
        0
    } else {
        1 + spec_trim_start(s.subrange(1, s.len() as int))
    }
}

/// Where the text of `s` ends once trailing white space is left out.
pub open spec fn spec_trim_end(s: Seq<char>) -> int
    decreases s.len(),
{
    if s.len() == 0 || !spec_is_whitespace(s.last()) {
        s.len() as int
    } else {
        spec_trim_end(s.drop_last())
    }
}

/// `s` without the white space at its start and at its end.
pub open spec fn spec_trim(s: Seq<char>) -> Seq<char> {
    if spec_trim_start(s) >= spec_trim_end(s) {
        Seq::empty()
    } else {
        s.subrange(spec_trim_start(s), spec_trim_end(s))
    }
}

proof fn lemma_trim_start_is(s: Seq<char>, at: int)
    requires
        0 <= at <= s.len(),
        forall|i: int| 0 <= i < at ==> spec_is_whitespace(s[i]),
        at < s.len() ==> !spec_is_whitespace(s[at]),
    ensures
        spec_trim_start(s) == at,
    decreases s.len(),
{
    if s.len() == 0 || !spec_is_whitespace(s[0]) {
    } else {
        let rest = s.subrange(1, s.len() as int);
        assert forall|i: int| 0 <= i < at - 1 implies spec_is_whitespace(rest[i]) by {
            assert(rest[i] == s[i + 1]);
        }
        lemma_trim_start_is(rest, at - 1);
    }
}

proof fn lemma_trim_end_is(s: Seq<char>, at: int)
    requires
        0 <= at <= s.len(),
        forall|i: int| at <= i < s.len() ==> spec_is_whitespace(s[i]),
        at > 0 ==> !spec_is_whitespace(s[at - 1]),
    ensures
        spec_trim_end(s) == at,
    decreases s.len(),
{
    if s.len() == 0 || !spec_is_whitespace(s.last()) {
    } else {
        let rest = s.drop_last();
        lemma_trim_end_is(rest, at);
    }
}

/// `s` without the white space at its start and at its end.
pub fn trim(s: &str) -> (r: &str)
    ensures
        r@ == spec_trim(s@),
{
    let n = s.unicode_len();
    let mut start: usize = 0;
    while start < n && is_whitespace(s.get_char(start))
        invariant
            start <= n,
            n == s@.len(),
            forall|i: int| 0 <= i < start ==> spec_is_whitespace(s@[i]),
        decreases n - start,
    {
        start += 1;
    }
    let mut end: usize = n;
    while end > 0 && is_whitespace(s.get_char(end - 1))
        invariant
            end <= n,
            n == s@.len(),
            forall|i: int| end <= i < n ==> spec_is_whitespace(s@[i]),
        decreases end,
    {
        end -= 1;
    }
    proof {
        lemma_trim_start_is(s@, start as int);
        lemma_trim_end_is(s@, end as int);
    }
    if start >= end {
        let r = s.substring_char(0, 0);
        assert(r@ =~= Seq::<char>::empty());
        r
    } else {
        s.substring_char(start, end)
    }
}


/// The first place in `s` from `from` on, and before `to`, that holds `a` or
/// `b`; `to` where there is none.
pub open spec fn spec_find_either(s: Seq<char>, a: char, b: char, from: int, to: int) -> int
    recommends
        0 <= from <= to <= s.len(),
    decreases to - from,
{
    if from >= to {
        to
    } else if s[from] == a || s[from] == b {
        from
    } else {
        spec_find_either(s, a, b, from + 1, to)
    }
}

/// Any place that is in range, holds one of the two and has neither before
/// it is the one that `spec_find_either` finds.
pub proof fn lemma_find_either_is(s: Seq<char>, a: char, b: char, from: int, to: int, at: int)
    requires
        0 <= from <= at <= to <= s.len(),
        at < to ==> s[at] == a || s[at] == b,
        forall|i: int| from <= i < at ==> s[i] != a && s[i] != b,
    ensures
        spec_find_either(s, a, b, from, to) == at,
    decreases to - from,
{
    if from < to && from < at {
        lemma_find_either_is(s, a, b, from + 1, to, at);
    }
}

/// The first place of `a` or `b` in `s` from `from` on and before `to`, or
/// `to`.
pub fn find_either(s: &str, a: char, b: char, from: usize, to: usize) -> (at: usize)
    requires
        from <= to <= s@.len(),
    ensures
        at == spec_find_either(s@, a, b, from as int, to as int),
        from <= at <= to,
{
    let mut i = from;
    while i < to
        invariant
            from <= i <= to <= s@.len(),
            forall|j: int| from <= j < i ==> s@[j] != a && s@[j] != b,
        decreases to - i,
    {
        let c = s.get_char(i);
        if c == a || c == b {
            proof {
                lemma_find_either_is(s@, a, b, from as int, to as int, i as int);
            }
            return i;
        }
        i += 1;
    }
    proof {
        lemma_find_either_is(s@, a, b, from as int, to as int, to as int);
    }
    to
}

/// Whether `s` starts with `prefix`.
pub open spec fn spec_starts_with(s: Seq<char>, prefix: Seq<char>) -> bool {
    prefix.len() <= s.len() && s.subrange(0, prefix.len() as int) == prefix
}

/// Whether `s` starts with `prefix`.
pub fn starts_with(s: &str, prefix: &str) -> (r: bool)
    ensures
        r == spec_starts_with(s@, prefix@),
{
    let n = s.unicode_len();
    let m = prefix.unicode_len();
    if m > n {
        return false;
    }
    let mut i: usize = 0;
    while i < m
        invariant
            i <= m <= n,
            n == s@.len(),
            m == prefix@.len(),
            forall|j: int| 0 <= j < i ==> s@[j] == prefix@[j],
        decreases m - i,
    {
        if s.get_char(i) != prefix.get_char(i) {
            assert(s@.subrange(0, m as int)[i as int] != prefix@[i as int]);
            return false;
        }
        i += 1;
    }
    assert(s@.subrange(0, m as int) =~= prefix@);
    true
}

/// Whether two texts are the same.
pub fn same_text(a: &str, b: &str) -> (r: bool)
    ensures
        r == (a@ == b@),
{
    let n = a.unicode_len();
    if n != b.unicode_len() {
        return false;
    }
    let mut i: usize = 0;
    while i < n
        invariant
            i <= n,
            n == a@.len(),
            n == b@.len(),
            forall|j: int| 0 <= j < i ==> a@[j] == b@[j],
        decreases n - i,
    {
        if a.get_char(i) != b.get_char(i) {
            return false;
        }
        i += 1;
    }
    assert(a@ =~= b@);
    true
}

} // verus!
