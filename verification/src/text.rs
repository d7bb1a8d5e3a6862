//! Character-level helpers for reading the settings text: whitespace,
//! trimming, ASCII case folding, and copies of character ranges.

use vstd::prelude::*;

verus! {

/// Unicode `White_Space`, the property `char::is_whitespace` tests.
pub open spec fn is_white(c: char) -> bool {
    ||| '\u{9}' <= c <= '\u{d}'
    ||| c == ' '
    ||| c == '\u{85}'
    ||| c == '\u{a0}'
    ||| c == '\u{1680}'
    ||| '\u{2000}' <= c <= '\u{200a}'
    ||| c == '\u{2028}'
    ||| c == '\u{2029}'
    ||| c == '\u{202f}'
    ||| c == '\u{205f}'
    ||| c == '\u{3000}'
}

/// Whether `c` is Unicode whitespace.
pub fn is_whitespace(c: char) -> (b: bool)
    ensures
        b == is_white(c),
{
    ('\u{9}' <= c && c <= '\u{d}') || c == ' ' || c == '\u{85}' || c == '\u{a0}' || c == '\u{1680}'
        || ('\u{2000}' <= c && c <= '\u{200a}') || c == '\u{2028}' || c == '\u{2029}' || c
        == '\u{202f}' || c == '\u{205f}' || c == '\u{3000}'
}

/// `s` without its leading whitespace.
pub open spec fn trim_start(s: Seq<char>) -> Seq<char>
    decreases s.len(),
{
    if s.len() > 0 && is_white(s[0]) {
        trim_start(s.drop_first())
    } else {
        s
    }
}

/// `s` without its trailing whitespace.
pub open spec fn trim_end(s: Seq<char>) -> Seq<char>
    decreases s.len(),
{
    if s.len() > 0 && is_white(s.last()) {
        trim_end(s.drop_last())
    } else {
        s
    }
}

/// `s` without leading and trailing whitespace, as `str::trim` gives it.
pub open spec fn trim(s: Seq<char>) -> Seq<char> {
    trim_end(trim_start(s))
}

/// ASCII `A`-`Z` folded to lower case; every other character kept.
pub open spec fn lower(c: char) -> char {
    if 'A' <= c <= 'Z' {
        ((c as int) + 32) as char
    } else {
        c
    }
}

/// `s` with ASCII upper-case letters folded, as `str::to_ascii_lowercase` gives it.
pub open spec fn ascii_lower(s: Seq<char>) -> Seq<char> {
    Seq::new(s.len(), |i: int| lower(s[i]))
}

/// The characters of `s`, in order.
pub fn chars_of(s: &str) -> (v: Vec<char>)
    ensures
        v@ == s@,
{
    let mut v: Vec<char> = Vec::new();
    for c in it: s.chars()
        invariant
            it.seq() == s@,
            v@ == s@.take(it.index() as int),
    {
        v.push(c);
    }
    v
}

/// A copy of `s[lo..hi]`.
pub fn sub_chars(s: &[char], lo: usize, hi: usize) -> (t: Vec<char>)
    requires
        lo <= hi <= s@.len(),
    ensures
        t@ == s@.subrange(lo as int, hi as int),
{
    let mut t: Vec<char> = Vec::new();
    let mut i = lo;
    while i < hi
        invariant
            lo <= i <= hi <= s@.len(),
            t@ == s@.subrange(lo as int, i as int),
        decreases hi - i,
    {
        t.push(s[i]);
        i = i + 1;
    }
    t
}

proof fn lemma_trim_start_skip(s: Seq<char>, i: int)
    requires
        0 <= i < s.len(),
        is_white(s[i]),
    ensures
        trim_start(s.subrange(i, s.len() as int)) == trim_start(s.subrange(i + 1, s.len() as int)),
{
    assert(s.subrange(i, s.len() as int).drop_first() =~= s.subrange(i + 1, s.len() as int));
}

proof fn lemma_trim_end_skip(t: Seq<char>, j: int)
    requires
        0 < j <= t.len(),
        is_white(t[j - 1]),
    ensures
        trim_end(t.subrange(0, j)) == trim_end(t.subrange(0, j - 1)),
{
    assert(t.subrange(0, j).drop_last() =~= t.subrange(0, j - 1));
}

/// `s` with leading and trailing whitespace removed.
pub fn trim_chars(s: &[char]) -> (t: Vec<char>)
    ensures
        t@ == trim(s@),
{
    let n = s.len();
    let mut lo: usize = 0;
    assert(s@.subrange(0, n as int) =~= s@);
    while lo < n && is_whitespace(s[lo])
        invariant
            n == s@.len(),
            lo <= n,
            trim_start(s@) == trim_start(s@.subrange(lo as int, n as int)),
        decreases n - lo,
    {
        proof { lemma_trim_start_skip(s@, lo as int); }
        lo = lo + 1;
    }
    let ghost u = s@.subrange(lo as int, n as int);
    assert(trim_start(s@) == u);
    let mut hi: usize = n;
    assert(u.subrange(0, u.len() as int) =~= u);
    while hi > lo && is_whitespace(s[hi - 1])
        invariant
            n == s@.len(),
            lo <= hi <= n,
            u == s@.subrange(lo as int, n as int),
            trim_end(u) == trim_end(u.subrange(0, hi - lo)),
        decreases hi,
    {
        proof { lemma_trim_end_skip(u, hi - lo); }
        hi = hi - 1;
    }
    assert(u.subrange(0, hi - lo) =~= s@.subrange(lo as int, hi as int));
    sub_chars(s, lo, hi)
}

/// `s` with ASCII upper-case letters folded to lower case.
pub fn to_ascii_lowercase(s: &[char]) -> (t: Vec<char>)
    ensures
        t@ == ascii_lower(s@),
{
    let mut t: Vec<char> = Vec::new();
    let mut i: usize = 0;
    while i < s.len()
        invariant
            i <= s@.len(),
            t@ =~= ascii_lower(s@.subrange(0, i as int)),
        decreases s@.len() - i,
    {
        let c = s[i];
        let d = if 'A' <= c && c <= 'Z' {
            ((c as u8) + 32u8) as char
        } else {
            c
        };
        t.push(d);
        i = i + 1;
    }
    assert(s@.subrange(0, s@.len() as int) =~= s@);
    t
}

/// Whether `s` holds the same characters as `w`.
pub fn same_chars(s: &[char], w: &[char]) -> (b: bool)
    ensures
        b == (s@ == w@),
{
    if s.len() != w.len() {
        return false;
    }
    let mut i: usize = 0;
    while i < s.len()
        invariant
            s@.len() == w@.len(),
            i <= s@.len(),
            forall|j: int| 0 <= j < i ==> s@[j] == w@[j],
        decreases s@.len() - i,
    {
        if s[i] != w[i] {
            return false;
        }
        i = i + 1;
    }
    assert(s@ =~= w@);
    true
}

} // verus!
