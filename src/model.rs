use vstd::prelude::*;

verus! {

/// `p` occurs in `s` starting at index `i`.
pub open spec fn matches_at(s: Seq<char>, p: Seq<char>, i: int) -> bool {
    0 <= i && i + p.len() <= s.len() && s.subrange(i, i + p.len()) == p
}

/// The first index at or after `i` where `p` occurs in `s`.
/// An empty pattern occurs nowhere.
pub open spec fn first_from(s: Seq<char>, p: Seq<char>, i: int) -> Option<int>
    decreases s.len() - i,
{
    if p.len() == 0 || i < 0 || i + p.len() > s.len() {
        None
    } else if matches_at(s, p, i) {
        Some(i)
    } else {
        first_from(s, p, i + 1)
    }
}

/// What a search of `p` in `s` from `start` up to `end` (inclusive; the last
/// index when absent) finds: the earliest occurrence starting in that window.
pub open spec fn find_spec(s: Seq<char>, p: Seq<char>, start: int, end: Option<usize>) -> Option<int> {
    let last = match end {
        Some(e) => e as int,
        None => s.len() - 1,
    };
    if s.len() == 0 {
        None
    } else {
        match first_from(s, p, start) {
            Some(i) => if i <= last {
                Some(i)
            } else {
                None
            },
            None => None,
        }
    }
}

/// Number of non-overlapping occurrences of `p` in `s` from `i` on, each one
/// searched for right after the end of the one before.
pub open spec fn match_count(s: Seq<char>, p: Seq<char>, i: int) -> nat
    decreases s.len() - i,
{
    if p.len() == 0 || i < 0 || i + p.len() > s.len() {
        0
    } else if matches_at(s, p, i) {
        1 + match_count(s, p, i + p.len())
    } else {
        match_count(s, p, i + 1)
    }
}

/// `s` from `i` on with each non-overlapping occurrence of `p` replaced by `r`.
pub open spec fn replaced(s: Seq<char>, p: Seq<char>, r: Seq<char>, i: int) -> Seq<char>
    decreases s.len() - i,
{
    if p.len() == 0 || i < 0 || i + p.len() > s.len() {
        s.subrange(i, s.len() as int)
    } else if matches_at(s, p, i) {
        r + replaced(s, p, r, i + p.len())
    } else {
        seq![s[i]] + replaced(s, p, r, i + 1)
    }
}

/// `[x]` when `x` is not empty, else nothing.
pub open spec fn piece(x: Seq<char>) -> Seq<Seq<char>> {
    if x.len() == 0 {
        Seq::empty()
    } else {
        seq![x]
    }
}

/// The non-empty spans of `s` between occurrences of `p`, scanning from `i`
/// with the current span starting at `seg`.
pub open spec fn pieces(s: Seq<char>, p: Seq<char>, i: int, seg: int) -> Seq<Seq<char>>
    decreases s.len() - i,
{
    if p.len() == 0 || i < 0 || i + p.len() > s.len() {
        piece(s.subrange(seg, s.len() as int))
    } else if matches_at(s, p, i) {
        piece(s.subrange(seg, i)) + pieces(s, p, i + p.len(), i + p.len())
    } else {
        pieces(s, p, i + 1, seg)
    }
}

/// `s` split at the occurrences of `d`, empty spans left out; nothing at all
/// when `d` does not occur.
pub open spec fn split_spec(s: Seq<char>, d: Seq<char>) -> Seq<Seq<char>> {
    if match_count(s, d, 0) == 0 {
        Seq::empty()
    } else {
        pieces(s, d, 0, 0)
    }
}

/// The Unicode White_Space property (PropList.txt).
pub open spec fn is_white_space(c: char) -> bool {
    let u = c as u32;
    (0x9 <= u && u <= 0xd) || u == 0x20 || u == 0x85 || u == 0xa0 || u == 0x1680
        || (0x2000 <= u && u <= 0x200a) || u == 0x2028 || u == 0x2029 || u == 0x202f
        || u == 0x205f || u == 0x3000
}

/// `s` without its leading run of white space.
pub open spec fn trimmed_start(s: Seq<char>) -> Seq<char>
    decreases s.len(),
{
    if s.len() > 0 && is_white_space(s[0]) {
        trimmed_start(s.drop_first())
    } else {
        s
    }
}

/// `s` without its trailing run of white space.
pub open spec fn trimmed_end(s: Seq<char>) -> Seq<char>
    decreases s.len(),
{
    if s.len() > 0 && is_white_space(s.last()) {
        trimmed_end(s.drop_last())
    } else {
        s
    }
}

/// The part of `s` that starts at `start` and runs for `len` values, cut
/// short at both ends to what `s` holds.
pub open spec fn clamped(s: Seq<char>, start: int, len: int) -> Seq<char> {
    let a = if start < s.len() {
        start
    } else {
        s.len() as int
    };
    let b = if a + len < s.len() {
        a + len
    } else {
        s.len() as int
    };
    s.subrange(a, b)
}


/// An index result read as an integer.
pub open spec fn as_int(r: Option<usize>) -> Option<int> {
    match r {
        Some(i) => Some(i as int),
        None => None,
    }
}


/// One substitution step: every occurrence of `p` in `t` replaced by `r`;
/// `t` itself when `p` does not occur.
pub open spec fn substituted(t: Seq<char>, p: Seq<char>, r: Seq<char>) -> Seq<char> {
    if match_count(t, p, 0) == 0 {
        t
    } else {
        replaced(t, p, r, 0)
    }
}

/// `s` after the first `k` pattern/replacement pairs were applied, in order,
/// each to the text that the ones before it left.
pub open spec fn mapped(s: Seq<char>, pairs: Seq<(Seq<char>, Seq<char>)>, k: int) -> Seq<char>
    decreases k,
{
    if k <= 0 {
        s
    } else {
        substituted(mapped(s, pairs, k - 1), pairs[k - 1].0, pairs[k - 1].1)
    }
}

} // verus!
