use vstd::prelude::*;
use crate::model::{as_int, find_spec, first_from, matches_at};
use crate::normal::{get_vec_chars, nfc_of};

verus! {

/// Scanning past indices where `p` does not occur leaves the first match unchanged.
pub proof fn lemma_first_from_skip(s: Seq<char>, p: Seq<char>, a: int, b: int)
    requires
        0 <= a <= b,
        forall|j: int| a <= j < b ==> !matches_at(s, p, j),
    ensures
        first_from(s, p, a) == first_from(s, p, b),
    decreases b - a,
{
    if a < b {
        if p.len() > 0 && a + p.len() <= s.len() {
            lemma_first_from_skip(s, p, a + 1, b);
        }
    }
}

/// What `first_from` finds is a match, and the earliest one; when it finds
/// nothing, `p` occurs nowhere from `i` on.
pub proof fn lemma_first_from(s: Seq<char>, p: Seq<char>, i: int)
    requires
        0 <= i,
    ensures
        first_from(s, p, i) matches Some(j) ==> i <= j && matches_at(s, p, j) && forall|k: int|
            i <= k < j ==> !matches_at(s, p, k),
        first_from(s, p, i) is None && p.len() > 0 ==> forall|k: int|
            i <= k ==> !matches_at(s, p, k),
    decreases s.len() - i,
{
    if p.len() > 0 && i + p.len() <= s.len() && !matches_at(s, p, i) {
        lemma_first_from(s, p, i + 1);
        assert forall|k: int| i <= k < i + 1 implies !matches_at(s, p, k) by {}
    }
}

/// A search over the whole of `s` from its start returns the index of an
/// occurrence of `p`, and no earlier index holds one.
pub proof fn lemma_find_is_first(s: Seq<char>, p: Seq<char>)
    ensures
        find_spec(s, p, 0, None) matches Some(i) ==> s.subrange(i, i + p.len()) == p && forall|j: int|
            0 <= j < i && j + p.len() <= s.len() ==> #[trigger] s.subrange(j, j + p.len()) != p,
{
    lemma_first_from(s, p, 0);
    if let Some(i) = find_spec(s, p, 0, None) {
        assert forall|j: int| 0 <= j < i && j + p.len() <= s.len() implies #[trigger] s.subrange(
            j,
            j + p.len(),
        ) != p by {
            assert(!matches_at(s, p, j));
        }
    }
}

/// An empty pattern is found nowhere.
pub proof fn lemma_find_empty_pattern(s: Seq<char>, start: int, end: Option<usize>)
    ensures
        find_spec(s, Seq::empty(), start, end) is None,
{
}

/// Whether `p` occurs in `s` at index `i`.
fn matches_here(s: &[char], p: &[char], i: usize) -> (r: bool)
    requires
        i + p@.len() <= s@.len(),
    ensures
        r == matches_at(s@, p@, i as int),
{
    let n = s.len();
    let mut k: usize = 0;
    while k < p.len()
        invariant
            k <= p@.len(),
            i + p@.len() <= s@.len() == n,
            forall|t: int| 0 <= t < k ==> s@[i + t] == p@[t],
        decreases p@.len() - k,
    {
        if s[i + k] != p[k] {
            assert(s@.subrange(i as int, i + p@.len())[k as int] != p@[k as int]);
            return false;
        }
        k += 1;
    }
    assert(s@.subrange(i as int, i + p@.len()) =~= p@);
    true
}

/// Searches `s` for `p`, starting at `start_pos` and ending at `end_pos`
/// (inclusive; the last index when `None`); returns the earliest index where
/// `p` occurs. An empty `s` or an empty `p` gives `None`.
pub fn find_vec(s: &[char], p: &[char], start_pos: usize, end_pos: Option<usize>) -> (r: Option<
    usize,
>)
    requires
        s@.len() == 0 || start_pos < s@.len(),
        s@.len() == 0 || (end_pos matches Some(e) ==> start_pos <= e < s@.len()),
    ensures
        as_int(r) == find_spec(s@, p@, start_pos as int, end_pos),
        p@.len() == 0 ==> r is None,
        r matches Some(i) ==> start_pos <= i && matches_at(s@, p@, i as int),
{
    proof {
        lemma_first_from(s@, p@, start_pos as int);
    }
    let n = s.len();
    if n == 0 {
        return None;
    }
    let last = match end_pos {
        Some(v) => v,
        None => s.len() - 1,
    };
    if p.len() == 0 {
        return None;
    }
    if p.len() > s.len() - start_pos {
        return None;
    }
    let stop = if last < s.len() - p.len() {
        last
    } else {
        s.len() - p.len()
    };
    let mut i = start_pos;
    while i <= stop
        invariant
            start_pos <= i <= stop + 1,
            stop + p@.len() <= s@.len(),
            stop <= last < s@.len() == n,
            p@.len() > 0,
            last as int == (match end_pos {
                Some(e) => e as int,
                None => s@.len() - 1,
            }),
            forall|j: int| start_pos <= j < i ==> !matches_at(s@, p@, j),
        decreases stop + 1 - i,
    {
        if matches_here(s, p, i) {
            proof {
                lemma_first_from_skip(s@, p@, start_pos as int, i as int);
                assert(first_from(s@, p@, i as int) == Some(i as int));
            }
            return Some(i);
        }
        i += 1;
    }
    proof {
        lemma_first_from_skip(s@, p@, start_pos as int, i as int);
        lemma_first_from(s@, p@, i as int);
    }
    None
}

/// `find_vec` with the pattern given as text, normalized first.
pub fn find_str(s: &[char], p: &str, start_pos: usize, end_pos: Option<usize>) -> (r: Option<usize>)
    requires
        s@.len() == 0 || start_pos < s@.len(),
        s@.len() == 0 || (end_pos matches Some(e) ==> start_pos <= e < s@.len()),
    ensures
        as_int(r) == find_spec(s@, nfc_of(p@), start_pos as int, end_pos),
{
    let pv = get_vec_chars(p);
    find_vec(s, pv.as_slice(), start_pos, end_pos)
}

/// Whether `p` occurs anywhere in `s`.
pub fn contains_vec(s: &[char], p: &[char]) -> (r: bool)
    ensures
        r == find_spec(s@, p@, 0, None) is Some,
        r == (p@.len() > 0 && exists|i: int| matches_at(s@, p@, i)),
{
    proof {
        lemma_first_from(s@, p@, 0);
    }
    find_vec(s, p, 0, None).is_some()
}

/// `contains_vec` with the pattern given as text, normalized first.
pub fn contains_str(s: &[char], p: &str) -> (r: bool)
    ensures
        r == find_spec(s@, nfc_of(p@), 0, None) is Some,
{
    let pv = get_vec_chars(p);
    contains_vec(s, pv.as_slice())
}

/// Whether `s` begins with `p`.
pub fn start_with_vec(s: &[char], p: &[char]) -> (r: bool)
    ensures
        r == (p@.len() <= s@.len() && s@.subrange(0, p@.len() as int) == p@),
{
    if p.len() > s.len() {
        return false;
    }
    matches_here(s, p, 0)
}

/// `start_with_vec` with the pattern given as text, normalized first.
pub fn start_with_str(s: &[char], p: &str) -> (r: bool)
    ensures
        r == (nfc_of(p@).len() <= s@.len() && s@.subrange(0, nfc_of(p@).len() as int) == nfc_of(
            p@,
        )),
{
    let pv = get_vec_chars(p);
    start_with_vec(s, pv.as_slice())
}

/// Whether `s` ends with `p`.
pub fn ends_with_vec(s: &[char], p: &[char]) -> (r: bool)
    ensures
        r == (p@.len() <= s@.len() && s@.subrange(s@.len() - p@.len(), s@.len() as int) == p@),
{
    if p.len() > s.len() {
        return false;
    }
    matches_here(s, p, s.len() - p.len())
}

/// `ends_with_vec` with the pattern given as text, normalized first.
pub fn ends_with_str(s: &[char], p: &str) -> (r: bool)
    ensures
        r == (nfc_of(p@).len() <= s@.len() && s@.subrange(
            s@.len() - nfc_of(p@).len(),
            s@.len() as int,
        ) == nfc_of(p@)),
{
    let pv = get_vec_chars(p);
    ends_with_vec(s, pv.as_slice())
}

} // verus!
