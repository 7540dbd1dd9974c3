use vstd::prelude::*;
use crate::model::{as_int, find_spec, is_white_space, trimmed_end, trimmed_start};
use crate::normal::{get_vec_chars, nfc_of};
use crate::search::find_vec;

verus! {

/// Why an edit was refused.
#[derive(Debug, Clone, Copy, PartialEq, Eq, Structural)]
pub enum EditError {
    /// The position lies at or past the end of the sequence.
    OutOfRange,
}

/// Relies on `char::is_whitespace`: true exactly for the characters with the
/// Unicode White_Space property.
#[verifier::external_body]
fn white_space(c: char) -> (r: bool)
    ensures
        r == is_white_space(c),
{
    c.is_whitespace()
}

/// Appends `p` to `s`.
pub fn push_vec(s: &mut Vec<char>, p: &[char])
    ensures
        final(s)@ == old(s)@ + p@,
{
    let mut k: usize = 0;
    while k < p.len()
        invariant
            k <= p@.len(),
            s@ == old(s)@ + p@.subrange(0, k as int),
        decreases p@.len() - k,
    {
        s.push(p[k]);
        k += 1;
        assert(s@ =~= old(s)@ + p@.subrange(0, k as int));
    }
    assert(p@.subrange(0, p@.len() as int) =~= p@);
}

/// Appends the text `p`, normalized, to `s`.
pub fn push_str(s: &mut Vec<char>, p: &str)
    ensures
        final(s)@ == old(s)@ + nfc_of(p@),
{
    let pv = get_vec_chars(p);
    push_vec(s, pv.as_slice());
}

/// Puts the text `p`, normalized, in front of `s`.
pub fn push_str_start(s: &mut Vec<char>, p: &str)
    ensures
        final(s)@ == nfc_of(p@) + old(s)@,
{
    let mut t = get_vec_chars(p);
    push_vec(&mut t, s.as_slice());
    *s = t;
}

/// Puts `other` in front of `s`.
pub fn push_vec_start(s: &mut Vec<char>, other: &[char])
    ensures
        final(s)@ == other@ + old(s)@,
{
    let mut t: Vec<char> = Vec::new();
    push_vec(&mut t, other);
    push_vec(&mut t, s.as_slice());
    *s = t;
}

/// Inserts `other` before index `at_pos` of `s`. Refused, with `s` unchanged,
/// unless `at_pos` is an index of `s` (inserting at the very end is refused).
pub fn insert_vec(s: &mut Vec<char>, other: &[char], at_pos: usize) -> (r: Result<(), EditError>)
    ensures
        r is Err <==> at_pos >= old(s)@.len(),
        r is Err ==> r == Err::<(), EditError>(EditError::OutOfRange) && final(s)@ == old(s)@,
        r is Ok ==> final(s)@ == old(s)@.subrange(0, at_pos as int) + other@ + old(s)@.subrange(
            at_pos as int,
            old(s)@.len() as int,
        ),
{
    if at_pos >= s.len() {
        return Err(EditError::OutOfRange);
    }
    let mut t: Vec<char> = Vec::new();
    push_vec(&mut t, &s.as_slice()[0..at_pos]);
    push_vec(&mut t, other);
    push_vec(&mut t, &s.as_slice()[at_pos..s.len()]);
    *s = t;
    Ok(())
}

/// `insert_vec` with the inserted part given as text, normalized.
pub fn insert_str(s: &mut Vec<char>, p: &str, at_pos: usize) -> (r: Result<(), EditError>)
    ensures
        r is Err <==> at_pos >= old(s)@.len(),
        r is Err ==> r == Err::<(), EditError>(EditError::OutOfRange) && final(s)@ == old(s)@,
        r is Ok ==> final(s)@ == old(s)@.subrange(0, at_pos as int) + nfc_of(p@) + old(
            s,
        )@.subrange(at_pos as int, old(s)@.len() as int),
{
    if at_pos >= s.len() {
        return Err(EditError::OutOfRange);
    }
    let pv = get_vec_chars(p);
    insert_vec(s, pv.as_slice(), at_pos)
}

/// Dropping a leading white-space run of length `k`, followed by a character
/// that is not white space or by the end, is what `trimmed_start` does.
proof fn lemma_trimmed_start_at(s: Seq<char>, k: int)
    requires
        0 <= k <= s.len(),
        forall|j: int| 0 <= j < k ==> is_white_space(#[trigger] s[j]),
        k == s.len() || !is_white_space(s[k]),
    ensures
        trimmed_start(s) == s.subrange(k, s.len() as int),
    decreases k,
{
    if k == 0 {
        assert(s.subrange(0, s.len() as int) =~= s);
    } else {
        let t = s.drop_first();
        assert forall|j: int| 0 <= j < k - 1 implies is_white_space(#[trigger] t[j]) by {
            assert(t[j] == s[j + 1]);
        }
        assert(k - 1 == t.len() || t[k - 1] == s[k]);
        lemma_trimmed_start_at(t, k - 1);
        assert(t.subrange(k - 1, t.len() as int) =~= s.subrange(k, s.len() as int));
    }
}

/// Removes the leading run of white space from `s`.
pub fn trim_start(s: &mut Vec<char>)
    ensures
        final(s)@ == trimmed_start(old(s)@),
{
    let n = s.len();
    let mut k: usize = 0;
    let mut going = true;
    while going && k < n
        invariant
            n == s@.len(),
            k <= n,
            forall|j: int| 0 <= j < k ==> is_white_space(#[trigger] s@[j]),
            !going ==> k < n && !is_white_space(s@[k as int]),
        decreases n - k + (if going {
            1int
        } else {
            0int
        }),
    {
        if white_space(s[k]) {
            k += 1;
        } else {
            going = false;
        }
    }
    proof {
        lemma_trimmed_start_at(s@, k as int);
    }
    if k > 0 {
        let mut t: Vec<char> = Vec::new();
        push_vec(&mut t, &s.as_slice()[k..n]);
        *s = t;
    } else {
        assert(s@.subrange(0, n as int) =~= s@);
    }
}

/// Removes the trailing run of white space from `s`.
pub fn trim_end(s: &mut Vec<char>)
    ensures
        final(s)@ == trimmed_end(old(s)@),
{
    let mut going = true;
    while going && s.len() > 0
        invariant
            trimmed_end(s@) == trimmed_end(old(s)@),
            !going ==> s@.len() > 0 && !is_white_space(s@.last()),
        decreases s@.len() + (if going {
            1int
        } else {
            0int
        }),
    {
        let n = s.len();
        if white_space(s[n - 1]) {
            s.pop();
        } else {
            going = false;
        }
    }
}

/// Removes the leading and the trailing run of white space from `s`.
pub fn trim(s: &mut Vec<char>)
    ensures
        final(s)@ == trimmed_end(trimmed_start(old(s)@)),
{
    trim_start(s);
    trim_end(s);
}

/// Replaces the first occurrence of `m` that starts between `start_pos` and
/// `end_pos` (as `find_vec` searches) by `rep`; returns where it stood, or
/// `None` with `s` unchanged.
pub fn replace_vec(s: &mut Vec<char>, m: &[char], rep: &[char], start_pos: usize, end_pos: Option<
    usize,
>) -> (r: Option<usize>)
    requires
        old(s)@.len() == 0 || start_pos < old(s)@.len(),
        old(s)@.len() == 0 || (end_pos matches Some(e) ==> start_pos <= e < old(s)@.len()),
    ensures
        as_int(r) == find_spec(old(s)@, m@, start_pos as int, end_pos),
        r is None ==> final(s)@ == old(s)@,
        r matches Some(i) ==> final(s)@ == old(s)@.subrange(0, i as int) + rep@ + old(
            s,
        )@.subrange(i + m@.len(), old(s)@.len() as int),
{
    match find_vec(s.as_slice(), m, start_pos, end_pos) {
        Some(i) => {
            let n = s.len();
            let mut t: Vec<char> = Vec::new();
            push_vec(&mut t, &s.as_slice()[0..i]);
            push_vec(&mut t, rep);
            push_vec(&mut t, &s.as_slice()[i + m.len()..n]);
            *s = t;
            Some(i)
        },
        None => None,
    }
}

/// `replace_vec` with the pattern and its replacement given as text, normalized.
pub fn replace_str(s: &mut Vec<char>, m: &str, rep: &str, start_pos: usize, end_pos: Option<
    usize,
>) -> (r: Option<usize>)
    requires
        old(s)@.len() == 0 || start_pos < old(s)@.len(),
        old(s)@.len() == 0 || (end_pos matches Some(e) ==> start_pos <= e < old(s)@.len()),
    ensures
        as_int(r) == find_spec(old(s)@, nfc_of(m@), start_pos as int, end_pos),
        r is None ==> final(s)@ == old(s)@,
        r matches Some(i) ==> final(s)@ == old(s)@.subrange(0, i as int) + nfc_of(rep@) + old(
            s,
        )@.subrange(i + nfc_of(m@).len(), old(s)@.len() as int),
{
    let mv = get_vec_chars(m);
    let rv = get_vec_chars(rep);
    replace_vec(s, mv.as_slice(), rv.as_slice(), start_pos, end_pos)
}

} // verus!
