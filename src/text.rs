use vstd::prelude::*;
use crate::model::clamped;
use crate::normal::{chars_of, get_vec_chars, nfc_of};
use crate::edit::push_vec;

verus! {

/// One end of a range of indices.
#[derive(Debug, Clone, Copy, PartialEq, Eq, Structural)]
pub enum Bound {
    Included(usize),
    Excluded(usize),
    Unbounded,
}

/// Where a range starts (an excluded start counts as its own index).
pub open spec fn bound_start(b: Bound) -> int {
    match b {
        Bound::Included(x) => x as int,
        Bound::Excluded(x) => x as int,
        Bound::Unbounded => 0,
    }
}

/// Where a range ends, exclusive, in a text of length `n`.
pub open spec fn bound_end(b: Bound, n: int) -> int {
    match b {
        Bound::Included(x) => x + 1,
        Bound::Excluded(x) => x as int,
        Bound::Unbounded => n,
    }
}

/// Relies on `String::push`: appends the character.
#[verifier::external_body]
fn push_char(buf: &mut String, c: char)
    ensures
        final(buf)@ == old(buf)@.push(c),
{
    buf.push(c);
}

/// Relies on `String::clear`: leaves the string empty.
#[verifier::external_body]
fn clear_text(buf: &mut String)
    ensures
        final(buf)@ == Seq::<char>::empty(),
{
    buf.clear();
}

/// The `len` scalar values of `s` from index `start` on, cut short where `s`
/// ends; empty when `start` is past the end. Never fails.
pub fn substring<'a>(s: &'a str, start: usize, len: usize) -> (r: &'a str)
    ensures
        r@ == clamped(s@, start as int, len as int),
        r@.len() == vstd::math::min(len as int, vstd::math::max(0, s@.len() - start)),
{
    let n = s.unicode_len();
    let a = if start < n {
        start
    } else {
        n
    };
    let b = if len < n - a {
        a + len
    } else {
        n
    };
    s.substring_char(a, b)
}

/// The part of `s` in the range from `start` to `end`, clamped as `substring`
/// does; a range that ends before it starts is empty.
pub fn slice<'a>(s: &'a str, start: Bound, end: Bound) -> (r: &'a str)
    ensures
        r@ == clamped(
            s@,
            bound_start(start),
            vstd::math::max(0, bound_end(end, s@.len() as int) - bound_start(start)),
        ),
{
    let n = s.unicode_len();
    let st = match start {
        Bound::Included(x) => x,
        Bound::Excluded(x) => x,
        Bound::Unbounded => 0,
    };
    let len = match end {
        Bound::Included(x) => if x < st {
            0
        } else if x - st == usize::MAX {
            usize::MAX
        } else {
            x - st + 1
        },
        Bound::Excluded(x) => if x < st {
            0
        } else {
            x - st
        },
        Bound::Unbounded => if n < st {
            0
        } else {
            n - st
        },
    };
    substring(s, st, len)
}

/// The text made of the scalar values of `s`.
pub fn to_string(s: &[char]) -> (r: String)
    ensures
        r@ == s@,
{
    let mut r = String::new();
    to_string_buf(s, &mut r);
    r
}

/// Clears `buf`, then fills it with the scalar values of `s`; returns it.
pub fn to_string_buf<'a>(s: &[char], buf: &'a mut String) -> (r: &'a String)
    ensures
        final(buf)@ == s@,
        r@ == s@,
{
    clear_text(buf);
    let mut k: usize = 0;
    while k < s.len()
        invariant
            k <= s@.len(),
            buf@ == s@.subrange(0, k as int),
        decreases s@.len() - k,
    {
        push_char(buf, s[k]);
        k += 1;
        assert(buf@ =~= s@.subrange(0, k as int));
    }
    assert(s@.subrange(0, s@.len() as int) =~= s@);
    buf
}

/// An owned copy of `s`.
pub fn to_vec_chars(s: &[char]) -> (r: Vec<char>)
    ensures
        r@ == s@,
{
    let mut r: Vec<char> = Vec::new();
    push_vec(&mut r, s);
    assert(r@ =~= s@);
    r
}

/// The concatenation of `parts`, in order.
pub fn join_vec(parts: &[&[char]]) -> (r: Vec<char>)
    ensures
        r@ == parts@.map_values(|x: &[char]| x@).flatten(),
{
    let mut r: Vec<char> = Vec::new();
    let mut k: usize = 0;
    while k < parts.len()
        invariant
            k <= parts@.len(),
            r@ == parts@.subrange(0, k as int).map_values(|x: &[char]| x@).flatten(),
        decreases parts@.len() - k,
    {
        let ghost views = parts@.subrange(0, k as int).map_values(|x: &[char]| x@);
        push_vec(&mut r, parts[k]);
        proof {
            views.lemma_flatten_push(parts@[k as int]@);
            assert(parts@.subrange(0, k + 1).map_values(|x: &[char]| x@) =~= views.push(
                parts@[k as int]@,
            ));
        }
        k += 1;
    }
    assert(parts@.subrange(0, parts@.len() as int) =~= parts@);
    r
}

/// The concatenation of `parts`, each normalized, in order.
pub fn join_str(parts: &[&str]) -> (r: Vec<char>)
    ensures
        r@ == parts@.map_values(|x: &str| nfc_of(x@)).flatten(),
{
    let mut r: Vec<char> = Vec::new();
    let mut k: usize = 0;
    while k < parts.len()
        invariant
            k <= parts@.len(),
            r@ == parts@.subrange(0, k as int).map_values(|x: &str| nfc_of(x@)).flatten(),
        decreases parts@.len() - k,
    {
        let ghost views = parts@.subrange(0, k as int).map_values(|x: &str| nfc_of(x@));
        let part = get_vec_chars(parts[k]);
        push_vec(&mut r, part.as_slice());
        proof {
            views.lemma_flatten_push(nfc_of(parts@[k as int]@));
            assert(parts@.subrange(0, k + 1).map_values(|x: &str| nfc_of(x@)) =~= views.push(
                nfc_of(parts@[k as int]@),
            ));
        }
        k += 1;
    }
    assert(parts@.subrange(0, parts@.len() as int) =~= parts@);
    r
}

/// Whether `a` and `b` hold the same scalar values.
pub fn eq_vec(a: &[char], b: &[char]) -> (r: bool)
    ensures
        r == (a@ == b@),
{
    if a.len() != b.len() {
        return false;
    }
    let mut k: usize = 0;
    while k < a.len()
        invariant
            k <= a@.len() == b@.len(),
            forall|j: int| 0 <= j < k ==> a@[j] == b@[j],
        decreases a@.len() - k,
    {
        if a[k] != b[k] {
            return false;
        }
        k += 1;
    }
    assert(a@ =~= b@);
    true
}

/// Whether `a` holds exactly the scalar values of the text `t` (taken as it
/// is, not normalized).
pub fn eq_str(a: &[char], t: &str) -> (r: bool)
    ensures
        r == (a@ == t@),
{
    let tv = chars_of(t);
    eq_vec(a, tv.as_slice())
}

} // verus!
