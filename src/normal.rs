use vstd::prelude::*;
use unic_normal::StrNormalForm;

verus! {

/// The canonical composition (Unicode Normalization Form C) of a text.
pub uninterp spec fn nfc_of(s: Seq<char>) -> Seq<char>;

/// Relies on unic_normal's `StrNormalForm::nfc` on `&str`: it yields the text
/// in Normalization Form C, which depends on the characters alone; a text in
/// that form is its own composition.
#[verifier::external_body]
fn nfc_string(s: &str) -> (r: String)
    ensures
        r@ == nfc_of(s@),
        nfc_of(r@) == r@,
{
    s.nfc().collect::<String>()
}

/// Normalizes `s` to Form C and splits it into its scalar values. The result
/// is already normalized: normalizing its text again gives it back.
pub fn get_vec_chars(s: &str) -> (r: Vec<char>)
    ensures
        r@ == nfc_of(s@),
        nfc_of(r@) == r@,
{
    let t = nfc_string(s);
    chars_of(t.as_str())
}

/// The scalar values of `t`, as they are.
pub(crate) fn chars_of(t: &str) -> (r: Vec<char>)
    ensures
        r@ == t@,
{
    let mut r: Vec<char> = Vec::new();
    for c in it: t.chars()
        invariant
            r@ == it.seq().subrange(0, it.index() as int),
    {
        r.push(c);
    }
    r
}

} // verus!
