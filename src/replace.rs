use vstd::prelude::*;
use crate::model::{
    find_spec, first_from, mapped, match_count, matches_at, piece, pieces, replaced, split_spec,
    substituted,
};
use crate::normal::{get_vec_chars, nfc_of};
use crate::search::{find_vec, lemma_first_from};
use crate::edit::push_vec;

verus! {

/// One step of the non-overlapping scan from `a`: the count and the replaced
/// text continue right after the first occurrence, or end when there is none.
pub proof fn lemma_scan_step(s: Seq<char>, p: Seq<char>, r: Seq<char>, a: int)
    requires
        0 <= a <= s.len(),
        p.len() > 0,
    ensures
        first_from(s, p, a) matches Some(i) ==> {
            &&& match_count(s, p, a) == 1 + match_count(s, p, i + p.len())
            &&& replaced(s, p, r, a) == s.subrange(a, i) + r + replaced(s, p, r, i + p.len())
        },
        first_from(s, p, a) is None ==> {
            &&& match_count(s, p, a) == 0
            &&& replaced(s, p, r, a) == s.subrange(a, s.len() as int)
        },
    decreases s.len() - a,
{
    if a + p.len() > s.len() {
    } else if matches_at(s, p, a) {
        assert(s.subrange(a, a) + r + replaced(s, p, r, a + p.len()) =~= r + replaced(
            s,
            p,
            r,
            a + p.len(),
        ));
    } else {
        lemma_scan_step(s, p, r, a + 1);
        lemma_first_from(s, p, a + 1);
        if let Some(i) = first_from(s, p, a) {
            assert(seq![s[a]] + (s.subrange(a + 1, i) + r + replaced(s, p, r, i + p.len()))
                =~= s.subrange(a, i) + r + replaced(s, p, r, i + p.len()));
        } else {
            assert(seq![s[a]] + s.subrange(a + 1, s.len() as int) =~= s.subrange(
                a,
                s.len() as int,
            ));
        }
    }
}

/// One step of the split scan from `a`, with the current span starting at `seg`.
pub proof fn lemma_pieces_step(s: Seq<char>, p: Seq<char>, a: int, seg: int)
    requires
        0 <= seg <= a <= s.len(),
        p.len() > 0,
    ensures
        first_from(s, p, a) matches Some(i) ==> pieces(s, p, a, seg) == piece(s.subrange(seg, i))
            + pieces(s, p, i + p.len(), i + p.len()),
        first_from(s, p, a) is None ==> pieces(s, p, a, seg) == piece(
            s.subrange(seg, s.len() as int),
        ),
    decreases s.len() - a,
{
    if a + p.len() > s.len() {
    } else if matches_at(s, p, a) {
    } else {
        lemma_pieces_step(s, p, a + 1, seg);
    }
}

/// The count never exceeds the length that is left to scan.
pub proof fn lemma_count_bound(s: Seq<char>, p: Seq<char>, a: int)
    requires
        0 <= a <= s.len(),
    ensures
        match_count(s, p, a) <= s.len() - a,
    decreases s.len() - a,
{
    if p.len() == 0 || a + p.len() > s.len() {
    } else if matches_at(s, p, a) {
        lemma_count_bound(s, p, a + p.len());
    } else {
        lemma_count_bound(s, p, a + 1);
    }
}

/// Every span that the split scan yields is non-empty.
pub proof fn lemma_pieces_non_empty(s: Seq<char>, p: Seq<char>, a: int, seg: int)
    requires
        0 <= seg <= a <= s.len(),
    ensures
        forall|k: int| 0 <= k < pieces(s, p, a, seg).len() ==> #[trigger] pieces(s, p, a, seg)[k].len()
            > 0,
    decreases s.len() - a,
{
    if p.len() == 0 || a + p.len() > s.len() {
        let x = piece(s.subrange(seg, s.len() as int));
        assert(pieces(s, p, a, seg) == x);
        assert forall|k: int| 0 <= k < x.len() implies #[trigger] x[k].len() > 0 by {}
    } else if matches_at(s, p, a) {
        lemma_pieces_non_empty(s, p, a + p.len(), a + p.len());
        let x = piece(s.subrange(seg, a));
        let y = pieces(s, p, a + p.len(), a + p.len());
        assert(pieces(s, p, a, seg) == x + y);
        assert forall|k: int| 0 <= k < (x + y).len() implies #[trigger] (x + y)[k].len() > 0 by {
            if k >= x.len() {
                assert((x + y)[k] == y[k - x.len()]);
            } else {
                assert((x + y)[k] == x[k]);
            }
        }
    } else {
        lemma_pieces_non_empty(s, p, a + 1, seg);
        assert(pieces(s, p, a, seg) == pieces(s, p, a + 1, seg));
    }
}

/// A replace-all finds nothing exactly when the pattern is not contained in
/// the text; otherwise its count is that of repeated searches, each starting
/// right after the end of the previous match.
pub proof fn lemma_replace_all_count(s: Seq<char>, p: Seq<char>, a: int)
    requires
        0 <= a <= s.len(),
    ensures
        (match_count(s, p, 0) == 0) <==> find_spec(s, p, 0, None) is None,
        a < s.len() ==> (find_spec(s, p, a, None) matches Some(i) ==> match_count(s, p, a) == 1
            + match_count(s, p, i + p.len())),
        find_spec(s, p, a, None) is None ==> match_count(s, p, a) == 0,
{
    lemma_first_from(s, p, 0);
    lemma_first_from(s, p, a);
    if p.len() > 0 {
        lemma_scan_step(s, p, Seq::empty(), 0);
        lemma_scan_step(s, p, Seq::empty(), a);
    }
}

/// Replaces every non-overlapping occurrence of `p` in `s` by `rep`, scanning
/// from the start. Returns the number of replacements, or `None` (with `s`
/// unchanged) when `p` does not occur.
pub fn replace_vec_all(s: &mut Vec<char>, p: &[char], rep: &[char]) -> (r: Option<usize>)
    ensures
        r is None <==> match_count(old(s)@, p@, 0) == 0,
        r is None ==> final(s)@ == old(s)@,
        r matches Some(c) ==> c == match_count(old(s)@, p@, 0) && final(s)@ == replaced(
            old(s)@,
            p@,
            rep@,
            0,
        ),
{
    if p.len() == 0 {
        return None;
    }
    let ghost s0 = s@;
    proof {
        lemma_count_bound(s0, p@, 0);
    }
    let src: &[char] = s.as_slice();
    let n = src.len();
    let mut out: Vec<char> = Vec::new();
    let mut next: usize = 0;
    let mut count: usize = 0;
    let mut done = false;
    while !done && next < n
        invariant
            src@ == s0,
            n == s0.len(),
            next <= n,
            p@.len() > 0,
            match_count(s0, p@, 0) <= n,
            out@ + replaced(s0, p@, rep@, next as int) == replaced(s0, p@, rep@, 0),
            count + match_count(s0, p@, next as int) == match_count(s0, p@, 0),
            done ==> first_from(s0, p@, next as int) is None,
        decreases n - next + (if done {
            0int
        } else {
            1int
        }),
    {
        proof {
            lemma_scan_step(s0, p@, rep@, next as int);
            lemma_first_from(s0, p@, next as int);
        }
        match find_vec(src, p, next, None) {
            Some(i) => {
                let ghost before = out@;
                push_vec(&mut out, &src[next..i]);
                push_vec(&mut out, rep);
                assert(out@ + replaced(s0, p@, rep@, i + p@.len()) =~= before + replaced(
                    s0,
                    p@,
                    rep@,
                    next as int,
                ));
                count = count + 1;
                next = i + p.len();
            },
            None => {
                done = true;
            },
        }
    }
    proof {
        lemma_scan_step(s0, p@, rep@, next as int);
    }
    if count == 0 {
        return None;
    }
    push_vec(&mut out, &src[next..n]);
    assert(out@ =~= replaced(s0, p@, rep@, 0));
    *s = out;
    Some(count)
}

/// The non-empty spans of `s` between non-overlapping occurrences of `d`, in
/// order; empty when `d` does not occur.
pub fn split_vec<'a>(s: &'a [char], d: &[char]) -> (r: Vec<&'a [char]>)
    ensures
        r@.map_values(|x: &[char]| x@) == split_spec(s@, d@),
        find_spec(s@, d@, 0, None) is None ==> r@.len() == 0,
        forall|k: int| 0 <= k < r@.len() ==> #[trigger] r@[k]@.len() > 0,
{
    let mut out: Vec<&'a [char]> = Vec::new();
    proof {
        lemma_replace_all_count(s@, d@, 0);
        lemma_pieces_non_empty(s@, d@, 0, 0);
    }
    if d.len() == 0 {
        return out;
    }
    let n = s.len();
    let mut next: usize = 0;
    let mut found = false;
    let mut done = false;
    while !done && next < n
        invariant
            n == s@.len(),
            next <= n,
            d@.len() > 0,
            out@.map_values(|x: &[char]| x@) + pieces(s@, d@, next as int, next as int) == pieces(
                s@,
                d@,
                0,
                0,
            ),
            found ==> match_count(s@, d@, 0) > 0,
            !found ==> match_count(s@, d@, 0) == match_count(s@, d@, next as int),
            done ==> first_from(s@, d@, next as int) is None,
        decreases n - next + (if done {
            0int
        } else {
            1int
        }),
    {
        proof {
            lemma_scan_step(s@, d@, Seq::empty(), next as int);
            lemma_pieces_step(s@, d@, next as int, next as int);
            lemma_first_from(s@, d@, next as int);
        }
        match find_vec(s, d, next, None) {
            Some(i) => {
                let ghost before = out@.map_values(|x: &[char]| x@);
                let part = &s[next..i];
                if part.len() > 0 {
                    out.push(part);
                }
                assert(out@.map_values(|x: &[char]| x@) =~= before + piece(
                    s@.subrange(next as int, i as int),
                ));
                found = true;
                next = i + d.len();
            },
            None => {
                done = true;
            },
        }
    }
    proof {
        lemma_scan_step(s@, d@, Seq::empty(), next as int);
        lemma_pieces_step(s@, d@, next as int, next as int);
    }
    if !found {
        return Vec::new();
    }
    let ghost before = out@.map_values(|x: &[char]| x@);
    let part = &s[next..n];
    if part.len() > 0 {
        out.push(part);
    }
    assert(out@.map_values(|x: &[char]| x@) =~= before + piece(s@.subrange(next as int, n as int)));
    assert forall|k: int| 0 <= k < out@.len() implies #[trigger] out@[k]@.len() > 0 by {
        assert(out@.map_values(|x: &[char]| x@)[k] == out@[k]@);
    }
    out
}

/// `replace_vec_all` with the pattern and its replacement given as text, normalized.
pub fn replace_str_all(s: &mut Vec<char>, p: &str, rep: &str) -> (r: Option<usize>)
    ensures
        r is None <==> match_count(old(s)@, nfc_of(p@), 0) == 0,
        r is None ==> final(s)@ == old(s)@,
        r matches Some(c) ==> c == match_count(old(s)@, nfc_of(p@), 0) && final(s)@ == replaced(
            old(s)@,
            nfc_of(p@),
            nfc_of(rep@),
            0,
        ),
{
    let pv = get_vec_chars(p);
    let rv = get_vec_chars(rep);
    replace_vec_all(s, pv.as_slice(), rv.as_slice())
}

/// `split_vec` with the delimiter given as text, normalized.
pub fn split_str<'a>(s: &'a [char], d: &str) -> (r: Vec<&'a [char]>)
    ensures
        r@.map_values(|x: &[char]| x@) == split_spec(s@, nfc_of(d@)),
{
    let dv = get_vec_chars(d);
    split_vec(s, dv.as_slice())
}

/// The pairs as sequences of scalar values.
pub open spec fn pair_views(pairs: Seq<(Vec<char>, Vec<char>)>) -> Seq<(Seq<char>, Seq<char>)> {
    pairs.map_values(|x: (Vec<char>, Vec<char>)| (x.0@, x.1@))
}

/// Applies each pattern/replacement pair in order with `replace_vec_all`,
/// each to the text the pairs before it left; returns, for each pair, how many
/// replacements it made (0 when its pattern did not occur).
pub fn map_vec(s: &mut Vec<char>, pairs: &[(Vec<char>, Vec<char>)]) -> (r: Vec<usize>)
    ensures
        final(s)@ == mapped(old(s)@, pair_views(pairs@), pairs@.len() as int),
        r@.len() == pairs@.len(),
        forall|k: int|
            0 <= k < pairs@.len() ==> #[trigger] r@[k] == match_count(
                mapped(old(s)@, pair_views(pairs@), k),
                pairs@[k].0@,
                0,
            ),
{
    let ghost pv = pair_views(pairs@);
    let mut counts: Vec<usize> = Vec::new();
    let mut k: usize = 0;
    while k < pairs.len()
        invariant
            k <= pairs@.len(),
            pv == pair_views(pairs@),
            s@ == mapped(old(s)@, pv, k as int),
            counts@.len() == k,
            forall|j: int|
                0 <= j < k ==> #[trigger] counts@[j] == match_count(
                    mapped(old(s)@, pv, j),
                    pairs@[j].0@,
                    0,
                ),
        decreases pairs@.len() - k,
    {
        let pair = &pairs[k];
        let c = match replace_vec_all(s, pair.0.as_slice(), pair.1.as_slice()) {
            Some(c) => c,
            None => 0,
        };
        assert(pv[k as int] == (pair.0@, pair.1@));
        assert(s@ == substituted(mapped(old(s)@, pv, k as int), pair.0@, pair.1@));
        counts.push(c);
        k += 1;
    }
    counts
}

/// The pairs normalized, as sequences of scalar values.
pub open spec fn normalized_pairs(pairs: Seq<(&str, &str)>) -> Seq<(Seq<char>, Seq<char>)> {
    pairs.map_values(|x: (&str, &str)| (nfc_of(x.0@), nfc_of(x.1@)))
}

/// `map_vec` with the pairs given as text, normalized; the report pairs each
/// pattern, as given, with its count.
pub fn map_str(s: &mut Vec<char>, pairs: &[(&str, &str)]) -> (r: Vec<(String, usize)>)
    ensures
        final(s)@ == mapped(old(s)@, normalized_pairs(pairs@), pairs@.len() as int),
        r@.len() == pairs@.len(),
        forall|k: int|
            0 <= k < pairs@.len() ==> (#[trigger] r@[k]).0@ == pairs@[k].0@ && r@[k].1
                == match_count(
                mapped(old(s)@, normalized_pairs(pairs@), k),
                nfc_of(pairs@[k].0@),
                0,
            ),
{
    let mut norm: Vec<(Vec<char>, Vec<char>)> = Vec::new();
    let mut k: usize = 0;
    while k < pairs.len()
        invariant
            k <= pairs@.len(),
            pair_views(norm@) =~= normalized_pairs(pairs@).subrange(0, k as int),
        decreases pairs@.len() - k,
    {
        let pair = pairs[k];
        let a = get_vec_chars(pair.0);
        let b = get_vec_chars(pair.1);
        let ghost before = norm@;
        norm.push((a, b));
        assert(pair_views(norm@) =~= pair_views(before).push((nfc_of(pair.0@), nfc_of(pair.1@))));
        assert(normalized_pairs(pairs@)[k as int] == (nfc_of(pair.0@), nfc_of(pair.1@)));
        k += 1;
    }
    let counts = map_vec(s, norm.as_slice());
    let mut report: Vec<(String, usize)> = Vec::new();
    let mut j: usize = 0;
    while j < pairs.len()
        invariant
            j <= pairs@.len(),
            counts@.len() == pairs@.len(),
            norm@.len() == pairs@.len(),
            pair_views(norm@) == normalized_pairs(pairs@),
            report@.len() == j,
            forall|i: int|
                0 <= i < pairs@.len() ==> #[trigger] counts@[i] == match_count(
                    mapped(old(s)@, pair_views(norm@), i),
                    norm@[i].0@,
                    0,
                ),
            forall|i: int|
                0 <= i < j ==> (#[trigger] report@[i]).0@ == pairs@[i].0@ && report@[i].1
                    == counts@[i],
        decreases pairs@.len() - j,
    {
        let key = pairs[j].0.to_owned();
        report.push((key, counts[j]));
        j += 1;
    }
    proof {
        assert forall|i: int| 0 <= i < pairs@.len() implies norm@[i].0@ == nfc_of(pairs@[i].0@) by {
            assert(pair_views(norm@)[i] == normalized_pairs(pairs@)[i]);
        }
    }
    report
}

} // verus!
