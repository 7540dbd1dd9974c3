use vec_chars::normal::get_vec_chars;
use vec_chars::text::{
    eq_str, eq_vec, join_str, join_vec, slice, substring, to_string, to_string_buf, to_vec_chars,
    Bound,
};

#[test]
fn substring_walks_scalar_values() {
    let s = "abcdèfghij";
    assert_eq!(substring(s, 0, 5), "abcdè");
    assert_eq!(substring(s, 0, 50), "abcdèfghij");
    assert_eq!(substring(s, 3, 5), "dèfgh");
    assert_eq!(substring(s, 3, 50), "dèfghij");
}

#[test]
fn substring_clamps_every_length() {
    let s = "abcdè…";
    assert_eq!(substring(s, 0, 5), "abcdè");
    assert_eq!(substring(s, 0, 50), "abcdè…");
    assert_eq!(substring(s, 6, 3), "");
    assert_eq!(substring(s, 100, 3), "");
    assert_eq!(substring(s, 2, usize::MAX), "cdè…");
    assert_eq!(substring("", 0, 4), "");
    let n = s.chars().count();
    for start in 0..9usize {
        for len in 0..9usize {
            let expect = len.min(n.saturating_sub(start));
            assert_eq!(substring(s, start, len).chars().count(), expect);
        }
    }
}

#[test]
fn slice_forms_agree_with_substring() {
    let s = "abcdèfghij";
    assert_eq!(slice(s, Bound::Unbounded, Bound::Excluded(5)), "abcdè");
    assert_eq!(slice(s, Bound::Unbounded, Bound::Excluded(50)), "abcdèfghij");
    assert_eq!(slice(s, Bound::Included(3), Bound::Excluded(8)), "dèfgh");
    assert_eq!(slice(s, Bound::Included(3), Bound::Unbounded), "dèfghij");
    assert_eq!(slice(s, Bound::Unbounded, Bound::Included(4)), "abcdè");
    assert_eq!(slice(s, Bound::Unbounded, Bound::Included(49)), "abcdèfghij");
    assert_eq!(slice(s, Bound::Included(3), Bound::Included(7)), "dèfgh");
    assert_eq!(slice(s, Bound::Included(5), Bound::Excluded(2)), "");
    assert_eq!(slice(s, Bound::Included(0), Bound::Included(usize::MAX)), "abcdèfghij");
}

#[test]
fn conversions_to_text() {
    let vc = get_vec_chars("abcdèfghij");
    assert_eq!(to_string(&vc[..5]), "abcdè");
    assert_eq!(to_string(&vc), "abcdèfghij");
    assert_eq!(to_string(&vc[3..8]), "dèfgh");
    assert_eq!(to_string(&vc[3..]), "dèfghij");
    let mut buf = String::from("left over");
    to_string_buf(&vc[..5], &mut buf);
    assert_eq!(buf, "abcdè");
    to_string_buf(&vc[3..8], &mut buf);
    assert_eq!(buf, "dèfgh");
    to_string_buf(&vc[..0], &mut buf);
    assert_eq!(buf, "");
    assert_eq!(to_string_buf(&vc[..3], &mut buf), "abc");
    let mut out = Vec::new();
    for i in 0..(vc.len() - 2) {
        to_string_buf(&vc[i..i + 3], &mut buf);
        out.push(buf.clone());
    }
    assert_eq!(out.join(" "), "abc bcd cdè dèf èfg fgh ghi hij");
    assert_eq!(to_vec_chars(&vc[3..5]), vec!['d', 'è']);
}

#[test]
fn normalization_composes() {
    let decomposed = "noe\u{301}l";
    let v = get_vec_chars(decomposed);
    assert_eq!(v, vec!['n', 'o', 'é', 'l']);
    assert_eq!(v.len(), 4);
    let mut r = v.clone();
    r.reverse();
    assert_eq!(to_string(&r), "léon");
    assert_eq!(get_vec_chars("c\u{327}"), vec!['ç']);
    assert_eq!(get_vec_chars(""), Vec::<char>::new());
}

#[test]
fn normalization_round_trip_is_idempotent() {
    for x in ["noe\u{301}l", "a\u{308}\u{301}", "\u{212b}", "plain", "🇸🇪", ""] {
        let once = to_string(&get_vec_chars(x));
        let twice = to_string(&get_vec_chars(&once));
        assert_eq!(once, twice);
    }
}

#[test]
fn flags_are_not_atomic() {
    let mut v = get_vec_chars("🇸🇪");
    assert_eq!(v.len(), 2);
    v.reverse();
    assert_eq!(to_string(&v), "🇪🇸");
}

#[test]
fn eq_vec_and_eq_str() {
    let vc_a = get_vec_chars("bla");
    let vc_b = get_vec_chars("bla");
    let vc_c = get_vec_chars("tu");
    assert!(eq_vec(&vc_a, &vc_b));
    assert!(!eq_vec(&vc_a, &vc_c));
    assert!(eq_str(&vc_a, "bla"));
    assert!(!eq_str(&vc_a, "tu"));
    assert!(eq_str(&vc_a, &"bla".to_string()));
    assert!(!eq_str(&vc_a, &"tu".to_string()));
    assert!(!eq_str(&vc_a, "bl"));
    assert!(!eq_str(&vc_a, "blab"));
    assert!(eq_str(&[], ""));
}

#[test]
fn join_vec_concatenates() {
    let a = get_vec_chars("bla");
    let b = get_vec_chars("_bli");
    let c = get_vec_chars("_blu");
    let vc_a = join_vec(&[&a, &b, &['_', 'a', 'b', 'c'], &c]);
    assert!(eq_str(&vc_a, "bla_bli_abc_blu"));
    assert!(join_vec(&[]).is_empty());
}

#[test]
fn join_str_concatenates() {
    let vc_a = join_str(&["bla", "_bli", &"_abc".to_string(), "_blu"]);
    assert!(eq_str(&vc_a, "bla_bli_abc_blu"));
    let composed = join_str(&["e", "\u{301}x"]);
    assert_eq!(composed, vec!['e', '\u{301}', 'x']);
}
