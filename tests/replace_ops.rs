use vec_chars::normal::get_vec_chars;
use vec_chars::replace::{map_str, map_vec, replace_str_all, replace_vec_all, split_str, split_vec};
use vec_chars::search::contains_vec;
use vec_chars::text::{eq_str, eq_vec, to_vec_chars};

#[test]
fn replace_vec_all_cases() {
    let mut vc_a = get_vec_chars("blabliblu");
    let res = replace_vec_all(&mut vc_a, &get_vec_chars("BBB"), &get_vec_chars("YYY"));
    assert!(res.is_none());
    assert!(eq_str(&vc_a, "blabliblu"));
    let res = replace_vec_all(&mut vc_a, &get_vec_chars("bla"), &get_vec_chars("BBBHHH"));
    assert_eq!(res, Some(1));
    assert!(eq_str(&vc_a, "BBBHHHbliblu"));

    let mut vc_a = get_vec_chars("abbbabbbabbba");
    let res = replace_vec_all(&mut vc_a, &get_vec_chars("bbb"), &get_vec_chars("BBBB"));
    assert_eq!(res, Some(3));
    assert!(eq_str(&vc_a, "aBBBBaBBBBaBBBBa"));

    let mut vc_a = get_vec_chars("AA_AA_AA_AA");
    let res = replace_vec_all(&mut vc_a, &get_vec_chars("AA"), &get_vec_chars("BBB"));
    assert_eq!(res, Some(4));
    assert!(eq_str(&vc_a, "BBB_BBB_BBB_BBB"));
}

#[test]
fn replace_str_all_cases() {
    let mut vc_a = get_vec_chars("blabliblu");
    let res = replace_str_all(&mut vc_a, "BBB", "YYY");
    assert!(res.is_none());
    assert!(eq_str(&vc_a, "blabliblu"));
    let res = replace_str_all(&mut vc_a, "bla", "BBBHHH");
    assert_eq!(res, Some(1));
    assert!(eq_str(&vc_a, "BBBHHHbliblu"));
}

#[test]
fn replace_all_does_not_overlap() {
    let mut a = get_vec_chars("aaaaa");
    assert_eq!(replace_vec_all(&mut a, &['a', 'a'], &['b']), Some(2));
    assert!(eq_str(&a, "bba"));
    let mut b = get_vec_chars("xyz");
    assert_eq!(replace_vec_all(&mut b, &[], &['q']), None);
    assert!(eq_str(&b, "xyz"));
    let mut c = get_vec_chars("abab");
    assert_eq!(replace_vec_all(&mut c, &['a', 'b'], &[]), Some(2));
    assert!(c.is_empty());
    let mut d: Vec<char> = Vec::new();
    assert_eq!(replace_vec_all(&mut d, &['a'], &['b']), None);
}

#[test]
fn replace_all_none_exactly_when_absent() {
    for (s, p) in [("abc", "c"), ("abc", "d"), ("", "a"), ("aaa", "aa"), ("ab", "abc"), ("ab", "")] {
        let mut v = get_vec_chars(s);
        let pv = get_vec_chars(p);
        let present = contains_vec(&v, &pv);
        let res = replace_vec_all(&mut v, &pv, &['#']);
        assert_eq!(res.is_none(), !present);
    }
}

#[test]
fn split_vec_cases() {
    let vc_a = get_vec_chars("aBBlaBBliBBlu");
    let res_vec = split_vec(&vc_a, &get_vec_chars("CCC"));
    assert_eq!(res_vec.len(), 0);
    let res_vec = split_vec(&vc_a, &get_vec_chars("BB"));
    assert_eq!(res_vec.len(), 4);
    assert!(eq_vec(&to_vec_chars(res_vec[0]), &get_vec_chars("a")));
    assert!(eq_vec(&to_vec_chars(res_vec[1]), &get_vec_chars("la")));
    assert!(eq_vec(&to_vec_chars(res_vec[2]), &get_vec_chars("li")));
    assert!(eq_vec(&to_vec_chars(res_vec[3]), &get_vec_chars("lu")));

    let vc_a = get_vec_chars("aaaBBaaaCCaaaDDaaa");
    let res_vec = split_vec(&vc_a, &get_vec_chars("aaa"));
    assert_eq!(res_vec.len(), 3);
    assert!(eq_vec(&to_vec_chars(res_vec[0]), &get_vec_chars("BB")));
    assert!(eq_vec(&to_vec_chars(res_vec[1]), &get_vec_chars("CC")));
    assert!(eq_vec(&to_vec_chars(res_vec[2]), &get_vec_chars("DD")));
}

#[test]
fn split_str_cases() {
    let vc_a = get_vec_chars("aBBlaBBliBBlu");
    let res_vec = split_str(&vc_a, "CCC");
    assert_eq!(res_vec.len(), 0);
    let res_vec = split_str(&vc_a, "BB");
    assert_eq!(res_vec.len(), 4);
    assert!(eq_vec(&to_vec_chars(res_vec[0]), &get_vec_chars("a")));
    assert!(eq_vec(&to_vec_chars(res_vec[1]), &get_vec_chars("la")));
    assert!(eq_vec(&to_vec_chars(res_vec[2]), &get_vec_chars("li")));
    assert!(eq_vec(&to_vec_chars(res_vec[3]), &get_vec_chars("lu")));
}

#[test]
fn split_omits_empty_spans() {
    let v = get_vec_chars(",,a,,b,");
    let parts = split_vec(&v, &[',']);
    assert_eq!(parts.len(), 2);
    assert_eq!(parts[0], &['a']);
    assert_eq!(parts[1], &['b']);
    let only = get_vec_chars(",,,");
    assert!(split_vec(&only, &[',']).is_empty());
    assert!(split_vec(&v, &[]).is_empty());
    let whole = get_vec_chars("abc");
    assert_eq!(split_vec(&whole, &['b']), vec![&['a'][..], &['c'][..]]);
}

#[test]
fn map_str_counts_each_pattern() {
    let mut vc_a = get_vec_chars("a1 a1 : a2 : a3 a3 a3 : a4 : a5");
    let pairs = [
        ("a1", "Cube"),
        ("a2", "Foo"),
        ("a3", "Bar"),
        ("a4", "33"),
        ("a5", "JJ"),
        ("BB", "This one doesn't exist!"),
    ];
    let report = map_str(&mut vc_a, &pairs);
    assert_eq!(report.len(), 6);
    let count = |k: &str| report.iter().find(|(p, _)| p == k).unwrap().1;
    assert_eq!(count("a1"), 2);
    assert_eq!(count("a2"), 1);
    assert_eq!(count("a3"), 3);
    assert_eq!(count("a4"), 1);
    assert_eq!(count("a5"), 1);
    assert_eq!(count("BB"), 0);
    assert!(eq_str(&vc_a, "Cube Cube : Foo : Bar Bar Bar : 33 : JJ"));
}

#[test]
fn map_applies_pairs_in_sequence() {
    let mut v = get_vec_chars("ab");
    let report = map_str(&mut v, &[("a", "b"), ("b", "c")]);
    assert!(eq_str(&v, "cc"));
    assert_eq!(report, vec![("a".to_string(), 1), ("b".to_string(), 2)]);

    let mut w = get_vec_chars("ab");
    let counts = map_vec(&mut w, &[(vec!['b'], vec!['c']), (vec!['a'], vec!['b'])]);
    assert!(eq_str(&w, "bc"));
    assert_eq!(counts, vec![1, 1]);
}
