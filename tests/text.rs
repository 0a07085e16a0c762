use serde_graph::text::{
    camelcase_to_snakecase, decompose, is_wrapper_name, joiner, path_parts, snake_from_parts, sorted_unique,
    split_str, with_path_ident,
};

fn parts(p: &str) -> (String, String, String) {
    path_parts(p)
}

#[test]
fn path_parts_module_and_namespace() {
    assert_eq!(parts("block/header::Header"), ("block".to_string(), "header".to_string(), "Header".to_string()));
    assert_eq!(
        parts("some/path/with::complex::Types"),
        ("some/path".to_string(), "with::complex".to_string(), "Types".to_string())
    );
    assert_eq!(parts("x::Thing"), ("".to_string(), "x".to_string(), "Thing".to_string()));
    assert_eq!(parts("Header"), ("".to_string(), "".to_string(), "Header".to_string()));
}

#[test]
fn decompose_requires_qualification() {
    assert!(decompose("Header").is_err());
    assert_eq!(decompose("Header").unwrap_err().id, "Header");
    assert_eq!(decompose("a/b::c::D").unwrap(), ("a".to_string(), "b::c".to_string(), "D".to_string()));
}

#[test]
fn decompose_round_trip() {
    for id in ["a/b::c::D", "x::Thing", "some/path/with::complex::Types", "a::b::c::D"] {
        let (m, n, l) = decompose(id).unwrap();
        let rejoined = joiner(&joiner(&m, &n, "/"), &l, "::");
        assert_eq!(rejoined, id);
    }
}

#[test]
fn split_like_std() {
    for (s, sep) in [("a::b::c", "::"), ("a:::b", "::"), ("::a::", "::"), ("", "::"), ("a/b/c", "/"), ("abc", "/")] {
        let expected: Vec<String> = s.split(sep).map(|x| x.to_string()).collect();
        assert_eq!(split_str(s, sep), expected, "{} by {}", s, sep);
    }
}

#[test]
fn joiner_skips_empty_sides() {
    assert_eq!(joiner("", "b", "/"), "b");
    assert_eq!(joiner("a", "", "/"), "a");
    assert_eq!(joiner("a", "b", "::"), "a::b");
    assert_eq!(joiner("", "", "::"), "");
}

#[test]
fn snake_case_conversion() {
    assert_eq!(camelcase_to_snakecase("PartSetHeader"), "part_set_header");
    assert_eq!(camelcase_to_snakecase("Id"), "id");
    assert_eq!(camelcase_to_snakecase("already_snake"), "already_snake");
    assert_eq!(camelcase_to_snakecase(""), "");
    assert_eq!(camelcase_to_snakecase("ÀB"), "à_b");
}

#[test]
fn snake_case_exceptions() {
    assert_eq!(camelcase_to_snakecase("AppHash"), "hash");
    assert_eq!(camelcase_to_snakecase("Type"), "msg_type");
}

#[test]
fn wrapper_names_are_stripped() {
    assert!(is_wrapper_name("Option"));
    assert!(is_wrapper_name("std::time::Duration"));
    assert!(is_wrapper_name("u8"));
    assert!(!is_wrapper_name("Header"));
    assert_eq!(with_path_ident(vec!["Inner".to_string()], "Vec"), vec!["Inner".to_string()]);
    assert_eq!(
        with_path_ident(vec!["Inner".to_string()], "Outer"),
        vec!["Inner".to_string(), "Outer".to_string()]
    );
}

#[test]
fn snake_from_given_parts() {
    let lows = |v: &[&str]| v.iter().map(|s| s.to_string()).collect::<Vec<String>>();
    assert_eq!(snake_from_parts("AbC", &vec![true, false, true], &lows(&["a", "b", "c"])), "ab_c");
    assert_eq!(snake_from_parts("xY", &vec![false, true], &lows(&["x", "QQ"])), "x_QQ");
    assert_eq!(snake_from_parts("", &vec![], &lows(&[])), "");
    assert_eq!(snake_from_parts("ab", &vec![false, false], &lows(&["z", "z"])), "ab");
}

#[test]
fn sorted_unique_lists() {
    let v: Vec<String> = ["b", "a", "b", "ab", ""].iter().map(|s| s.to_string()).collect();
    assert_eq!(sorted_unique(&v), vec!["".to_string(), "a".to_string(), "ab".to_string(), "b".to_string()]);
}
