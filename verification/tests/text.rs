use rum_framework::params::ParamMap;
use rum_framework::text::{
    contains_str, lines_str, split_char, split_once_str, str_less, trim_char_str, trim_end_char_str,
    trim_str,
};

fn owned(v: Vec<&str>) -> Vec<String> {
    v.into_iter().map(|s| s.to_string()).collect()
}

#[test]
fn splits_like_std() {
    for s in ["", "a", "/", "a/b", "/a/b/", "//", "a//b", "héllo/wörld"] {
        let expected: Vec<&str> = s.split('/').collect();
        assert_eq!(split_char(s, '/'), owned(expected));
    }
    assert_eq!(split_once_str("GET / HTTP/1.1", " "), ("GET".to_string(), Some("/ HTTP/1.1".to_string())));
    assert_eq!(split_once_str("a: b: c", ": "), ("a".to_string(), Some("b: c".to_string())));
    assert_eq!(split_once_str("abc", "="), ("abc".to_string(), None));
    assert_eq!(split_once_str("=x", "="), ("".to_string(), Some("x".to_string())));
}

#[test]
fn lines_like_std() {
    for s in ["", "a", "a\n", "a\r\nb", "a\n\nb\n", "\r\n", "x\r\ny\r\n\r\nz", "foo\r\nbar\n\nbaz"] {
        let expected: Vec<&str> = s.lines().collect();
        assert_eq!(lines_str(s), owned(expected), "{:?}", s);
    }
}

#[test]
fn trims_like_std() {
    for s in ["", "  a  ", "\t\r\n x y \u{3000}", "\u{a0}z", "\0a\0"] {
        assert_eq!(trim_str(s), s.trim());
    }
    assert_eq!(trim_end_char_str("/a//", '/'), "/a");
    assert_eq!(trim_char_str("::id:", ':'), "id");
    assert_eq!(trim_char_str(":::", ':'), "");
}

#[test]
fn contains_and_order() {
    assert!(contains_str("application/x-www-form-urlencoded; charset=utf-8", "application/x-www-form-urlencoded"));
    assert!(!contains_str("text/plain", "application/x-www-form-urlencoded"));
    assert!(contains_str("abc", ""));
    for (a, b) in [("a", "b"), ("a", "ab"), ("", "a"), ("b", "a"), ("ab", "ab"), ("Z", "a"), ("é", "z")] {
        assert_eq!(str_less(a, b), a.to_string() < b.to_string(), "{} {}", a, b);
    }
}

#[test]
fn param_map_replaces_values() {
    let mut m = ParamMap::new();
    m.set("a", "1");
    m.set("b", "2");
    m.set("a", "3");
    assert_eq!(m.get("a").map(|s| s.as_str()), Some("3"));
    assert_eq!(m.get("b").map(|s| s.as_str()), Some("2"));
    assert_eq!(m.get("c"), None);
    m.add_pairs("c=4&&d&=5&a=6");
    assert_eq!(m.get("c").map(|s| s.as_str()), Some("4"));
    assert_eq!(m.get("d"), None);
    assert_eq!(m.get("a").map(|s| s.as_str()), Some("6"));
}
