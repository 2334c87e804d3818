use interface::text::{chars_of, contains_chars, has_prefix, has_suffix, push_decimal, replace_chars, str_equals, string_of, trim_chars};

fn v(s: &str) -> Vec<char> {
    s.chars().collect()
}

#[test]
fn trim_matches_std() {
    for s in ["  a b  ", "\t\u{3000}x\u{85}", "", "   ", "x", "\u{2028}y z\u{a0}"] {
        assert_eq!(string_of(&trim_chars(&v(s))), s.trim());
    }
}

#[test]
fn prefixes_suffixes_and_search() {
    assert!(has_prefix(&v("map_server:"), &v("map_")));
    assert!(!has_prefix(&v("ma"), &v("map_")));
    assert!(has_suffix(&v("a.yaml"), &v(".yaml")));
    assert!(!has_suffix(&v("yaml"), &v(".yaml")));
    assert!(contains_chars(&v("xxABORTyy"), &v("ABORT")));
    assert!(!contains_chars(&v("ABOR"), &v("ABORT")));
    assert!(contains_chars(&v("abc"), &v("")));
    assert!(str_equals("UCS", "UCS"));
    assert!(!str_equals("UCS", "UCSX"));
}

#[test]
fn replace_and_decimal() {
    assert_eq!(string_of(&replace_chars(&v("aaa"), &v("aa"), &v("b"))), "aaa".replace("aa", "b"));
    assert_eq!(string_of(&replace_chars(&v("x.yaml"), &v(".yaml"), &v(".png"))), "x.png");
    let mut out = v("n=");
    push_decimal(&mut out, 0);
    assert_eq!(string_of(&out), "n=0");
    let mut out = Vec::new();
    push_decimal(&mut out, 1234567890);
    assert_eq!(string_of(&out), "1234567890");
    assert_eq!(chars_of("héllo"), v("héllo"));
}
