use http_server::chars::{
    blank, char_is_space, eq_ignoring_case, is_ascii, to_decimal, to_lower, to_lower_char,
    to_lower_name, unpadded_len,
};
use http_server::headers::Headers;
use http_server::text::{
    append, chars_of, copy_range, equal, find_from, join, matches_at, replace, split, split_once,
    string_of,
};

fn chars(s: &str) -> Vec<char> {
    s.chars().collect()
}

fn text(v: &[char]) -> String {
    v.iter().collect()
}

fn texts(v: &[Vec<char>]) -> Vec<String> {
    v.iter().map(|p| text(p)).collect()
}

#[test]
fn characters_and_strings() {
    assert_eq!(chars_of("a\u{e9}\u{4e16}"), vec!['a', '\u{e9}', '\u{4e16}']);
    assert_eq!(chars_of(""), Vec::<char>::new());
    assert_eq!(string_of(&['a', '\u{e9}', '\u{4e16}']), "a\u{e9}\u{4e16}");
    assert_eq!(string_of(&[]), "");
    assert_eq!(copy_range(&chars("abcdef"), 2, 4), chars("cd"));
    assert_eq!(copy_range(&chars("abcdef"), 3, 3), chars(""));
    let mut out = chars("ab");
    append(&mut out, &chars("cd"));
    assert_eq!(out, chars("abcd"));
    assert!(equal(&chars("abc"), &chars("abc")));
    assert!(!equal(&chars("abc"), &chars("abd")));
    assert!(!equal(&chars("abc"), &chars("ab")));
}

#[test]
fn finding() {
    let s = chars("abcabc");
    assert!(matches_at(&s, &chars("bc"), 1));
    assert!(!matches_at(&s, &chars("bc"), 2));
    assert!(!matches_at(&s, &chars("bc"), 5));
    assert!(!matches_at(&s, &chars("bc"), 100));
    assert!(matches_at(&s, &chars(""), 6));
    assert_eq!(find_from(&s, &chars("bc"), 0), Some(1));
    assert_eq!(find_from(&s, &chars("bc"), 1), Some(1));
    assert_eq!(find_from(&s, &chars("bc"), 2), Some(4));
    assert_eq!(find_from(&s, &chars("bc"), 5), None);
    assert_eq!(find_from(&s, &chars("x"), 0), None);
    assert_eq!(find_from(&s, &chars("abcabcd"), 0), None);
    assert_eq!(find_from(&s, &chars(""), 6), Some(6));
}

#[test]
fn splitting() {
    assert_eq!(texts(&split(&chars("a, b, c"), &chars(", "))), vec!["a", "b", "c"]);
    assert_eq!(texts(&split(&chars("abc"), &chars(", "))), vec!["abc"]);
    assert_eq!(texts(&split(&chars(""), &chars(", "))), vec![""]);
    assert_eq!(texts(&split(&chars(", a, "), &chars(", "))), vec!["", "a", ""]);
    assert_eq!(texts(&split(&chars("aaa"), &chars("aa"))), vec!["", "a"]);
    assert_eq!(texts(&split(&chars("a\r\n\r\nb"), &chars("\r\n"))), vec!["a", "", "b"]);
    for s in ["a, b, c", "", ", a, ", "aaa", "x,,y, "] {
        let expected: Vec<&str> = s.split(", ").collect();
        assert_eq!(texts(&split(&chars(s), &chars(", "))), expected);
    }
}

#[test]
fn joining_and_replacing() {
    let parts = vec![chars("a"), chars("b"), chars("")];
    assert_eq!(text(&join(&parts, &chars("--"))), "a--b--");
    assert_eq!(text(&join(&Vec::new(), &chars("--"))), "");
    assert_eq!(text(&join(&vec![chars("a")], &chars("--"))), "a");
    assert_eq!(text(&replace(&chars("a\r\n\r\nb"), &chars("\r\n\r\n"), &chars("\r\n"))), "a\r\nb");
    assert_eq!(
        text(&replace(&chars("a\r\n\r\n\r\n\r\nb\r\n"), &chars("\r\n\r\n"), &chars("\r\n"))),
        "a\r\n\r\nb\r\n"
    );
    assert_eq!(text(&replace(&chars("abc"), &chars("x"), &chars("y"))), "abc");
    for s in ["aaaa", "abab", "", "ba", "aab"] {
        assert_eq!(text(&replace(&chars(s), &chars("aa"), &chars("b"))), s.replace("aa", "b"));
    }
}

#[test]
fn cutting_once() {
    let (before, after) = split_once(&chars("Host: a: b"), &chars(": ")).unwrap();
    assert_eq!(text(&before), "Host");
    assert_eq!(text(&after), "a: b");
    assert!(split_once(&chars("Host:a"), &chars(": ")).is_none());
    let (before, after) = split_once(&chars(": "), &chars(": ")).unwrap();
    assert_eq!(text(&before), "");
    assert_eq!(text(&after), "");
}

#[test]
fn case_folding() {
    assert_eq!(to_lower_char('A'), 'a');
    assert_eq!(to_lower_char('Z'), 'z');
    assert_eq!(to_lower_char('a'), 'a');
    assert_eq!(to_lower_char('@'), '@');
    assert_eq!(to_lower_char('['), '[');
    assert_eq!(to_lower_char('-'), '-');
    assert_eq!(to_lower_char('\u{c9}'), '\u{c9}');
    assert_eq!(text(&to_lower(&chars("Content-TYPE_09"))), "content-type_09");
    for c in 0u8..128 {
        assert_eq!(to_lower_char(c as char), (c as char).to_ascii_lowercase());
    }
    assert!(eq_ignoring_case(&chars("GZip"), &chars("gzIP")));
    assert!(!eq_ignoring_case(&chars("gzip"), &chars("gzi")));
    assert!(!eq_ignoring_case(&chars("gzip"), &chars("gzap")));
    assert!(eq_ignoring_case(&chars(""), &chars("")));
}

#[test]
fn names_in_lower_case() {
    assert!(is_ascii(&chars("")));
    assert!(is_ascii(&chars("Content-Type\u{7f}")));
    assert!(!is_ascii(&chars("Content-Type\u{80}")));
    assert!(!is_ascii(&chars("\u{e9}")));
    assert_eq!(text(&to_lower_name(&chars("Content-TYPE_09"))), "content-type_09");
    assert_eq!(text(&to_lower_name(&chars("\u{c9}COLE"))), "\u{e9}cole");
    assert_eq!(text(&to_lower_name(&chars("\u{130}"))), "i\u{307}");
    assert_eq!(text(&to_lower_name(&chars("\u{4e16}A"))), "\u{4e16}a");
    for s in ["Host", "USER-agent", "\u{c9}t\u{c9}", "\u{3a3}\u{3a3}", "stra\u{df}E", ""] {
        assert_eq!(text(&to_lower_name(&chars(s))), s.to_lowercase());
    }
    assert_eq!(text(&to_lower(&chars("\u{c9}COLE"))), "\u{c9}cole");
}

#[test]
fn white_space() {
    for c in 0u32..0x3100 {
        if let Some(c) = char::from_u32(c) {
            assert_eq!(char_is_space(c), c.is_whitespace(), "{:?}", c);
        }
    }
    assert!(blank(&chars("")));
    assert!(blank(&chars(" \t\r\n\u{a0}\u{3000}")));
    assert!(!blank(&chars(" a ")));
    assert!(!blank(&chars("\0")));
    for s in ["", "  ", " x", "\u{2003}", "\u{200b}"] {
        assert_eq!(blank(&chars(s)), s.trim().is_empty());
    }
}

#[test]
fn padding() {
    assert_eq!(unpadded_len(&chars("abc\0\0")), 3);
    assert_eq!(unpadded_len(&chars("abc")), 3);
    assert_eq!(unpadded_len(&chars("\0\0")), 0);
    assert_eq!(unpadded_len(&chars("")), 0);
    assert_eq!(unpadded_len(&chars("a\0b\0")), 3);
}

#[test]
fn decimal_numerals() {
    assert_eq!(text(&to_decimal(0)), "0");
    assert_eq!(text(&to_decimal(9)), "9");
    assert_eq!(text(&to_decimal(10)), "10");
    assert_eq!(text(&to_decimal(12345)), "12345");
    assert_eq!(text(&to_decimal(1000000)), "1000000");
    assert_eq!(text(&to_decimal(usize::MAX)), usize::MAX.to_string());
    for n in 0usize..300 {
        assert_eq!(text(&to_decimal(n)), n.to_string());
    }
}

#[test]
fn header_fields() {
    let mut headers = Headers::new();
    assert_eq!(headers.len(), 0);
    assert!(headers.get("a").is_none());
    headers.insert("a".to_string(), "1".to_string());
    headers.insert("b".to_string(), "2".to_string());
    headers.insert("A".to_string(), "3".to_string());
    assert_eq!(headers.len(), 3);
    headers.insert("a".to_string(), "4".to_string());
    assert_eq!(headers.len(), 3);
    assert_eq!(headers.get("a").map(|v| v.as_str()), Some("4"));
    assert_eq!(headers.get("b").map(|v| v.as_str()), Some("2"));
    assert_eq!(headers.get("A").map(|v| v.as_str()), Some("3"));
    assert!(headers.get("c").is_none());
    assert_eq!(headers.name_at(0), "a");
    assert_eq!(headers.value_at(0), "4");
    assert_eq!(headers.name_at(1), "b");
    assert_eq!(headers.name_at(2), "A");
    let copy = headers.clone();
    headers.insert("b".to_string(), "5".to_string());
    assert_eq!(copy.len(), 3);
    assert_eq!(copy.get("b").map(|v| v.as_str()), Some("2"));
    assert_eq!(headers.get("b").map(|v| v.as_str()), Some("5"));
}
