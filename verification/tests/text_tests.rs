use homesite::number::{decimal_string, int_error_text, parse_u64, parse_usize, IntErrorKind};
use homesite::text::{
    join_strings, lines_of, replace_str, rsplit_once_str, split_once_str, split_str, str_eq,
    strip_prefix_str, trim_str,
};

fn strings(v: &[&str]) -> Vec<String> {
    v.iter().map(|s| s.to_string()).collect()
}

#[test]
fn split_keeps_empty_pieces() {
    assert_eq!(split_str("a;b;;c", ";"), strings(&["a", "b", "", "c"]));
    assert_eq!(split_str("", "/"), strings(&[""]));
    assert_eq!(split_str("/x/y", "/"), strings(&["", "x", "y"]));
    assert_eq!(split_str("a-->b-->", "-->"), strings(&["a", "b", ""]));
}

#[test]
fn split_matches_std() {
    for (s, sep) in [("a b  c", " "), ("ééé/ü//", "/"), ("abcabc", "bc"), ("aaaa", "aa")] {
        let expected: Vec<String> = s.split(sep).map(|x| x.to_string()).collect();
        assert_eq!(split_str(s, sep), expected);
    }
}

#[test]
fn split_once_and_rsplit_once() {
    assert_eq!(split_once_str("k=v=w", "="), Some(("k".to_string(), "v=w".to_string())));
    assert_eq!(split_once_str("kv", "="), None);
    assert_eq!(rsplit_once_str("a.b.png", "."), Some(("a.b".to_string(), "png".to_string())));
    assert_eq!(rsplit_once_str("png", "."), None);
}

#[test]
fn join_from_an_index() {
    let parts = strings(&["a", "b", "c"]);
    assert_eq!(join_strings(&parts, 0, "/"), "a/b/c");
    assert_eq!(join_strings(&parts, 1, "/"), "b/c");
    assert_eq!(join_strings(&parts, 3, "/"), "");
}

#[test]
fn join_split_roundtrip() {
    for (s, sep) in [("a/b//c", "/"), ("", "/"), ("/", "/"), ("x-->y", "-->")] {
        assert_eq!(join_strings(&split_str(s, sep), 0, sep), s);
    }
}

#[test]
fn replace_like_std() {
    assert_eq!(replace_str("a<br>b<br>", "<br>", "\n"), "a\nb\n");
    assert_eq!(replace_str("aaa", "aa", "b"), "aaa".replace("aa", "b"));
    assert_eq!(replace_str("no marker", "%X%", "y"), "no marker");
    assert_eq!(replace_str("p%X%q", "%X%", "%X%"), "p%X%q");
}

#[test]
fn trim_unicode_white_space() {
    assert_eq!(trim_str("  \t hi \r\n"), "hi");
    assert_eq!(trim_str("\u{3000}x\u{a0}"), "x");
    assert_eq!(trim_str(" \u{2028} "), "");
    assert_eq!(trim_str("a b"), "a b");
    for s in ["\u{85}z\u{200a}", "\u{1680}", "q\u{205f}"] {
        assert_eq!(trim_str(s), s.trim());
    }
}

#[test]
fn lines_like_std() {
    assert_eq!(lines_of("foo\r\nbar\n\nbaz\r"), strings(&["foo", "bar", "", "baz\r"]));
    assert_eq!(lines_of(""), Vec::<String>::new());
    assert_eq!(lines_of("a\n"), strings(&["a"]));
    for s in ["a\r\n\r\n", "x\ny", "\n", "one\r\r\n"] {
        let expected: Vec<String> = s.lines().map(|x| x.to_string()).collect();
        assert_eq!(lines_of(s), expected);
    }
}

#[test]
fn prefixes_and_equality() {
    assert_eq!(strip_prefix_str("<!--info", "<!--"), Some("info".to_string()));
    assert_eq!(strip_prefix_str("info", "<!--"), None);
    assert!(str_eq("ab", "ab"));
    assert!(!str_eq("ab", "abc"));
}

#[test]
fn decimal_exact_values() {
    assert_eq!(decimal_string(0), "0");
    assert_eq!(decimal_string(7), "7");
    assert_eq!(decimal_string(1234567890), "1234567890");
    assert_eq!(decimal_string(u64::MAX), u64::MAX.to_string());
}

#[test]
fn parse_like_std() {
    let cases = [
        "42", "+7", "", "+", "-", "-1", "18446744073709551615", "18446744073709551616",
        "99999999999999999999x", "1x", " 1", "007",
    ];
    for s in cases {
        match (parse_u64(s), s.parse::<u64>()) {
            (Ok(a), Ok(b)) => assert_eq!(a, b),
            (Err(e), Err(f)) => assert_eq!(int_error_text(e), f.to_string()),
            (a, b) => panic!("{:?}: {:?} vs {:?}", s, a, b),
        }
    }
}

#[test]
fn parse_error_kinds() {
    assert_eq!(parse_u64(""), Err(IntErrorKind::Empty));
    assert_eq!(parse_u64("+"), Err(IntErrorKind::InvalidDigit));
    assert_eq!(parse_u64("-3"), Err(IntErrorKind::InvalidDigit));
    assert_eq!(parse_u64("18446744073709551616"), Err(IntErrorKind::PosOverflow));
    assert_eq!(parse_u64("99999999999999999999x"), Err(IntErrorKind::PosOverflow));
    assert_eq!(parse_usize("12"), Ok(12));
    assert_eq!(parse_usize("x"), Err(IntErrorKind::InvalidDigit));
}

#[test]
fn parse_decimal_roundtrip() {
    for n in [0u64, 9, 10, 99, 100, 65535, 4294967296, u64::MAX] {
        assert_eq!(parse_u64(&decimal_string(n)), Ok(n));
    }
}
