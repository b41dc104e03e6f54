use queso::order::{in_order, sort};
use queso::text::{
    decimal_text, join, replace, same, signed_decimal_text, split, split_once, starts_with,
    strip_prefix, to_chars, trim, trim_end, trim_start_matches, white,
};

fn strings(items: &[&str]) -> Vec<String> {
    items.iter().map(|s| s.to_string()).collect()
}

#[test]
fn splitting_agrees_with_the_standard_library() {
    for s in ["", ";", "a", ";a", "a;", "a;;b", "é;ü;", "a,b;c"] {
        let expected: Vec<&str> = s.split(';').collect();
        assert_eq!(split(s, ';', ';'), expected);
        let expected: Vec<&str> = s.split([';', ',']).collect();
        assert_eq!(split(s, ';', ','), expected);
        let expected = s.split_once(';').map(|(a, b)| (a.to_string(), b.to_string()));
        assert_eq!(split_once(s, ';'), expected);
    }
}

#[test]
fn trimming_agrees_with_the_standard_library() {
    for s in ["", " ", " a ", "\t\r\na b\u{a0}\u{2003}", "\u{200b}x\u{feff}", "\u{1680}é\u{3000}"] {
        assert_eq!(trim(s), s.trim());
        assert_eq!(trim_end(s), s.trim_end());
    }
    for s in ["", "ab", "abab", "ababa", "xab"] {
        assert_eq!(trim_start_matches(s, "ab"), s.trim_start_matches("ab"));
    }
    assert_eq!(trim_start_matches("ab", ""), "ab");
}

#[test]
fn white_space_agrees_with_the_standard_library() {
    for n in 0..=0x10FFFF {
        if let Some(c) = char::from_u32(n) {
            assert_eq!(white(c), c.is_whitespace());
        }
    }
}

#[test]
fn replacing_and_joining() {
    assert_eq!(replace("a.b..c", '.', "@"), "a@b@@c");
    assert_eq!(replace("abc", 'b', ""), "ac");
    assert_eq!(join(&strings(&[]), ", "), "");
    assert_eq!(join(&strings(&["x"]), ", "), "x");
    assert_eq!(join(&strings(&["x", "", "y"]), ", "), "x, , y");
}

#[test]
fn prefixes() {
    assert!(starts_with("erts-1", "erts-"));
    assert!(!starts_with("erts", "erts-"));
    assert_eq!(strip_prefix("éa", "é").as_deref(), Some("a"));
    assert_eq!(strip_prefix("a", "").as_deref(), Some("a"));
    assert!(strip_prefix("", "a").is_none());
    assert!(same("é", "é"));
    assert!(!same("e", "é"));
    assert_eq!(to_chars("aé"), ['a', 'é']);
}

#[test]
fn numbers() {
    for n in [0, 7, 10, 99, 100, 1207, u64::MAX] {
        assert_eq!(decimal_text(n), n.to_string());
    }
    for n in [0, -1, 9, -10, i32::MIN, i32::MAX] {
        assert_eq!(signed_decimal_text(n), n.to_string());
    }
}

#[test]
fn sorting_agrees_with_the_standard_library() {
    let items = strings(&["b", "", "a", "é", "a", "Z", "zz", "z", "\u{10348}", "\u{ffff}"]);
    let mut expected = items.clone();
    expected.sort();
    assert_eq!(sort(&items), expected);
    for a in &items {
        for b in &items {
            assert_eq!(in_order(a, b), a <= b);
        }
    }
}
