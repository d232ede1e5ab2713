use media_tagger::text::{
    contains_exec, decimal_chars, pad_left_exec, parse_unsigned, replace_exec,
    stem_and_extension_exec, trim_exec,
};

fn chars(s: &str) -> Vec<char> {
    s.chars().collect()
}

#[test]
fn replace_is_left_to_right_and_non_overlapping() {
    assert_eq!(replace_exec(&chars("aaa"), &chars("aa"), &chars("b")), chars("ba"));
    assert_eq!(replace_exec(&chars("   "), &chars("  "), &chars(" ")), chars("  "));
    assert_eq!(replace_exec(&chars("x,y,z"), &chars(","), &chars("")), chars("xyz"));
    assert_eq!(replace_exec(&chars("abc"), &chars("d"), &chars("e")), chars("abc"));
}

#[test]
fn contains_finds_substrings() {
    assert!(contains_exec(&chars("dororo - 01.mkv"), &chars("dororo - 01")));
    assert!(contains_exec(&chars("abc"), &chars("")));
    assert!(!contains_exec(&chars("abc"), &chars("abcd")));
    assert!(!contains_exec(&chars("abc"), &chars("ac")));
}

#[test]
fn decimal_and_parse() {
    assert_eq!(decimal_chars(0), chars("0"));
    assert_eq!(decimal_chars(1207), chars("1207"));
    assert_eq!(parse_unsigned(&chars("1207"), usize::MAX), Some(1207));
    assert_eq!(parse_unsigned(&chars("+12"), usize::MAX), Some(12));
    assert_eq!(parse_unsigned(&chars("256"), 255), None);
    assert_eq!(parse_unsigned(&chars("255"), 255), Some(255));
    assert_eq!(parse_unsigned(&chars(""), 255), None);
    assert_eq!(parse_unsigned(&chars("+"), 255), None);
    assert_eq!(parse_unsigned(&chars("-1"), 255), None);
    assert_eq!(parse_unsigned(&chars("1a"), 255), None);
    assert_eq!(parse_unsigned(&chars("99999999999999999999999"), usize::MAX), None);
}

#[test]
fn parse_agrees_with_std() {
    for s in ["0", "7", "42", "255", "256", "", "+", "+5", "-5", "12x", "007"] {
        assert_eq!(parse_unsigned(&chars(s), 255).map(|v| v as u8), s.parse::<u8>().ok());
    }
}

#[test]
fn padding() {
    assert_eq!(pad_left_exec(&chars("7"), '0', 3), chars("007"));
    assert_eq!(pad_left_exec(&chars("1234"), '0', 3), chars("1234"));
    assert_eq!(pad_left_exec(&chars("7"), '0', 0), chars("7"));
}

#[test]
fn trimming() {
    assert_eq!(trim_exec(&chars(" \t a b \n")), chars("a b"));
    assert_eq!(trim_exec(&chars("   ")), chars(""));
}

#[test]
fn stems_and_extensions() {
    let split = |s: &str| {
        stem_and_extension_exec(&chars(s))
            .map(|(a, b)| (a.into_iter().collect::<String>(), b.into_iter().collect::<String>()))
    };
    assert_eq!(split("Dororo - 01.mkv"), Some(("Dororo - 01".to_string(), "mkv".to_string())));
    assert_eq!(split("a.b.c"), Some(("a.b".to_string(), "c".to_string())));
    assert_eq!(split("foo."), Some(("foo".to_string(), "".to_string())));
    assert_eq!(split(".bashrc"), None);
    assert_eq!(split(".."), None);
    assert_eq!(split("noext"), None);
    for s in ["Dororo - 01.mkv", "a.b.c", "foo.", ".bashrc", "noext", ".a.b"] {
        let p = std::path::Path::new(s);
        let expected = p.extension().map(|e| {
            (p.file_stem().unwrap().to_str().unwrap().to_string(), e.to_str().unwrap().to_string())
        });
        assert_eq!(split(s), expected);
    }
}

#[test]
fn whitespace_agrees_with_std() {
    for n in 0u32..=0x10ffff {
        if let Some(c) = char::from_u32(n) {
            assert_eq!(media_tagger::unicode::is_whitespace(c), c.is_whitespace(), "{:x}", n);
        }
    }
}
