use study_bible::text::{
    chars_of, contains, contains_str, copy_range, is_whitespace, parse_u32_range, push_decimal,
    push_text, same_chars, same_text, split_words, string_of, string_of_range, to_ascii_upper,
    trim,
};

fn chars(s: &str) -> Vec<char> {
    s.chars().collect()
}

fn parse(s: &str) -> Option<u32> {
    let c = chars(s);
    parse_u32_range(&c, 0, c.len())
}

fn decimal(n: u64) -> String {
    let mut s = String::new();
    push_decimal(&mut s, n);
    s
}

#[test]
fn strings_and_characters_convert_both_ways() {
    assert_eq!(chars_of("héllo ✓"), chars("héllo ✓"));
    assert_eq!(chars_of(""), Vec::<char>::new());
    assert_eq!(string_of(&chars("Génesis")), "Génesis");
    assert_eq!(string_of_range(&chars("abcdef"), 2, 4), "cd");
    assert_eq!(string_of_range(&chars("abcdef"), 3, 3), "");
    assert_eq!(copy_range(&chars("abcdef"), 1, 5), chars("bcde"));
    let mut s = "ab".to_string();
    push_text(&mut s, "cd");
    assert_eq!(s, "abcd");
}

#[test]
fn sameness_compares_every_item() {
    assert!(same_chars(&chars("abc"), &chars("abc")));
    assert!(!same_chars(&chars("abc"), &chars("abd")));
    assert!(!same_chars(&chars("abc"), &chars("ab")));
    assert!(same_chars(&chars(""), &chars("")));
    assert!(same_text("kjv", "kjv"));
    assert!(!same_text("kjv", "KJV"));
}

#[test]
fn numbers_are_read_as_the_standard_library_reads_them() {
    for text in [
        "0", "1", "42", "007", "+5", "4294967295", "4294967296", "00000000000000000000001", "",
        "+", "-", "-1", "++1", "1+", " 1", "1 ", "1_000", "١٢", "12a", "a", "99999999999999999999",
    ] {
        assert_eq!(parse(text), text.parse::<u32>().ok(), "{:?}", text);
    }
    assert_eq!(parse("4294967295"), Some(u32::MAX));
    assert_eq!(parse("4294967296"), None);
    let c = chars("ab123cd");
    assert_eq!(parse_u32_range(&c, 2, 5), Some(123));
    assert_eq!(parse_u32_range(&c, 2, 6), None);
    assert_eq!(parse_u32_range(&c, 3, 3), None);
}

#[test]
fn numbers_are_written_in_decimal() {
    for n in [0u64, 1, 9, 10, 11, 99, 100, 1189, 4294967295, u64::MAX] {
        assert_eq!(decimal(n), n.to_string());
    }
    let mut s = "v".to_string();
    push_decimal(&mut s, 31);
    assert_eq!(s, "v31");
}

#[test]
fn whitespace_is_what_the_standard_library_takes_for_it() {
    for n in 0..=0x10ffff_u32 {
        if let Some(c) = char::from_u32(n) {
            assert_eq!(is_whitespace(c), c.is_whitespace(), "{:?}", c);
        }
    }
    for c in [' ', '\t', '\n', '\u{b}', '\u{c}', '\r', '\u{85}', '\u{a0}', '\u{1680}', '\u{2000}', '\u{200a}', '\u{2028}', '\u{2029}', '\u{202f}', '\u{205f}', '\u{3000}'] {
        assert!(is_whitespace(c), "{:?}", c);
    }
    for c in ['a', '0', '\u{0}', '\u{8}', '\u{e}', '\u{1f}', '\u{180e}', '\u{200b}', '\u{feff}', '\u{2060}'] {
        assert!(!is_whitespace(c), "{:?}", c);
    }
}

#[test]
fn trim_removes_whitespace_at_both_ends_only() {
    for text in
        ["", " ", "a", "  a b  ", "\t\r\na\u{a0}\u{3000}", "\u{2003}x y\u{2003}", "a ", " a", "\n\n"]
    {
        assert_eq!(trim(&chars(text)), text.trim(), "{:?}", text);
    }
}

#[test]
fn words_are_the_runs_between_whitespace() {
    for text in ["", "   ", "one", " one  two\tthree\n", "a\u{a0}b", "The  Holy Bible ", "x y z w"] {
        let words: Vec<String> = split_words(&chars(text)).iter().map(|w| string_of(w)).collect();
        let expected: Vec<String> = text.split_whitespace().map(|w| w.to_string()).collect();
        assert_eq!(words, expected, "{:?}", text);
    }
}

#[test]
fn contains_finds_a_pattern_anywhere() {
    for (text, pattern) in [
        ("", ""), ("abc", ""), ("", "a"), ("abc", "abc"), ("abc", "abcd"), ("xxabcxx", "abc"),
        ("aaab", "aab"), ("abab", "bb"), ("New King James", "King James"), ("abc", "c"),
        ("abc", "a"), ("abc", "d"),
    ] {
        assert_eq!(contains(&chars(text), &chars(pattern)), text.contains(pattern), "{:?}", (text, pattern));
        assert_eq!(contains_str(&chars(text), pattern), text.contains(pattern));
    }
}

#[test]
fn ascii_letters_are_raised() {
    for c in ['a', 'z', 'm', 'A', 'Z', '0', ' ', '{', '`', 'é', 'ß', '✓'] {
        assert_eq!(to_ascii_upper(c), c.to_ascii_uppercase(), "{:?}", c);
    }
}
