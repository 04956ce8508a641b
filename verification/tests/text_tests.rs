use geode_installer::text::{
    chars_of, contains, find_text, is_whitespace_char, joined, matches_at, string_of_range,
    to_decimal, to_hex,
};

fn chars(text: &str) -> Vec<char> {
    text.chars().collect()
}

#[test]
fn white_space_is_the_unicode_property() {
    let mut code = 0u32;
    while code <= 0x10ffff {
        if let Some(c) = char::from_u32(code) {
            assert_eq!(is_whitespace_char(c), c.is_whitespace(), "U+{:04X}", code);
        }
        code += 1;
    }
}

#[test]
fn strings_and_characters_convert_both_ways() {
    assert_eq!(chars_of("a\u{e9}\u{1f600}"), vec!['a', '\u{e9}', '\u{1f600}']);
    assert_eq!(chars_of(""), Vec::<char>::new());
    assert_eq!(string_of_range(&chars("h\u{e9}llo"), 0, 5), "h\u{e9}llo");
    assert_eq!(string_of_range(&chars("h\u{e9}llo"), 1, 3), "\u{e9}l");
    assert_eq!(string_of_range(&chars("hello"), 2, 2), "");
    assert_eq!(joined("ab", "cd"), "abcd");
}

#[test]
fn search_finds_the_first_occurrence() {
    let hay = chars("abcabcabc");
    assert_eq!(find_text(&hay, &chars("abc"), 0), Some(0));
    assert_eq!(find_text(&hay, &chars("abc"), 1), Some(3));
    assert_eq!(find_text(&hay, &chars("abc"), 6), Some(6));
    assert_eq!(find_text(&hay, &chars("abc"), 7), None);
    assert_eq!(find_text(&hay, &chars("cab"), 0), Some(2));
    assert_eq!(find_text(&hay, &chars("abd"), 0), None);
    assert_eq!(find_text(&hay, &chars(""), 4), Some(4));
    assert_eq!(find_text(&hay, &chars(""), 9), Some(9));
    assert_eq!(find_text(&hay, &chars(""), 10), None);
    assert_eq!(find_text(&chars("ab"), &chars("abc"), 0), None);
    assert_eq!(find_text(&chars(""), &chars(""), 0), Some(0));
}

#[test]
fn search_compares_whole_needles() {
    let hay = chars("xxay");
    assert!(matches_at(&hay, &chars("xa"), 1));
    assert!(!matches_at(&hay, &chars("xa"), 0));
    assert!(!matches_at(&hay, &chars("ay!"), 2));
    assert!(!matches_at(&hay, &chars("y"), 7));
    assert!(contains(&hay, &chars("ay")));
    assert!(!contains(&hay, &chars("ya")));
}

#[test]
fn numbers_are_written_without_leading_zeros() {
    assert_eq!(to_decimal(0), "0");
    assert_eq!(to_decimal(7), "7");
    assert_eq!(to_decimal(10), "10");
    assert_eq!(to_decimal(1700000000), "1700000000");
    assert_eq!(to_decimal(u64::MAX), "18446744073709551615");
    assert_eq!(to_hex(0), "0");
    assert_eq!(to_hex(15), "f");
    assert_eq!(to_hex(16), "10");
    assert_eq!(to_hex(255), "ff");
    assert_eq!(to_hex(1700000000), "6553f100");
    assert_eq!(to_hex(u64::MAX), "ffffffffffffffff");
}

#[test]
fn numbers_agree_with_the_standard_formatting() {
    let mut n: u64 = 1;
    while n < u64::MAX / 7 {
        assert_eq!(to_decimal(n), format!("{}", n));
        assert_eq!(to_hex(n), format!("{:x}", n));
        n = n * 7 + 3;
    }
}
