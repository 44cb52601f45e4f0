use quietwrite::order::sort;
use quietwrite::text::{
    contains, decimal_text, find, is_ascii_alphanumeric, is_control, is_space, lines, parse_i8,
    parse_unsigned, split, trim,
};

fn chars(text: &str) -> Vec<char> {
    text.chars().collect()
}

fn strings(parts: Vec<Vec<char>>) -> Vec<String> {
    parts.iter().map(|part| part.iter().collect()).collect()
}

#[test]
fn character_classes_agree_with_the_standard_library() {
    for code in 0..=0x10ffff_u32 {
        if let Some(c) = char::from_u32(code) {
            assert_eq!(is_space(c), c.is_whitespace(), "{code:x}");
            assert_eq!(is_control(c), c.is_control(), "{code:x}");
            assert_eq!(is_ascii_alphanumeric(c), c.is_ascii_alphanumeric(), "{code:x}");
        }
    }
}

#[test]
fn trimming_splitting_and_lines_agree_with_the_standard_library() {
    for text in [
        "", " ", "a", " a b ", "\u{3000}x\n", "a:b", ":", "a::b:", "one\ntwo", "one\r\ntwo\r",
        "\n", "a\n\n", "\r\n", "x\ry\n",
    ] {
        assert_eq!(trim(&chars(text)).iter().collect::<String>(), text.trim());
        let pieces: Vec<String> = text.split(':').map(String::from).collect();
        assert_eq!(strings(split(&chars(text), ':')), pieces);
        let rows: Vec<String> = text.lines().map(String::from).collect();
        assert_eq!(strings(lines(&chars(text))), rows);
    }
}

#[test]
fn numbers_agree_with_the_standard_library() {
    for number in [0_u64, 7, 10, 99, 1234567890, u64::MAX] {
        let text = decimal_text(number as u128);
        assert_eq!(text, number.to_string());
        assert_eq!(parse_unsigned(&chars(&text), u64::MAX), Some(number));
    }
    for text in ["", "+", "-", "+5", "-0", "-128", "-129", "127", "128", "007", "1a", " 1", "--1"] {
        assert_eq!(parse_i8(&chars(text)), text.parse::<i8>().ok(), "{text}");
        assert_eq!(
            parse_unsigned(&chars(text), 255),
            text.parse::<u8>().ok().map(u64::from),
            "{text}"
        );
    }
    assert_eq!(parse_unsigned(&chars("99999999999999999999999"), u64::MAX), None);
}

#[test]
fn searching_finds_the_first_place() {
    assert_eq!(find(&chars("abcabc"), &chars("ca"), 0), Some(2));
    assert_eq!(find(&chars("abcabc"), &chars("abc"), 1), Some(3));
    assert_eq!(find(&chars("abc"), &chars(""), 3), Some(3));
    assert_eq!(find(&chars("abc"), &chars("d"), 0), None);
    assert!(contains(&chars("lighthouse"), &chars("house")));
    assert!(!contains(&chars("light"), &chars("lights")));
}

#[test]
fn sorting_orders_and_keeps_everything() {
    let names: Vec<String> = ["b", "a", "é", "", "ab", "a"].iter().map(|s| s.to_string()).collect();
    let mut expected = names.clone();
    expected.sort();
    assert_eq!(sort(names), expected);
}
