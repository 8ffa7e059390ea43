use flowtrack::text::{
    char_is_space, chars_are, chars_equal, find_char, find_in, find_str, from_chars,
    parse_hex_group, parse_number, push_decimal, push_hex, rfind_in, slice_chars,
    split_at_char, split_fields, split_lines, to_chars, trim,
};

fn chars(s: &str) -> Vec<char> {
    s.chars().collect()
}

fn texts(v: Vec<Vec<char>>) -> Vec<String> {
    v.iter().map(|t| t.iter().collect()).collect()
}

fn decimal(n: u64) -> String {
    let mut out = Vec::new();
    push_decimal(&mut out, n);
    out.into_iter().collect()
}

fn hex(n: u64, upper: bool) -> String {
    let mut out = Vec::new();
    push_hex(&mut out, n, upper);
    out.into_iter().collect()
}

#[test]
fn strings_and_characters_convert_both_ways() {
    assert_eq!(to_chars("añ€😀"), vec!['a', 'ñ', '€', '😀']);
    assert_eq!(from_chars(&vec!['a', 'ñ', '€', '😀']), "añ€😀");
    assert_eq!(to_chars(""), Vec::<char>::new());
    assert_eq!(from_chars(&Vec::new()), "");
    assert!(chars_are(&chars("tcp"), "tcp"));
    assert!(!chars_are(&chars("tcp"), "tcp6"));
    assert!(!chars_are(&chars("tcp"), "tcq"));
    assert!(chars_equal(&chars(""), &chars("")));
    assert_eq!(slice_chars(&chars("abcdef"), 2, 4), chars("cd"));
    assert_eq!(slice_chars(&chars("abcdef"), 3, 3), chars(""));
}

#[test]
fn numbers_are_written_in_decimal_and_hexadecimal() {
    assert_eq!(decimal(0), "0");
    assert_eq!(decimal(7), "7");
    assert_eq!(decimal(10), "10");
    assert_eq!(decimal(4242), "4242");
    assert_eq!(decimal(u64::MAX), "18446744073709551615");
    assert_eq!(hex(0, true), "0");
    assert_eq!(hex(0xD2F0, true), "D2F0");
    assert_eq!(hex(0xD2F0, false), "d2f0");
    assert_eq!(hex(0x0A000005, true), "A000005");
    assert_eq!(hex(u64::MAX, false), "ffffffffffffffff");
}

#[test]
fn numbers_are_read_from_decimal() {
    assert_eq!(parse_number(&chars("0"), 255), Some(0));
    assert_eq!(parse_number(&chars("255"), 255), Some(255));
    assert_eq!(parse_number(&chars("256"), 255), None);
    assert_eq!(parse_number(&chars("+12"), 255), Some(12));
    assert_eq!(parse_number(&chars("000000000000000000000012"), 255), Some(12));
    assert_eq!(parse_number(&chars("4294967295"), 0xFFFF_FFFF), Some(4294967295));
    assert_eq!(parse_number(&chars("4294967296"), 0xFFFF_FFFF), None);
    assert_eq!(parse_number(&chars("99999999999999999999999999"), 0xFFFF_FFFF), None);
    for bad in ["", "+", "-1", "1 ", " 1", "1a", "++1", "١"] {
        assert_eq!(parse_number(&chars(bad), 1000), None);
    }
    for n in [0u64, 1, 9, 10, 99, 100, 65535, 123456789] {
        assert_eq!(parse_number(&chars(&decimal(n)), 0xFFFF_FFFF), Some(n));
    }
    assert_eq!(parse_hex_group(&chars("0")), Some(0));
    assert_eq!(parse_hex_group(&chars("fFfF")), Some(0xffff));
    assert_eq!(parse_hex_group(&chars("0db8")), Some(0x0db8));
    assert_eq!(parse_hex_group(&chars("")), None);
    assert_eq!(parse_hex_group(&chars("12345")), None);
    assert_eq!(parse_hex_group(&chars("12g")), None);
}

#[test]
fn lines_are_cut_into_fields() {
    assert_eq!(texts(split_fields(&chars("  tcp \t ESTAB\u{a0}0  "))), vec!["tcp", "ESTAB", "0"]);
    assert_eq!(texts(split_fields(&chars("one"))), vec!["one"]);
    assert!(split_fields(&chars("")).is_empty());
    assert!(split_fields(&chars(" \n\r\t ")).is_empty());
    assert_eq!(texts(split_fields(&chars("a\u{3000}b\u{2003}c\u{200b}d"))), vec!["a", "b", "c\u{200b}d"]);
    for c in ['\t', '\n', '\u{b}', '\u{c}', '\r', ' ', '\u{85}', '\u{a0}', '\u{1680}', '\u{2000}',
        '\u{200a}', '\u{2028}', '\u{2029}', '\u{202f}', '\u{205f}', '\u{3000}'] {
        assert!(char_is_space(c));
        assert!(c.is_whitespace());
    }
    for c in ['a', '0', '\u{8}', '\u{e}', '\u{1f}', '\u{200b}', '\u{feff}', '\u{180e}'] {
        assert_eq!(char_is_space(c), c.is_whitespace());
        assert!(!char_is_space(c));
    }
}

#[test]
fn texts_are_cut_into_lines() {
    assert_eq!(texts(split_lines(&chars("a\nb\r\nc"))), vec!["a", "b", "c"]);
    assert_eq!(texts(split_lines(&chars("a\n\nb\n"))), vec!["a", "", "b"]);
    assert_eq!(texts(split_lines(&chars("\n"))), vec![""]);
    assert_eq!(texts(split_lines(&chars("a\r"))), vec!["a\r"]);
    assert_eq!(texts(split_lines(&chars("a\r\r\n"))), vec!["a\r"]);
    assert!(split_lines(&chars("")).is_empty());
    for text in ["", "x", "x\n", "\n\nx", "a\r\nb\rc\n\r\n", "\r\n"] {
        let expected: Vec<String> = text.lines().map(|l| l.to_string()).collect();
        assert_eq!(texts(split_lines(&chars(text))), expected);
    }
    assert_eq!(texts(split_at_char(&chars("a/b//c"), '/')), vec!["a", "b", "", "c"]);
    assert_eq!(texts(split_at_char(&chars(""), '/')), vec![""]);
    assert_eq!(texts(split_at_char(&chars("/"), '/')), vec!["", ""]);
}

#[test]
fn texts_are_searched_and_trimmed() {
    assert_eq!(find_str(&chars("a,pid=7,pid=8"), "pid="), Some(2));
    assert_eq!(find_str(&chars("pid"), "pid="), None);
    assert_eq!(find_str(&chars("aab"), "ab"), Some(1));
    assert_eq!(find_str(&chars("abc"), ""), Some(0));
    assert_eq!(find_in(&chars("abc"), &chars("c")), Some(2));
    assert_eq!(find_char(&chars("a:b:c"), ':'), Some(1));
    assert_eq!(find_char(&chars("abc"), ':'), None);
    assert_eq!(rfind_in(&chars("a:b:c"), ':'), Some(3));
    assert_eq!(rfind_in(&chars("abc"), ':'), None);
    assert_eq!(trim(&chars("  a b \n")), chars("a b"));
    assert_eq!(trim(&chars("a")), chars("a"));
    assert_eq!(trim(&chars(" \t ")), chars(""));
    assert_eq!(trim(&chars("")), chars(""));
}

#[test]
fn numbers_are_read_as_the_standard_library_reads_them() {
    for text in ["0", "7", "+7", "-7", "007", "+007", "", "+", "65535", "65536", "4294967295",
        "4294967296", "99999999999999999999", "1_000", "0x10", " 1", "1 ", "+-1", "٣"] {
        let expected32 = text.parse::<u32>().ok().map(|n| n as u64);
        assert_eq!(parse_number(&chars(text), 0xFFFF_FFFF), expected32, "{}", text);
        let expected16 = text.parse::<u16>().ok().map(|n| n as u64);
        assert_eq!(parse_number(&chars(text), 65535), expected16, "{}", text);
    }
    for text in ["", " a  b ", "\u{2003}a\u{a0}\u{a0}b\tc\n", "a\u{200b}b", "\u{1680}x\u{3000}"] {
        let expected: Vec<String> = text.split_whitespace().map(|t| t.to_string()).collect();
        assert_eq!(texts(split_fields(&chars(text))), expected);
        assert_eq!(trim(&chars(text)), chars(text.trim()));
    }
}
