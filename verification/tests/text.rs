use keeper::text::{chars_of, decimal, ends_with, parse_i64, parse_u32, string_of, strip_newline, zero_padded};

#[test]
fn decimal_writes_numbers_as_display_does() {
    assert_eq!(decimal(0), "0");
    assert_eq!(decimal(7), "7");
    assert_eq!(decimal(10), "10");
    assert_eq!(decimal(-1), "-1");
    assert_eq!(decimal(1_000_000_000_555), "1000000000555");
    assert_eq!(decimal(i64::MAX), "9223372036854775807");
    assert_eq!(decimal(i64::MIN), "-9223372036854775808");
    for v in [-1234567i64, -10, -9, 9, 99, 100, 101, 4294967296] {
        assert_eq!(decimal(v), format!("{}", v));
    }
}

#[test]
fn zero_padded_fills_up_to_the_width() {
    assert_eq!(zero_padded(2024, 4), "2024");
    assert_eq!(zero_padded(7, 2), "07");
    assert_eq!(zero_padded(0, 2), "00");
    assert_eq!(zero_padded(12, 2), "12");
    assert_eq!(zero_padded(123, 2), "123");
    assert_eq!(zero_padded(99, 4), "0099");
    assert_eq!(zero_padded(12345, 4), "12345");
    assert_eq!(zero_padded(u32::MAX, 4), "4294967295");
    for v in [0u32, 5, 31, 999, 1000, 10000] {
        assert_eq!(zero_padded(v, 4), format!("{:04}", v));
        assert_eq!(zero_padded(v, 2), format!("{:02}", v));
    }
}

#[test]
fn parse_u32_reads_what_the_standard_library_reads() {
    assert_eq!(parse_u32("2024"), Some(2024));
    assert_eq!(parse_u32("07"), Some(7));
    assert_eq!(parse_u32("+12"), Some(12));
    assert_eq!(parse_u32("4294967295"), Some(u32::MAX));
    assert_eq!(parse_u32("4294967296"), None);
    assert_eq!(parse_u32(""), None);
    assert_eq!(parse_u32("+"), None);
    assert_eq!(parse_u32("-1"), None);
    assert_eq!(parse_u32("12a"), None);
    assert_eq!(parse_u32(" 12"), None);
    for s in ["0", "00000000000000000001", "99999999999999999999999", "1x", "x1", "+0", "-0", "++1", "٣"] {
        assert_eq!(parse_u32(s), s.parse::<u32>().ok(), "{}", s);
    }
}

#[test]
fn parse_i64_reads_what_the_standard_library_reads() {
    assert_eq!(parse_i64("1000000000555"), Some(1_000_000_000_555));
    assert_eq!(parse_i64("-5"), Some(-5));
    assert_eq!(parse_i64("+5"), Some(5));
    assert_eq!(parse_i64("9223372036854775807"), Some(i64::MAX));
    assert_eq!(parse_i64("9223372036854775808"), None);
    assert_eq!(parse_i64("-9223372036854775808"), Some(i64::MIN));
    assert_eq!(parse_i64("-9223372036854775809"), None);
    assert_eq!(parse_i64("-"), None);
    assert_eq!(parse_i64(""), None);
    for s in ["0", "-0", "+0", "0005", "-0005", "1e3", "12.5", "--1", "+-1", "99999999999999999999"] {
        assert_eq!(parse_i64(s), s.parse::<i64>().ok(), "{}", s);
    }
}

#[test]
fn characters_and_suffixes() {
    let v = chars_of("5.json");
    assert_eq!(v, vec!['5', '.', 'j', 's', 'o', 'n']);
    let suffix = chars_of(".json");
    assert!(ends_with(&v, v.len(), &suffix));
    assert!(!ends_with(&v, 5, &suffix));
    assert!(!ends_with(&suffix, 3, &v));
    assert_eq!(string_of(&v, 0, 1), "5");
    assert_eq!(string_of(&v, 1, 6), ".json");
    assert_eq!(string_of(&v, 2, 2), "");
}

#[test]
fn strip_newline_takes_one_line_feed_only() {
    assert_eq!(strip_newline("a\n".to_string()), "a");
    assert_eq!(strip_newline("a".to_string()), "a");
    assert_eq!(strip_newline("a\n\n".to_string()), "a\n");
    assert_eq!(strip_newline("a \r\n".to_string()), "a \r");
    assert_eq!(strip_newline("\n".to_string()), "");
    assert_eq!(strip_newline("".to_string()), "");
}

fn samples() -> Vec<String> {
    let mut out: Vec<String> = Vec::new();
    let pieces = ["", " ", "a", "\t", "\n", "\r", "\r\n", "b c", "\u{a0}", "\u{3000}x", "é", "\u{85}", "\u{2003}", "\u{200b}", "-"];
    for a in pieces {
        for b in pieces {
            for c in pieces {
                out.push(format!("{}{}{}", a, b, c));
            }
        }
    }
    out.push("  Bearer   abc  ".to_string());
    out.push("line one\nline two\r\nline three".to_string());
    out.push("ends with newline\n".to_string());
    out.push("ends with return\r".to_string());
    out
}

#[test]
fn white_space_is_what_the_standard_library_takes_for_it() {
    for n in 0..=0x10FFFFu32 {
        if let Some(c) = char::from_u32(n) {
            assert_eq!(keeper::text::space_char(c), c.is_whitespace(), "{:x}", n);
        }
    }
}

#[test]
fn trimming_and_splitting_agree_with_the_standard_library() {
    for s in samples() {
        assert_eq!(keeper::text::trim(&s), s.trim(), "{:?}", s);
        let fields: Vec<String> = s.split_whitespace().map(str::to_string).collect();
        assert_eq!(keeper::text::split_whitespace(&s), fields, "{:?}", s);
        let lines: Vec<String> = s.lines().map(str::to_string).collect();
        assert_eq!(keeper::text::split_lines(&s), lines, "{:?}", s);
    }
    assert_eq!(keeper::text::trim("  a b \n"), "a b");
    assert_eq!(keeper::text::split_whitespace(" a  b\tc\n"), vec!["a", "b", "c"]);
    assert_eq!(keeper::text::split_lines("a\r\nb\n\nc"), vec!["a", "b", "", "c"]);
}

#[test]
fn only_latin_capitals_fold_into_latin_letters() {
    for n in 0..=0x10FFFFu32 {
        if let Some(c) = char::from_u32(n) {
            let lower: String = c.to_lowercase().collect();
            if lower.chars().any(|l| "bearer".contains(l)) {
                assert!(c.is_ascii(), "{:x}", n);
                assert_eq!(lower, c.to_ascii_lowercase().to_string());
            }
        }
    }
    for (a, b) in [("Bearer", "bearer"), ("BEARER", "bearer"), ("bearer", "bearer"), ("bearer", "bearex"), ("bear", "bearer"), ("", ""), ("B\u{212a}", "bk"), ("é", "É")] {
        assert_eq!(keeper::text::eq_ignore_case(a, b), a.eq_ignore_ascii_case(b), "{:?} {:?}", a, b);
    }
    for s in samples() {
        let fields: Vec<&str> = s.split_whitespace().map(|f| f.trim()).collect();
        let by_the_book = fields.len() == 2
            && fields.iter().all(|f| !f.is_empty())
            && fields[0].to_lowercase().trim() == "bearer";
        let token = keeper::server::bearer_token(Some(&s));
        assert_eq!(token.is_some(), by_the_book, "{:?}", s);
        if by_the_book {
            assert_eq!(token.unwrap(), fields[1]);
        }
    }
}

#[test]
fn names_are_sorted_as_the_standard_library_sorts_them() {
    let mut all = samples();
    all.truncate(400);
    all.push("zeta".to_string());
    all.push("Zeta".to_string());
    all.push("alpha".to_string());
    all.push("alpha".to_string());
    all.push("alph".to_string());
    let sorted = keeper::text::sort_names(&all);
    all.sort();
    assert_eq!(sorted, all);
    assert_eq!(keeper::text::sort_names(&Vec::new()), Vec::<String>::new());
}

#[test]
fn texts_are_equal_when_all_their_characters_are() {
    for (a, b) in [("", ""), ("a", "a"), ("a", "b"), ("ab", "a"), ("a", "ab"), ("héllo", "héllo"), ("héllo", "hello")] {
        assert_eq!(keeper::text::str_eq(a, b), a == b, "{:?} {:?}", a, b);
    }
}
