use ponged::text::{
    chars_of, contains, decimal, eq_ignore_ascii_case, lines, parse_i32, parse_u16, parse_u32,
    parse_u64, replace, signed_decimal, split, split_once, strip_prefix, strip_suffix, text_of,
    to_ascii_lowercase, trim, words,
};

fn texts(v: Vec<Vec<char>>) -> Vec<String> {
    v.iter().map(text_of).collect()
}

fn strings<'a>(v: impl Iterator<Item = &'a str>) -> Vec<String> {
    v.map(str::to_string).collect()
}

#[test]
fn text_is_trimmed_and_split() {
    for t in ["", " a b ", "\u{a0}x\u{3000}", "\t\r\nñ\u{85}", "a\u{200b}", "x=1;;y", "a\r\nb\n\nc\r"] {
        assert_eq!(trim(t), t.trim());
        assert_eq!(texts(words(t)), strings(t.split_whitespace()));
        assert_eq!(texts(lines(t)), strings(t.lines()));
        assert_eq!(texts(split(&chars_of(t), ';')), strings(t.split(';')));
        let halves = split_once(&chars_of(t), '=').map(|(a, b)| (text_of(&a), text_of(&b)));
        let want = t.split_once('=').map(|(a, b)| (a.to_string(), b.to_string()));
        assert_eq!(halves, want);
    }
    assert_eq!(to_ascii_lowercase("ÁBc"), "Ábc");
    assert!(eq_ignore_ascii_case(&chars_of("CooKie"), "cookie"));
    assert!(!eq_ignore_ascii_case(&chars_of("Ñ"), "ñ"));
}

#[test]
fn numbers_are_read_and_written() {
    for n in [0u64, 9, 10, 99, u64::MAX] {
        assert_eq!(decimal(n), n.to_string());
        assert_eq!(parse_u64(&chars_of(&decimal(n))), Some(n));
    }
    for n in [0i64, -1, i64::MIN, i64::MAX, -10] {
        assert_eq!(signed_decimal(n), n.to_string());
    }
    for t in [
        "", "+", "-", "+5", "-5", "007", "4294967296", "65536", "2147483648", "-2147483648", " 1",
        "1x", "-0", "++1", "18446744073709551616", "٣",
    ] {
        let v = chars_of(t);
        assert_eq!(parse_u64(&v), t.parse::<u64>().ok());
        assert_eq!(parse_u32(&v), t.parse::<u32>().ok());
        assert_eq!(parse_u16(&v), t.parse::<u16>().ok());
        assert_eq!(parse_i32(&v), t.parse::<i32>().ok());
    }
}

#[test]
fn pieces_are_found_and_replaced() {
    assert_eq!(replace("a%X%b%X%", "%X%", "-"), "a-b-");
    assert_eq!(replace("ababa", "aba", "x"), "ababa".replace("aba", "x"));
    assert!(contains("abcabd", "abd"));
    assert!(contains("x", ""));
    assert!(!contains("ab", "abc"));
    assert_eq!(strip_prefix(&chars_of("/api/x"), "/api/").map(|v| text_of(&v)).as_deref(), Some("x"));
    assert!(strip_prefix(&chars_of("/ap"), "/api/").is_none());
    assert_eq!(strip_suffix(&chars_of("7/score"), "/score").map(|v| text_of(&v)).as_deref(), Some("7"));
    assert!(strip_suffix(&chars_of("score"), "/score").is_none());
}
