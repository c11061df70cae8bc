use channel_relay::text::{is_space, join, parse_id, split, str_eq, str_le, trim};

#[test]
fn str_le_is_the_order_of_strings() {
    let samples = ["", "a", "A", "ab", "abc", "abd", "b", "é", "z", "#mirror", "#alerts", "ab\u{10000}", "ab\u{ffff}"];
    for a in samples.iter() {
        for b in samples.iter() {
            assert_eq!(str_le(a, b), a <= b);
            assert_eq!(str_eq(a, b), a == b);
        }
    }
}

#[test]
fn is_space_is_white_space() {
    let mut n: u32 = 0;
    while n <= 0x10FFFF {
        if let Some(c) = char::from_u32(n) {
            assert_eq!(is_space(c), c.is_whitespace());
        }
        n += 1;
    }
}

#[test]
fn trim_removes_white_space_at_both_ends() {
    let samples = ["", " ", "a", " a", "a ", "  a b  ", "\t\nabc\r\n", "\u{a0}x\u{3000}", " \u{2003}", "é ", " [x] y "];
    for s in samples.iter() {
        assert_eq!(trim(s), s.trim());
    }
    assert_eq!(trim("  Guild X \n"), "Guild X");
}

#[test]
fn split_cuts_at_every_separator() {
    let samples = ["", " ", "a", "@team", "@a @b", "a  b", " a", "a ", "é ü", "  "];
    for s in samples.iter() {
        let expected: Vec<String> = s.split(' ').map(|p| p.to_string()).collect();
        assert_eq!(split(s, ' '), expected);
    }
    assert_eq!(split("@a @b", ' '), vec!["@a".to_string(), "@b".to_string()]);
    assert_eq!(split("a  b", ' '), vec!["a".to_string(), "".to_string(), "b".to_string()]);
}

#[test]
fn join_puts_the_separator_between() {
    let none: Vec<String> = Vec::new();
    assert_eq!(join(&none, "\n"), "");
    assert_eq!(join(&vec!["@a".to_string()], "\n"), "@a");
    assert_eq!(join(&vec!["@a".to_string(), "@b".to_string(), "".to_string()], "\n"), "@a\n@b\n");
    let parts = vec!["x".to_string(), "y".to_string(), "z".to_string()];
    assert_eq!(join(&parts, ", "), parts.join(", "));
}

#[test]
fn parse_id_reads_decimal_digits() {
    assert_eq!(parse_id("0"), Some(0));
    assert_eq!(parse_id("945744069596971021"), Some(945744069596971021));
    assert_eq!(parse_id("+17"), Some(17));
    assert_eq!(parse_id("007"), Some(7));
    assert_eq!(parse_id("18446744073709551615"), Some(u64::MAX));
    assert_eq!(parse_id("18446744073709551616"), None);
    assert_eq!(parse_id("99999999999999999999999"), None);
    assert_eq!(parse_id(""), None);
    assert_eq!(parse_id("+"), None);
    assert_eq!(parse_id("-1"), None);
    assert_eq!(parse_id("12a"), None);
    assert_eq!(parse_id(" 12"), None);
    assert_eq!(parse_id("++1"), None);
    let samples = ["1", "+1", "18446744073709551615", "18446744073709551616", "x", "", "1 ", "٣"];
    for s in samples.iter() {
        assert_eq!(parse_id(s), s.parse::<u64>().ok());
    }
}
