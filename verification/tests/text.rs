use navd::text::{chars_of, is_whitespace, parse_unsigned, push_decimal, split_lines, split_words};

fn parse(text: &str, max: u64) -> Option<u64> {
    parse_unsigned(&chars_of(text), max)
}

fn strings(list: Vec<Vec<char>>) -> Vec<String> {
    list.into_iter().map(|w| w.into_iter().collect()).collect()
}

#[test]
fn whitespace_is_that_of_unicode() {
    for code in 0..=0x10FFFFu32 {
        if let Some(c) = char::from_u32(code) {
            assert_eq!(is_whitespace(c), c.is_whitespace());
        }
    }
}

#[test]
fn numbers_read_like_std() {
    let samples = [
        "", "+", "-", "0", "7", "+7", "-7", "-0", "++7", "007", "255", "256", "+255", "1a", "a1",
        " 1", "65535", "65536", "18446744073709551615", "18446744073709551616",
        "99999999999999999999999999", "\u{0664}", "1_000", "0x10", "+0",
    ];
    for s in samples {
        assert_eq!(parse(s, 255), s.parse::<u8>().ok().map(u64::from));
        assert_eq!(parse(s, 65535), s.parse::<u16>().ok().map(u64::from));
        assert_eq!(parse(s, u64::MAX), s.parse::<u64>().ok());
    }
}

#[test]
fn numbers_are_written_like_std() {
    for n in [0, 9, 10, 99, 100, 255, 1234567890, u64::MAX - 1, u64::MAX] {
        let mut out = String::from("n=");
        push_decimal(&mut out, n);
        assert_eq!(out, format!("n={n}"));
    }
}

#[test]
fn decimal_round_trip() {
    for n in [0, 1, 10, 4294967296, u64::MAX] {
        let mut out = String::new();
        push_decimal(&mut out, n);
        assert_eq!(parse(&out, u64::MAX), Some(n));
    }
}

#[test]
fn words_split_like_std() {
    for s in ["", "  ", "a", " a b ", "12\t5\u{2003}x\r", "one two  three", "\u{85}q\u{a0}"] {
        let expected: Vec<String> = s.split_whitespace().map(String::from).collect();
        assert_eq!(strings(split_words(&chars_of(s))), expected);
    }
}

#[test]
fn lines_split_at_newlines() {
    assert_eq!(strings(split_lines(&chars_of("a\nb\n"))), vec!["a", "b", ""]);
    assert_eq!(strings(split_lines(&chars_of("a\r\n\nb"))), vec!["a\r", "", "b"]);
    assert_eq!(strings(split_lines(&chars_of(""))), vec![""]);
}
