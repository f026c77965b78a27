use simple_forwarder::text::{
    contains_text, find_first, find_last, has_prefix, parse_port, push_decimal, split_words,
    take_first_line, to_chars, trim_chars, whitespace, TrimSet,
};
use simple_forwarder::buffer::{byte_range, find_byte, read_port};

fn chars(s: &str) -> Vec<char> {
    s.chars().collect()
}

#[test]
fn white_space_is_that_of_unicode() {
    for n in 0..0x11_0000u32 {
        if let Some(c) = char::from_u32(n) {
            assert_eq!(whitespace(c), c.is_whitespace(), "{:x}", n);
        }
    }
}

#[test]
fn words_and_trims_agree_with_std() {
    for s in ["", " ", "a", " a b ", "\ta\u{a0}b\r\n", "GET / HTTP/1.1\r\n", "a\u{2003}\u{3000}b"] {
        let words: Vec<String> =
            split_words(&chars(s)).iter().map(|w| w.iter().collect()).collect();
        let expected: Vec<&str> = s.split_whitespace().collect();
        assert_eq!(words, expected);
        let trimmed: String = trim_chars(&chars(s), TrimSet::Whitespace).iter().collect();
        assert_eq!(trimmed, s.trim());
        let only: String = trim_chars(&chars(s), TrimSet::Only('a')).iter().collect();
        assert_eq!(only, s.trim_matches('a'));
        let line: String = take_first_line(&chars(s)).iter().collect();
        assert_eq!(line, s.lines().next().unwrap_or(""));
    }
}

#[test]
fn ports_agree_with_std() {
    for s in [
        "", "0", "80", "+80", "-1", "++1", "+", "65535", "65536", "00080", "1a", "a", " 1",
        "99999999999999999999", "\u{0661}",
    ] {
        assert_eq!(parse_port(&chars(s), 0), s.parse::<u16>().ok(), "{}", s);
    }
    assert_eq!(parse_port(&chars("h:80"), 2), Some(80));
}

#[test]
fn port_numerals_come_back() {
    for port in 0..=u16::MAX {
        let mut s = String::new();
        push_decimal(&mut s, port as u64);
        assert_eq!(s, port.to_string());
        assert_eq!(parse_port(&chars(&s), 0), Some(port));
        assert_eq!(read_port((port >> 8) as u8, port as u8), port);
    }
    let mut s = String::new();
    push_decimal(&mut s, u64::MAX);
    assert_eq!(s, u64::MAX.to_string());
}

#[test]
fn searches() {
    let s = chars("a:b:c");
    assert_eq!(to_chars("a:b:c"), s);
    assert_eq!(find_first(&s, ':'), Some(1));
    assert_eq!(find_last(&s, ':'), Some(3));
    assert_eq!(find_first(&s, 'x'), None);
    assert_eq!(find_last(&s, 'x'), None);
    assert!(has_prefix(&s, "a:"));
    assert!(has_prefix(&s, ""));
    assert!(!has_prefix(&s, "a:b:cd"));
    assert!(contains_text(&s, "b:"));
    assert!(contains_text(&s, ""));
    assert!(!contains_text(&s, "bc"));
    assert_eq!(find_byte(b"a\nb\n", 0, b'\n'), Some(1));
    assert_eq!(find_byte(b"a\nb\n", 2, b'\n'), Some(3));
    assert_eq!(find_byte(b"a\nb\n", 4, b'\n'), None);
    assert_eq!(byte_range(b"abcdef", 2, 4), b"cd");
}
