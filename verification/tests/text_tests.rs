use rt::text::{parse_usize, text_equals};

#[test]
fn parse_usize_reads_decimal_numbers() {
    assert_eq!(parse_usize("0"), Some(0));
    assert_eq!(parse_usize("42"), Some(42));
    assert_eq!(parse_usize("007"), Some(7));
    assert_eq!(parse_usize("+800"), Some(800));
    assert_eq!(parse_usize(&usize::MAX.to_string()), Some(usize::MAX));
}

#[test]
fn parse_usize_rejects_what_str_parse_rejects() {
    for s in ["", "+", "-", "-1", "1.5", " 1", "1 ", "++1", "12a", "a12", "１２", "18446744073709551616"] {
        assert_eq!(parse_usize(s), s.parse::<usize>().ok(), "text {:?}", s);
        assert_eq!(parse_usize(s), None, "text {:?}", s);
    }
}

#[test]
fn parse_usize_agrees_with_str_parse() {
    for s in ["1", "+0", "65535", "4294967296", "18446744073709551615", "99", "+", "x"] {
        assert_eq!(parse_usize(s), s.parse::<usize>().ok(), "text {:?}", s);
    }
}

#[test]
fn text_equals_compares_characters() {
    assert!(text_equals("--width", "--width"));
    assert!(text_equals("", ""));
    assert!(!text_equals("--width", "--Width"));
    assert!(!text_equals("--width", "--widt"));
    assert!(text_equals("héllo", "héllo"));
    assert!(!text_equals("héllo", "hello"));
}
