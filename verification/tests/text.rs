use streaming_engine::text::{
    cat, decimal_text, find_char, parse_u64, parse_usize, rfind_char, same_text, starts_with,
    text_from, text_until,
};

#[test]
fn prefixes_and_parts() {
    assert!(starts_with("größe", "grö"));
    assert!(starts_with("a", ""));
    assert!(!starts_with("a", "ab"));
    assert!(same_text("é", "é"));
    assert!(!same_text("e", "é"));
    assert_eq!(text_from("größe", 3), "ße");
    assert_eq!(text_until("größe", 3), "grö");
    assert_eq!(cat("a", "ß"), "aß");
}

#[test]
fn searches_count_characters() {
    assert_eq!(find_char("ö.b.", '.'), Some(1));
    assert_eq!(rfind_char("ö.b.", '.'), Some(3));
    assert_eq!(find_char("ab", '.'), None);
    assert_eq!(rfind_char("", '.'), None);
}

#[test]
fn numbers_are_written_and_read() {
    for n in [0u64, 7, 10, 1234567890, u64::MAX] {
        assert_eq!(decimal_text(n), n.to_string());
        assert_eq!(parse_u64(decimal_text(n).as_bytes()), Some(n));
    }
    for s in ["", "+", "-1", "1a", " 1", "0x1", "++1", "18446744073709551616"] {
        assert_eq!(parse_u64(s.as_bytes()), s.parse::<u64>().ok());
        assert_eq!(parse_usize(s.as_bytes()), s.parse::<usize>().ok());
    }
    for s in ["+5", "007", "18446744073709551615"] {
        assert_eq!(parse_u64(s.as_bytes()), s.parse::<u64>().ok());
        assert_eq!(parse_usize(s.as_bytes()), s.parse::<usize>().ok());
    }
}
