use solana_balance_watcher::text::{chars_of, parse_u64, same_text, split_all, split_once};

#[test]
fn split_once_cuts_at_the_first_delimiter() {
    assert_eq!(split_once("name=value", '='), Some(("name", "value")));
    assert_eq!(split_once("a=b=c", '='), Some(("a", "b=c")));
    assert_eq!(split_once("b58:32:ABC123", ':'), Some(("b58", "32:ABC123")));
}

#[test]
fn split_once_keeps_empty_parts() {
    assert_eq!(split_once("=", '='), Some(("", "")));
    assert_eq!(split_once("=value", '='), Some(("", "value")));
    assert_eq!(split_once("name=", '='), Some(("name", "")));
}

#[test]
fn split_once_without_delimiter_is_none() {
    assert_eq!(split_once("namevalue", '='), None);
    assert_eq!(split_once("", '='), None);
}

#[test]
fn split_once_counts_characters_not_bytes() {
    assert_eq!(split_once("größe=é", '='), Some(("größe", "é")));
    assert_eq!(split_once("日本=語", '='), Some(("日本", "語")));
}

#[test]
fn split_all_gives_every_piece_in_order() {
    assert_eq!(split_all("prog size:165 b58:32:ABC123", ' '), vec!["prog", "size:165", "b58:32:ABC123"]);
    assert_eq!(split_all("single", ' '), vec!["single"]);
}

#[test]
fn split_all_keeps_empty_pieces() {
    assert_eq!(split_all("", ' '), vec![""]);
    assert_eq!(split_all(" ", ' '), vec!["", ""]);
    assert_eq!(split_all("a  b", ' '), vec!["a", "", "b"]);
    assert_eq!(split_all(" a ", ' '), vec!["", "a", ""]);
}

#[test]
fn split_all_agrees_with_std() {
    for text in ["", " ", "a b c", "  lead", "trail  ", "x", "ü ö ä"] {
        let expected: Vec<&str> = text.split(' ').collect();
        assert_eq!(split_all(text, ' '), expected);
    }
}

#[test]
fn parse_u64_reads_decimal_numbers() {
    assert_eq!(parse_u64("0"), Some(0));
    assert_eq!(parse_u64("165"), Some(165));
    assert_eq!(parse_u64("007"), Some(7));
    assert_eq!(parse_u64("1000000000"), Some(1_000_000_000));
}

#[test]
fn parse_u64_accepts_one_plus_sign() {
    assert_eq!(parse_u64("+5"), Some(5));
    assert_eq!(parse_u64("++5"), None);
    assert_eq!(parse_u64("+"), None);
    assert_eq!(parse_u64("5+"), None);
}

#[test]
fn parse_u64_refuses_what_is_no_number() {
    assert_eq!(parse_u64(""), None);
    assert_eq!(parse_u64("-1"), None);
    assert_eq!(parse_u64("-0"), None);
    assert_eq!(parse_u64("abc"), None);
    assert_eq!(parse_u64("12a"), None);
    assert_eq!(parse_u64(" 12"), None);
    assert_eq!(parse_u64("12 "), None);
    assert_eq!(parse_u64("1.5"), None);
    assert_eq!(parse_u64("١٢"), None);
}

#[test]
fn parse_u64_stops_at_the_largest_number() {
    assert_eq!(parse_u64("18446744073709551615"), Some(u64::MAX));
    assert_eq!(parse_u64("18446744073709551616"), None);
    assert_eq!(parse_u64("99999999999999999999"), None);
    assert_eq!(parse_u64("000000000000000000000000000001"), Some(1));
}

#[test]
fn parse_u64_agrees_with_std() {
    for text in ["", "+", "-", "0", "+0", "-0", "42", "+42", "-42", "4 2", "18446744073709551615", "18446744073709551616", "x"] {
        assert_eq!(parse_u64(text), text.parse::<u64>().ok(), "on {:?}", text);
    }
}

#[test]
fn same_text_compares_characters() {
    assert!(same_text("b58", "b58"));
    assert!(same_text("", ""));
    assert!(!same_text("b58", "b59"));
    assert!(!same_text("b58", "b5"));
    assert!(!same_text("size", "Size"));
}

#[test]
fn chars_of_lists_the_characters() {
    assert_eq!(chars_of("a=é"), vec!['a', '=', 'é']);
    assert_eq!(chars_of(""), Vec::<char>::new());
}
