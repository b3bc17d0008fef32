use zyncdb::record::{
    decode_file_line, decode_log_line, decode_snapshot_line, encode_delete, encode_file,
    encode_put, encode_snapshot, is_valid_key, LogEntry,
};
use zyncdb::text::{cut_at, has_char};

fn put(k: &str, v: &str) -> Option<(String, String)> {
    match decode_log_line(&encode_put(k, v)) {
        Some(LogEntry::Put { key, value }) => Some((key, value)),
        _ => None,
    }
}

#[test]
fn encoders_write_the_three_formats() {
    assert_eq!(encode_put("foo", "bar"), "PUT|foo|bar");
    assert_eq!(encode_delete("foo"), "DELETE|foo");
    assert_eq!(encode_snapshot("foo", "bar"), "foo|bar");
    assert_eq!(encode_file("foo", "bar"), "foo=bar");
}

#[test]
fn log_lines_are_read_back() {
    assert_eq!(put("foo", "bar"), Some(("foo".to_string(), "bar".to_string())));
    assert_eq!(put("foo", ""), Some(("foo".to_string(), "".to_string())));
    match decode_log_line(&encode_delete("foo")) {
        Some(LogEntry::Delete { key }) => assert_eq!(key, "foo"),
        _ => panic!("not a delete"),
    }
}

#[test]
fn log_decoder_trims_nothing() {
    match decode_log_line("PUT| a |b \r") {
        Some(LogEntry::Put { key, value }) => {
            assert_eq!(key, " a ");
            assert_eq!(value, "b \r");
        }
        _ => panic!("not a put"),
    }
    match decode_log_line("DELETE|a ") {
        Some(LogEntry::Delete { key }) => assert_eq!(key, "a "),
        _ => panic!("not a delete"),
    }
    assert!(decode_log_line(" PUT|a|b").is_none());
    assert!(decode_log_line("PUT |a|b").is_none());
}

#[test]
fn a_put_line_is_cut_at_its_first_two_delimiters() {
    match decode_log_line("PUT|a|b|c") {
        Some(LogEntry::Put { key, value }) => {
            assert_eq!(key, "a");
            assert_eq!(value, "b|c");
        }
        _ => panic!("not a put"),
    }
    match decode_log_line("DELETE|a|b") {
        Some(LogEntry::Delete { key }) => assert_eq!(key, "a|b"),
        _ => panic!("not a delete"),
    }
}

#[test]
fn log_decoder_refuses_other_lines() {
    assert!(decode_log_line("").is_none());
    assert!(decode_log_line("   ").is_none());
    assert!(decode_log_line("PUT|a").is_none());
    assert!(decode_log_line("PUT").is_none());
    assert!(decode_log_line("put|a|b").is_none());
    assert!(decode_log_line("DELETE").is_none());
    assert!(decode_log_line("GET|a").is_none());
    assert!(decode_log_line("INVALID_LINE").is_none());
}

#[test]
fn a_value_with_the_delimiter_is_read_back() {
    assert_eq!(put("k", "a|b"), Some(("k".to_string(), "a|b".to_string())));
    assert_eq!(put("k", "v "), Some(("k".to_string(), "v ".to_string())));
    assert_eq!(put("k", "|"), Some(("k".to_string(), "|".to_string())));
}

#[test]
fn snapshot_lines_are_cut_at_the_first_delimiter() {
    assert_eq!(decode_snapshot_line("k|v"), Some(("k".to_string(), "v".to_string())));
    assert_eq!(decode_snapshot_line(" k|v \r"), Some((" k".to_string(), "v \r".to_string())));
    assert_eq!(decode_snapshot_line("|"), Some(("".to_string(), "".to_string())));
    assert_eq!(decode_snapshot_line("k|v|w"), Some(("k".to_string(), "v|w".to_string())));
    assert_eq!(decode_snapshot_line("k"), None);
    assert_eq!(decode_snapshot_line(""), None);
    assert_eq!(
        decode_snapshot_line(&encode_snapshot("k", "v ")),
        Some(("k".to_string(), "v ".to_string()))
    );
}

#[test]
fn file_lines_are_cut_at_the_first_equals_sign() {
    assert_eq!(decode_file_line("k=v"), Some(("k".to_string(), "v".to_string())));
    assert_eq!(decode_file_line("k=a=b"), Some(("k".to_string(), "a=b".to_string())));
    assert_eq!(decode_file_line("  k= v  "), Some(("  k".to_string(), " v  ".to_string())));
    assert_eq!(decode_file_line("=v"), Some(("".to_string(), "v".to_string())));
    assert_eq!(decode_file_line("no sign"), None);
    assert_eq!(decode_file_line(""), None);
}

#[test]
fn valid_keys() {
    assert!(is_valid_key("foo"));
    assert!(is_valid_key("a b"));
    assert!(!is_valid_key(""));
    assert!(!is_valid_key("a|b"));
    assert!(is_valid_key(&"k".repeat(255)));
    assert!(!is_valid_key(&"k".repeat(256)));
    // the limit counts bytes: 128 two-byte characters are 256 bytes
    assert!(is_valid_key(&"é".repeat(127)));
    assert!(!is_valid_key(&"é".repeat(128)));
}

#[test]
fn cut_at_cuts_at_the_first_delimiter() {
    assert_eq!(cut_at("a|b|c", '|'), Some(("a", "b|c")));
    assert_eq!(cut_at("|", '|'), Some(("", "")));
    assert_eq!(cut_at("a|", '|'), Some(("a", "")));
    assert_eq!(cut_at("abc", '|'), None);
    assert_eq!(cut_at("", '|'), None);
}

#[test]
fn has_char_finds_the_delimiter() {
    assert!(has_char("a|b", '|'));
    assert!(has_char("|", '|'));
    assert!(!has_char("ab", '|'));
    assert!(!has_char("", '|'));
}
