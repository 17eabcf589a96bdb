use http_tunnel::headers::Headers;
use http_tunnel::number::{push_decimal, push_digits, read_number};
use http_tunnel::text::{
    chars_of, contains, ends_with, find_char, same_text, starts_with, string_of, trimmed,
    trimmed_start_char,
};

fn number(text: &str, radix: u64, max: u64) -> Option<u64> {
    read_number(chars_of(text).as_slice(), radix, max)
}

fn written(n: u64, radix: u64) -> String {
    let mut text = String::new();
    push_digits(&mut text, n, radix);
    text
}

#[test]
fn numbers_are_read_as_the_standard_library_reads_them() {
    for text in ["0", "7", "+7", "007", "255", "256", "", "+", "-1", "1 ", " 1", "1a", "++1", "٣"] {
        assert_eq!(number(text, 10, 255), text.parse::<u8>().ok().map(u64::from), "{}", text);
        assert_eq!(
            number(text, 10, u64::MAX),
            text.parse::<u64>().ok(),
            "{}",
            text
        );
    }
    for text in ["ff", "FF", "fF", "100", "g", "+f", "f+", "0x1"] {
        assert_eq!(
            number(text, 16, 255),
            u8::from_str_radix(text, 16).ok().map(u64::from),
            "{}",
            text
        );
    }
}

#[test]
fn the_greatest_number_is_read_and_the_next_is_not() {
    assert_eq!(number("18446744073709551615", 10, u64::MAX), Some(u64::MAX));
    assert_eq!(number("18446744073709551616", 10, u64::MAX), None);
    assert_eq!(number("99999999999999999999", 10, u64::MAX), None);
}

#[test]
fn numbers_are_written_as_the_standard_library_writes_them() {
    for n in [0, 1, 9, 10, 15, 16, 255, 256, 65535, 1048576, u64::MAX] {
        assert_eq!(written(n, 10), format!("{}", n));
        assert_eq!(written(n, 16), format!("{:x}", n));
    }
}

#[test]
fn a_number_that_is_written_is_read_back() {
    for n in [0, 7, 36, 1295, 123456789, u64::MAX] {
        for radix in 2..37 {
            assert_eq!(number(&written(n, radix), radix, u64::MAX), Some(n));
        }
    }
}

#[test]
fn decimals_are_added_behind_a_text() {
    let mut text = "n = ".to_string();
    push_decimal(&mut text, 42);
    assert_eq!(text, "n = 42");
}

#[test]
fn texts_are_compared_and_searched() {
    assert!(same_text("host", "host"));
    assert!(!same_text("Host", "host"));
    assert!(contains("text/html, video/mp4", "video/"));
    assert!(!contains("text/html", "video/"));
    assert!(contains("abc", ""));
    assert!(!contains("", "a"));
    assert!(starts_with("bytes=0-1", "bytes="));
    assert!(!starts_with("byte", "bytes="));
    assert!(ends_with("film.mp4", ".mp4"));
    assert!(!ends_with("mp4", ".mp4"));
    assert_eq!(find_char(chars_of("a.b.c").as_slice(), '.'), 1);
    assert_eq!(find_char(chars_of("abc").as_slice(), '.'), 3);
}

#[test]
fn white_space_is_trimmed_as_the_standard_library_trims_it() {
    for text in ["", " ", "a", " a ", "\t a b \r\n", "\u{a0}x\u{3000}", "\u{200b}x", "\u{2028}x\u{85}"] {
        let chars = chars_of(text);
        assert_eq!(string_of(trimmed(chars.as_slice())), text.trim());
    }
}

#[test]
fn leading_slashes_are_trimmed() {
    for text in ["", "/", "//a/b/", "a//b", "///"] {
        let chars = chars_of(text);
        assert_eq!(
            string_of(trimmed_start_char(chars.as_slice(), '/')),
            text.trim_start_matches('/')
        );
    }
}

#[test]
fn a_header_field_that_is_put_in_again_is_replaced() {
    let mut headers = Headers::new();
    headers.insert("Host".to_string(), "a".to_string());
    headers.insert("Accept".to_string(), "b".to_string());
    headers.insert("Host".to_string(), "c".to_string());
    assert_eq!(headers.len(), 2);
    assert_eq!(headers.get("Host"), Some("c"));
    assert_eq!(headers.get("Accept"), Some("b"));
    assert_eq!(headers.get("host"), None);
    assert_eq!(headers.field(0), ("Host", "c"));
    assert_eq!(headers.field(1), ("Accept", "b"));
}

#[test]
fn of_several_header_fields_of_one_name_the_last_stands() {
    let headers = Headers::from_pairs(vec![
        ("a".to_string(), "1".to_string()),
        ("b".to_string(), "2".to_string()),
        ("a".to_string(), "3".to_string()),
    ]);
    assert_eq!(headers.get("a"), Some("3"));
    assert_eq!(headers.get("b"), Some("2"));
    assert_eq!(headers.clone().len(), 2);
    assert_eq!(headers.clone().get("a"), Some("3"));
}
