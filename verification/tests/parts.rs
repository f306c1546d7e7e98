use minihttp::bytes::bytes_eq;
use minihttp::bytes::find;
use minihttp::bytes::last_part_start;
use minihttp::bytes::next_line;
use minihttp::headers::Headers;
use minihttp::number::parse_usize;
use minihttp::number::push_decimal;
use minihttp::text::char_is_whitespace;
use minihttp::text::cut;
use minihttp::text::str_eq;
use minihttp::text::trimmed;

#[test]
fn find_gives_first_place_or_length() {
    assert_eq!(find(b"a b c", 0, b' '), 1);
    assert_eq!(find(b"a b c", 1, b' '), 1);
    assert_eq!(find(b"a b c", 2, b' '), 3);
    assert_eq!(find(b"a b c", 4, b' '), 5);
    assert_eq!(find(b"a b c", 5, b' '), 5);
    assert_eq!(find(b"", 0, b' '), 0);
}

#[test]
fn last_part_starts_behind_last_separator() {
    assert_eq!(last_part_start(b"a b c", 0, b' '), 4);
    assert_eq!(last_part_start(b"a b ", 0, b' '), 4);
    assert_eq!(last_part_start(b"abc", 0, b' '), 0);
    assert_eq!(last_part_start(b"a bc", 2, b' '), 2);
    assert_eq!(last_part_start(b"a bc", 3, b' '), 3);
}

#[test]
fn lines_end_at_feed_and_lose_one_return() {
    assert_eq!(next_line(b"ab\r\ncd", 0), (2, 4));
    assert_eq!(next_line(b"ab\ncd", 0), (2, 3));
    assert_eq!(next_line(b"ab\r\ncd", 4), (6, 6));
    assert_eq!(next_line(b"ab\r", 0), (3, 3));
    assert_eq!(next_line(b"\r\n", 0), (0, 2));
    assert_eq!(next_line(b"\n", 0), (0, 1));
    assert_eq!(next_line(b"a\r\r\n", 0), (2, 4));
    assert_eq!(next_line(b"ab\n\r\n", 3), (3, 5));
    assert_eq!(next_line(b"", 0), (0, 0));
}

#[test]
fn equality_of_bytes_and_text() {
    assert!(bytes_eq(b"", b""));
    assert!(bytes_eq(b"abc", b"abc"));
    assert!(!bytes_eq(b"abc", b"abd"));
    assert!(!bytes_eq(b"abc", b"ab"));
    assert!(str_eq("h\u{e9}", "h\u{e9}"));
    assert!(!str_eq("h\u{e9}", "he"));
}

#[test]
fn whitespace_is_the_unicode_property() {
    let white = [
        '\t', '\n', '\u{b}', '\u{c}', '\r', ' ', '\u{85}', '\u{a0}', '\u{1680}', '\u{2000}', '\u{2001}',
        '\u{2002}', '\u{2003}', '\u{2004}', '\u{2005}', '\u{2006}', '\u{2007}', '\u{2008}', '\u{2009}',
        '\u{200a}', '\u{2028}', '\u{2029}', '\u{202f}', '\u{205f}', '\u{3000}',
    ];
    for c in white {
        assert!(char_is_whitespace(c));
    }
    let mut count = 0;
    for u in 0..=0x10ffffu32 {
        if let Some(c) = char::from_u32(u) {
            assert_eq!(char_is_whitespace(c), c.is_whitespace());
            if char_is_whitespace(c) {
                count += 1;
            }
        }
    }
    assert_eq!(count, 25);
}

#[test]
fn trimmed_is_what_std_trims() {
    for s in ["", " ", "a", " a", "a ", "  a b  ", "\u{3000}x\u{a0}", "\t\r\n", "\u{200b} a", "a\u{85}\u{2029}"] {
        assert_eq!(trimmed(s), s.trim());
    }
}

#[test]
fn cut_takes_text_between_ascii_bytes() {
    assert_eq!(cut("k\u{e9}y: v\u{e4}l", 0, 4), "k\u{e9}y");
    assert_eq!(cut("k\u{e9}y: v\u{e4}l", 5, 10), " v\u{e4}l");
    assert_eq!(cut("abc", 1, 1), "");
    assert_eq!(cut("abc", 0, 3), "abc");
}

#[test]
fn numbers_are_read_as_std_reads_them() {
    for s in ["0", "7", "42", "007", "+1", "+0", "18446744073709551615", "4294967295", "4294967296"] {
        assert_eq!(parse_usize(s), s.parse::<usize>().ok());
    }
    assert_eq!(parse_usize("42"), Some(42));
    assert_eq!(parse_usize("+007"), Some(7));
    for s in ["", "+", "-", "-0", "++1", "1+", " 1", "1 ", "1_000", "0x1", "1e3", "\u{661}", "18446744073709551616", "99999999999999999999999999999x"] {
        assert_eq!(parse_usize(s), None);
        assert_eq!(parse_usize(s), s.parse::<usize>().ok());
    }
}

#[test]
fn numbers_are_written_in_decimal() {
    for n in [0u32, 1, 9, 10, 11, 99, 100, 101, 404, 599, 1000, 65535, 4294967295] {
        let mut out = String::from("n=");
        push_decimal(&mut out, n);
        assert_eq!(out, format!("n={}", n));
    }
}

#[test]
fn headers_keep_each_name_once_in_first_order() {
    let mut headers = Headers::new();
    assert_eq!(headers.len(), 0);
    assert!(!headers.contains_key("a"));
    assert_eq!(headers.get("a"), None);
    headers.insert("a".to_string(), "1".to_string());
    headers.insert("b".to_string(), "2".to_string());
    headers.insert("a".to_string(), "3".to_string());
    headers.insert("A".to_string(), "4".to_string());
    assert_eq!(headers.len(), 3);
    assert_eq!(headers.get("a"), Some(&"3".to_string()));
    assert_eq!(headers.get("b"), Some(&"2".to_string()));
    assert_eq!(headers.get("A"), Some(&"4".to_string()));
    assert!(headers.contains_key("b"));
    assert!(!headers.contains_key("c"));
    assert_eq!(headers.entry(0), (&"a".to_string(), &"3".to_string()));
    assert_eq!(headers.entry(1), (&"b".to_string(), &"2".to_string()));
    assert_eq!(headers.entry(2), (&"A".to_string(), &"4".to_string()));
}
