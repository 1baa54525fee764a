use aoc21::common::{find_byte, parse_digits, parse_i32, parse_u32, read_lines};

#[test]
fn lines_are_cut_at_line_feeds() {
    let lines = read_lines(b"ab\ncd\r\n\n\r\nef");
    assert_eq!(lines, vec![&b"ab"[..], &b"cd"[..], &b"ef"[..]]);
    assert_eq!(read_lines(b""), Vec::<&[u8]>::new());
    assert_eq!(read_lines(b"\n"), Vec::<&[u8]>::new());
    assert_eq!(read_lines(b"a"), vec![&b"a"[..]]);
    assert_eq!(read_lines(b" \n"), vec![&b" "[..]]);
    assert_eq!(read_lines(b"a\r\r\n"), vec![&b"a\r"[..]]);
}

#[test]
fn find_byte_stops_at_the_byte_or_the_end() {
    assert_eq!(find_byte(b"ab cd", 0, b' '), 2);
    assert_eq!(find_byte(b"ab cd", 2, b' '), 2);
    assert_eq!(find_byte(b"ab cd", 3, b' '), 5);
    assert_eq!(find_byte(b"ab cd", 5, b' '), 5);
    assert_eq!(find_byte(b"", 0, b' '), 0);
}

#[test]
fn signed_integers_parse() {
    assert_eq!(parse_i32(b"0"), Some(0));
    assert_eq!(parse_i32(b"199"), Some(199));
    assert_eq!(parse_i32(b"+5"), Some(5));
    assert_eq!(parse_i32(b"-5"), Some(-5));
    assert_eq!(parse_i32(b"-0"), Some(0));
    assert_eq!(parse_i32(b"007"), Some(7));
    assert_eq!(parse_i32(b"2147483647"), Some(2147483647));
    assert_eq!(parse_i32(b"-2147483648"), Some(-2147483648));
    assert_eq!(parse_i32(b"2147483648"), None);
    assert_eq!(parse_i32(b"-2147483649"), None);
    assert_eq!(parse_i32(b"99999999999999999999999999"), None);
    assert_eq!(parse_i32(b""), None);
    assert_eq!(parse_i32(b"-"), None);
    assert_eq!(parse_i32(b"+"), None);
    assert_eq!(parse_i32(b"+-1"), None);
    assert_eq!(parse_i32(b"1 "), None);
    assert_eq!(parse_i32(b" 1"), None);
    assert_eq!(parse_i32(b"1a"), None);
}

#[test]
fn unsigned_integers_parse() {
    assert_eq!(parse_u32(b"0"), Some(0));
    assert_eq!(parse_u32(b"+12"), Some(12));
    assert_eq!(parse_u32(b"4294967295"), Some(4294967295));
    assert_eq!(parse_u32(b"4294967296"), None);
    assert_eq!(parse_u32(b"-1"), None);
    assert_eq!(parse_u32(b"-0"), None);
    assert_eq!(parse_u32(b""), None);
    assert_eq!(parse_u32(b"+"), None);
    assert_eq!(parse_u32(b"1.5"), None);
}

#[test]
fn digits_parse_up_to_the_limit() {
    assert_eq!(parse_digits(b"120", 120), Some(120));
    assert_eq!(parse_digits(b"121", 120), None);
    assert_eq!(parse_digits(b"0000", 0), Some(0));
    assert_eq!(parse_digits(b"", 120), None);
    assert_eq!(parse_digits(b"+1", 120), None);
    assert_eq!(parse_digits(b"18446744073709551615", u64::MAX), Some(u64::MAX));
    assert_eq!(parse_digits(b"18446744073709551616", u64::MAX), None);
    assert_eq!(parse_digits(b"7", 6), None);
}
