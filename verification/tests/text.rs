use room::linux::text::{
    bytes_eq, find_first, find_last, parse_decimal, parse_decimal_parts, parse_digits,
    parse_i32, parse_u64, split_fields, split_lines, trim,
};

#[test]
fn trim_strips_both_ends() {
    assert_eq!(trim(b"  \t hello world \r\n"), b"hello world");
    assert_eq!(trim(b"x"), b"x");
    assert_eq!(trim(b""), b"");
    assert_eq!(trim(b" \t\n\x0b\x0c\r"), b"");
    assert_eq!(trim(b"\x08a\x0e"), b"\x08a\x0e");
}

#[test]
fn fields_are_maximal_runs() {
    let fields = split_fields(b"  a bc\t\tdef\n g ");
    assert_eq!(fields, vec![&b"a"[..], &b"bc"[..], &b"def"[..], &b"g"[..]]);
    assert!(split_fields(b"").is_empty());
    assert!(split_fields(b" \t\n").is_empty());
    assert_eq!(split_fields(b"one"), vec![&b"one"[..]]);
}

#[test]
fn lines_split_at_line_feeds() {
    assert_eq!(split_lines(b"a\n\nb"), vec![&b"a"[..], &b""[..], &b"b"[..]]);
    assert_eq!(split_lines(b"a\n"), vec![&b"a"[..]]);
    assert_eq!(split_lines(b"a"), vec![&b"a"[..]]);
    assert_eq!(split_lines(b"\n"), vec![&b""[..]]);
    assert!(split_lines(b"").is_empty());
}

#[test]
fn first_and_last_occurrence() {
    assert_eq!(find_first(b"a(b(c", b'('), Some(1));
    assert_eq!(find_last(b"a)b)c", b')'), Some(3));
    assert_eq!(find_first(b"abc", b'('), None);
    assert_eq!(find_last(b"", b')'), None);
    assert_eq!(find_first(b"(", b'('), Some(0));
    assert_eq!(find_last(b")", b')'), Some(0));
}

#[test]
fn byte_strings_compare() {
    assert!(bytes_eq(b"Name", b"Name"));
    assert!(!bytes_eq(b"Name", b"name"));
    assert!(!bytes_eq(b"Name", b"Names"));
    assert!(bytes_eq(b"", b""));
}

#[test]
fn unsigned_numerals() {
    assert_eq!(parse_u64(b"0"), Some(0));
    assert_eq!(parse_u64(b"1024"), Some(1024));
    assert_eq!(parse_u64(b"+17"), Some(17));
    assert_eq!(parse_u64(b"007"), Some(7));
    assert_eq!(parse_u64(b"18446744073709551615"), Some(u64::MAX));
    assert_eq!(parse_u64(b"18446744073709551616"), None);
    assert_eq!(parse_u64(b"99999999999999999999999"), None);
    assert_eq!(parse_u64(b""), None);
    assert_eq!(parse_u64(b"+"), None);
    assert_eq!(parse_u64(b"-1"), None);
    assert_eq!(parse_u64(b"12a"), None);
    assert_eq!(parse_u64(b"++1"), None);
    assert_eq!(parse_u64(b" 1"), None);
}

#[test]
fn unsigned_numerals_agree_with_std() {
    for text in ["0", "1", "+5", "42", "0042", "", "+", "-", "-3", "1x", "18446744073709551615",
        "18446744073709551616", "1 ", "٣"]
    {
        assert_eq!(parse_u64(text.as_bytes()), text.parse::<u64>().ok(), "{:?}", text);
    }
}

#[test]
fn signed_numerals() {
    assert_eq!(parse_i32(b"0"), Some(0));
    assert_eq!(parse_i32(b"-0"), Some(0));
    assert_eq!(parse_i32(b"-1000"), Some(-1000));
    assert_eq!(parse_i32(b"+1000"), Some(1000));
    assert_eq!(parse_i32(b"2147483647"), Some(i32::MAX));
    assert_eq!(parse_i32(b"2147483648"), None);
    assert_eq!(parse_i32(b"-2147483648"), Some(i32::MIN));
    assert_eq!(parse_i32(b"-2147483649"), None);
    assert_eq!(parse_i32(b"-"), None);
    assert_eq!(parse_i32(b"--1"), None);
    assert_eq!(parse_i32(b"-+1"), None);
    assert_eq!(parse_i32(b""), None);
    assert_eq!(parse_i32(b"1.5"), None);
}

#[test]
fn signed_numerals_agree_with_std() {
    for text in ["0", "-0", "+0", "17", "-17", "+17", "", "-", "+", "2147483647", "2147483648",
        "-2147483648", "-2147483649", "99999999999999999999", "-99999999999999999999", "1e3"]
    {
        assert_eq!(parse_i32(text.as_bytes()), text.parse::<i32>().ok(), "{:?}", text);
    }
}

#[test]
fn digits_from_an_offset() {
    assert_eq!(parse_digits(b"ab123", 2), Some(123));
    assert_eq!(parse_digits(b"ab123", 5), None);
    assert_eq!(parse_digits(b"ab12c", 2), None);
    assert_eq!(parse_digits(b"+1", 0), None);
}

#[test]
fn decimals_agree_with_std_where_they_are_read() {
    for text in ["0", "1", "+1", "0.5", "+0.5", ".5", "+.5", "5.", "12.125", "0.001", "007.250"] {
        let millis = parse_decimal(text.as_bytes(), 3).unwrap();
        let expected = (text.parse::<f64>().unwrap() * 1000.0).round() as u64;
        assert_eq!(millis, expected, "{:?}", text);
    }
    for text in ["", "+", ".", "+.", "-", "-.5", "1.2.3", "x", "1 "] {
        assert_eq!(parse_decimal(text.as_bytes(), 3), None, "{:?}", text);
        assert!(text.parse::<f64>().is_err() || text.starts_with('-'), "{:?}", text);
    }
}

#[test]
fn decimal_parts_on_their_own() {
    assert_eq!(parse_decimal_parts(b"12", b"5", 3), Some(12500));
    assert_eq!(parse_decimal_parts(b"", b"5", 3), Some(500));
    assert_eq!(parse_decimal_parts(b"12", b"", 3), Some(12000));
    assert_eq!(parse_decimal_parts(b"", b"", 3), None);
    assert_eq!(parse_decimal_parts(b"+1", b"5", 3), None);
    assert_eq!(parse_decimal_parts(b"1", b"5x", 3), None);
}

#[test]
fn decimals_in_scaled_units() {
    assert_eq!(parse_decimal(b"350735.47", 3), Some(350735470));
    assert_eq!(parse_decimal(b"12", 3), Some(12000));
    assert_eq!(parse_decimal(b"12.", 3), Some(12000));
    assert_eq!(parse_decimal(b"0.0019", 3), Some(1));
    assert_eq!(parse_decimal(b"0.6", 6), Some(600000));
    assert_eq!(parse_decimal(b"0.05", 6), Some(50000));
    assert_eq!(parse_decimal(b"1", 6), Some(1000000));
    assert_eq!(parse_decimal(b"0.1234567", 6), Some(123456));
    assert_eq!(parse_decimal(b"7.25", 0), Some(7));
    assert_eq!(parse_decimal(b".5", 3), Some(500));
    assert_eq!(parse_decimal(b"+0.5", 3), Some(500));
    assert_eq!(parse_decimal(b"+.5", 3), Some(500));
    assert_eq!(parse_decimal(b"+7", 3), Some(7000));
    assert_eq!(parse_decimal(b"5.", 0), Some(5));
    assert_eq!(parse_decimal(b".", 3), None);
    assert_eq!(parse_decimal(b"+", 3), None);
    assert_eq!(parse_decimal(b"+.", 3), None);
    assert_eq!(parse_decimal(b"++1", 3), None);
    assert_eq!(parse_decimal(b"1+", 3), None);
    assert_eq!(parse_decimal(b"6e-1", 3), None);
    assert_eq!(parse_decimal(b" 1", 3), None);
    assert_eq!(parse_decimal(b"", 3), None);
    assert_eq!(parse_decimal(b"1.2.3", 3), None);
    assert_eq!(parse_decimal(b"-1.0", 3), None);
    assert_eq!(parse_decimal(b"1e3", 3), None);
    assert_eq!(parse_decimal(b"18446744073709551.615", 3), Some(u64::MAX));
    assert_eq!(parse_decimal(b"18446744073709551.616", 3), None);
    assert_eq!(parse_decimal(b"18446744073709551616", 0), None);
}
