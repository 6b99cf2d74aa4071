use adq_pingora::text::{
    bare_address_string, chars_of, contains, decimal_string, ends_with, find_from, index_of, read_decimal,
    signed_decimal_string, span_eq, starts_with, str_eq, string_of, trim_end_len, trim_span,
};

fn v(s: &str) -> Vec<char> {
    s.chars().collect()
}

#[test]
fn chars_and_strings_convert() {
    assert_eq!(chars_of("héllo"), v("héllo"));
    assert_eq!(chars_of(""), v(""));
    assert_eq!(string_of(&v("héllo wörld"), 6, 11), "wörld");
    assert_eq!(string_of(&v("abc"), 1, 1), "");
}

#[test]
fn comparisons() {
    assert!(span_eq(&v("xxabcxx"), 2, 5, &v("abc")));
    assert!(!span_eq(&v("xxabcxx"), 2, 5, &v("abd")));
    assert!(!span_eq(&v("xxabcxx"), 2, 5, &v("ab")));
    assert!(str_eq("", ""));
    assert!(str_eq("a", "a"));
    assert!(!str_eq("a", "A"));
    assert!(starts_with(&v("/api/x"), &v("/api/")));
    assert!(starts_with(&v("/api/"), &v("/api/")));
    assert!(starts_with(&v("x"), &v("")));
    assert!(!starts_with(&v("/ap"), &v("/api/")));
    assert!(ends_with(&v("a/"), &v("/")));
    assert!(!ends_with(&v("a"), &v("/")));
    assert!(contains(&v("max-age=0, no-store"), &v("no-store")));
    assert!(contains(&v("abc"), &v("")));
    assert!(contains(&v("abc"), &v("abc")));
    assert!(!contains(&v("abc"), &v("abcd")));
    assert!(!contains(&v("no-stor"), &v("no-store")));
}

#[test]
fn searching_and_trimming() {
    assert_eq!(index_of(&v("host:80"), ':'), 4);
    assert_eq!(index_of(&v("host"), ':'), 4);
    assert_eq!(index_of(&v(":"), ':'), 0);
    assert_eq!(find_from(&v("a.b.c"), 2, 5, '.'), 3);
    assert_eq!(find_from(&v("a.b.c"), 4, 5, '.'), 5);
    assert_eq!(trim_end_len(&v("/api///"), '/'), 4);
    assert_eq!(trim_end_len(&v("/"), '/'), 0);
    assert_eq!(trim_end_len(&v("/api"), '/'), 4);
    assert_eq!(trim_span(&v("  a b \t\r\n"), 0, 9), (2, 5));
    assert_eq!(trim_span(&v("    "), 0, 4), (4, 4));
    assert_eq!(trim_span(&v("ab"), 0, 2), (0, 2));
}

#[test]
fn decimal_reading() {
    assert_eq!(read_decimal(&v("0"), 0, 1, 255), Some(0));
    assert_eq!(read_decimal(&v("255"), 0, 3, 255), Some(255));
    assert_eq!(read_decimal(&v("256"), 0, 3, 255), None);
    assert_eq!(read_decimal(&v("007"), 0, 3, 255), Some(7));
    assert_eq!(read_decimal(&v(""), 0, 0, 255), None);
    assert_eq!(read_decimal(&v("12a"), 0, 3, 255), None);
    assert_eq!(read_decimal(&v("-1"), 0, 2, 255), None);
    assert_eq!(read_decimal(&v("x42y"), 1, 3, 255), Some(42));
    assert_eq!(read_decimal(&v("99999999999999999999999999"), 0, 26, 1000), None);
    assert_eq!(read_decimal(&v("4294967295"), 0, 10, 4294967295), Some(4294967295));
}

#[test]
fn decimal_writing() {
    assert_eq!(decimal_string(0), "0");
    assert_eq!(decimal_string(7), "7");
    assert_eq!(decimal_string(10), "10");
    assert_eq!(decimal_string(909), "909");
    assert_eq!(decimal_string(u64::MAX), "18446744073709551615");
    assert_eq!(signed_decimal_string(0), "0");
    assert_eq!(signed_decimal_string(-1), "-1");
    assert_eq!(signed_decimal_string(1200), "1200");
    assert_eq!(signed_decimal_string(i64::MIN), "-9223372036854775808");
    assert_eq!(signed_decimal_string(i64::MAX), "9223372036854775807");
}

#[test]
fn bare_address_drops_port_and_brackets() {
    assert_eq!(bare_address_string("1.2.3.4:5678"), "1.2.3.4");
    assert_eq!(bare_address_string("1.2.3.4"), "1.2.3.4");
    assert_eq!(bare_address_string("example.com:443"), "example.com");
    assert_eq!(bare_address_string("[::1]:8080"), "::1");
    assert_eq!(bare_address_string("[::1]"), "::1");
    assert_eq!(bare_address_string("[]:80"), "");
    assert_eq!(bare_address_string("::1"), "::1");
    assert_eq!(bare_address_string("[::1"), "[::1");
    assert_eq!(bare_address_string("[host:80"), "[host");
    assert_eq!(bare_address_string(":80"), "");
    assert_eq!(bare_address_string("a:"), "a");
    assert_eq!(bare_address_string(""), "");
}
