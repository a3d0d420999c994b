use recipes_rs::json::Kind;
use recipes_rs::scan::{scan_digits, scan_member, scan_number, scan_string, scan_value};

#[test]
fn digits_run_to_the_first_other_byte() {
    assert_eq!(scan_digits(b"12345", 0), 5);
    assert_eq!(scan_digits(b"12a45", 0), 2);
    assert_eq!(scan_digits(b"12a45", 3), 5);
    assert_eq!(scan_digits(b"abc", 1), 1);
    assert_eq!(scan_digits(b"", 0), 0);
}

#[test]
fn integers_are_told_from_decimals() {
    assert_eq!(scan_number(b"0", 0), Some((1, true)));
    assert_eq!(scan_number(b"-0", 0), Some((2, true)));
    assert_eq!(scan_number(b"42,", 0), Some((2, true)));
    assert_eq!(scan_number(b"-17", 0), Some((3, true)));
    assert_eq!(scan_number(b"3.25", 0), Some((4, false)));
    assert_eq!(scan_number(b"1e9", 0), Some((3, false)));
    assert_eq!(scan_number(b"1E+9", 0), Some((4, false)));
    assert_eq!(scan_number(b"-1.5e-10]", 0), Some((8, false)));
}

#[test]
fn a_leading_zero_ends_the_number() {
    assert_eq!(scan_number(b"012", 0), Some((1, true)));
    assert_eq!(scan_value(b"[012]", 0, 4), None);
}

#[test]
fn malformed_numbers_are_refused() {
    assert_eq!(scan_number(b"", 0), None);
    assert_eq!(scan_number(b"-", 0), None);
    assert_eq!(scan_number(b"+1", 0), None);
    assert_eq!(scan_number(b".5", 0), None);
    assert_eq!(scan_number(b"1.", 0), None);
    assert_eq!(scan_number(b"1.e3", 0), None);
    assert_eq!(scan_number(b"1e", 0), None);
    assert_eq!(scan_number(b"1e+", 0), None);
    assert_eq!(scan_number(b"NaN", 0), None);
}

#[test]
fn strings_end_behind_the_closing_quote() {
    assert_eq!(scan_string(b"\"abc\"", 1), Some(5));
    assert_eq!(scan_string(b"\"\"", 1), Some(2));
    assert_eq!(scan_string(b"\"a\\\"b\"", 1), Some(6));
    assert_eq!(scan_string(b"\"\\\\\"", 1), Some(4));
    assert_eq!(scan_string(b"\"\\u00e9\"x", 1), Some(8));
    assert_eq!(scan_string("\"caf\u{e9}\"".as_bytes(), 1), Some(7));
}

#[test]
fn malformed_strings_are_refused() {
    assert_eq!(scan_string(b"\"abc", 1), None);
    assert_eq!(scan_string(b"\"a\nb\"", 1), None);
    assert_eq!(scan_string(b"\"\\x\"", 1), None);
    assert_eq!(scan_string(b"\"\\u12g4\"", 1), None);
    assert_eq!(scan_string(b"\"\\u123\"", 1), None);
    assert_eq!(scan_string(b"\"\\", 1), None);
    assert_eq!(scan_string(b"", 0), None);
}

#[test]
fn values_have_their_kind() {
    assert_eq!(scan_value(b"null", 0, 0), Some((Kind::Null, 4)));
    assert_eq!(scan_value(b"true", 0, 0), Some((Kind::Bool, 4)));
    assert_eq!(scan_value(b"false", 0, 0), Some((Kind::Bool, 5)));
    assert_eq!(scan_value(b"7", 0, 0), Some((Kind::Integer, 1)));
    assert_eq!(scan_value(b"7.5", 0, 0), Some((Kind::Decimal, 3)));
    assert_eq!(scan_value(b"\"x\"", 0, 0), Some((Kind::Text, 3)));
    assert_eq!(scan_value(b"[]", 0, 1), Some((Kind::Array, 2)));
    assert_eq!(scan_value(b"{}", 0, 1), Some((Kind::Object, 2)));
    assert_eq!(scan_value(b"[1,\"a\",[true,null],{\"k\":{}}]", 0, 3), Some((Kind::Array, 28)));
    assert_eq!(scan_value(b"{\"a\":1,\"b\":[2,3]}", 0, 2), Some((Kind::Object, 17)));
}

#[test]
fn values_start_where_asked() {
    assert_eq!(scan_value(b"xx[1,2]yy", 2, 1), Some((Kind::Array, 7)));
    assert_eq!(scan_value(b"[1,2]", 3, 0), Some((Kind::Integer, 4)));
    assert_eq!(scan_value(b"[1,2]", 5, 0), None);
}

#[test]
fn whitespace_is_not_compact() {
    assert_eq!(scan_value(b" 1", 0, 0), None);
    assert_eq!(scan_value(b"[1, 2]", 0, 1), None);
    assert_eq!(scan_value(b"{\"a\": 1}", 0, 1), None);
    assert_eq!(scan_value(b"[ ]", 0, 1), None);
}

#[test]
fn malformed_values_are_refused() {
    assert_eq!(scan_value(b"", 0, 8), None);
    assert_eq!(scan_value(b"tru", 0, 8), None);
    assert_eq!(scan_value(b"nul", 0, 8), None);
    assert_eq!(scan_value(b"[1,]", 0, 8), None);
    assert_eq!(scan_value(b"[1", 0, 8), None);
    assert_eq!(scan_value(b"[1 2]", 0, 8), None);
    assert_eq!(scan_value(b"{\"a\"}", 0, 8), None);
    assert_eq!(scan_value(b"{\"a\":}", 0, 8), None);
    assert_eq!(scan_value(b"{a:1}", 0, 8), None);
    assert_eq!(scan_value(b"{\"a\":1,}", 0, 8), None);
    assert_eq!(scan_value(b"{\"a\":1", 0, 8), None);
}

#[test]
fn nesting_is_bounded_by_depth() {
    assert_eq!(scan_value(b"[]", 0, 0), None);
    assert_eq!(scan_value(b"{}", 0, 0), None);
    assert_eq!(scan_value(b"[[]]", 0, 1), None);
    assert_eq!(scan_value(b"[[]]", 0, 2), Some((Kind::Array, 4)));
    assert_eq!(scan_value(b"{\"a\":[{}]}", 0, 2), None);
    assert_eq!(scan_value(b"{\"a\":[{}]}", 0, 3), Some((Kind::Object, 10)));
}

#[test]
fn members_give_key_and_kind() {
    assert_eq!(scan_member(b"{\"id\":12}", 1, 0), Some((5, Kind::Integer, 8)));
    assert_eq!(scan_member(b"\"name\":\"Soup\",", 0, 0), Some((6, Kind::Text, 13)));
    assert_eq!(scan_member(b"\"\":null", 0, 0), Some((2, Kind::Null, 7)));
    assert_eq!(scan_member(b"\"a\"1", 0, 0), None);
    assert_eq!(scan_member(b"a:1", 0, 0), None);
    assert_eq!(scan_member(b"\"a\":", 0, 0), None);
}
