use aparte::decode::{decode, decode_int, ArgType, Value};

#[test]
fn any_token_is_a_text() {
    assert_eq!(decode(ArgType::Text, ""), Some(Value::Text(String::new())));
    assert_eq!(decode(ArgType::Text, "12 é"), Some(Value::Text("12 é".to_string())));
}

#[test]
fn integers_are_decimal() {
    assert_eq!(decode_int("0"), Some(0));
    assert_eq!(decode_int("42"), Some(42));
    assert_eq!(decode_int("+42"), Some(42));
    assert_eq!(decode_int("-42"), Some(-42));
    assert_eq!(decode_int("007"), Some(7));
    assert_eq!(decode_int("-0"), Some(0));
    assert_eq!(decode(ArgType::Int, "-17"), Some(Value::Int(-17)));
}

#[test]
fn integers_reach_both_ends_of_64_bits() {
    assert_eq!(decode_int("9223372036854775807"), Some(i64::MAX));
    assert_eq!(decode_int("-9223372036854775808"), Some(i64::MIN));
    assert_eq!(decode_int("+9223372036854775807"), Some(i64::MAX));
    assert_eq!(decode_int("9223372036854775808"), None);
    assert_eq!(decode_int("-9223372036854775809"), None);
    assert_eq!(decode_int("00000000000000000000000000009223372036854775807"), Some(i64::MAX));
    assert_eq!(decode_int("99999999999999999999999999999999999999999999"), None);
    assert_eq!(decode_int("-99999999999999999999999999999999999999999999"), None);
    assert_eq!(decode_int("18446744073709551616"), None);
    assert_eq!(decode_int("18446744073709551617"), None);
}

#[test]
fn what_is_no_integer_does_not_decode() {
    for token in ["", "+", "-", "--1", "+-1", "1-", "1 ", " 1", "1_000", "0x10", "1.0", "1e3", "٣", "a"] {
        assert_eq!(decode_int(token), None, "{:?}", token);
        assert_eq!(decode(ArgType::Int, token), None, "{:?}", token);
    }
}

#[test]
fn integers_decode_as_the_standard_library_reads_them() {
    let tokens = [
        "0", "1", "-1", "+1", "12345", "-12345", "", "+", "-", "9223372036854775807",
        "9223372036854775808", "-9223372036854775808", "-9223372036854775809", "00", "-00",
        "1a", "a1", "++1", "１２", "1\u{0}", "922337203685477580", "92233720368547758070",
    ];
    for token in tokens {
        assert_eq!(decode_int(token), token.parse::<i64>().ok(), "{:?}", token);
    }
}
