use double_pendulum::text::{chars_of, decimal_chars, decimal_string, digit_to_char, parse_usize, zero_padded_decimal};

#[test]
fn parses_plain_digits() {
    assert_eq!(parse_usize("42"), Some(42));
    assert_eq!(parse_usize("0"), Some(0));
    assert_eq!(parse_usize("007"), Some(7));
    assert_eq!(parse_usize("60000"), Some(60000));
}

#[test]
fn parses_leading_plus() {
    assert_eq!(parse_usize("+7"), Some(7));
    assert_eq!(parse_usize("+"), None);
    assert_eq!(parse_usize("++7"), None);
}

#[test]
fn rejects_malformed_text() {
    assert_eq!(parse_usize(""), None);
    assert_eq!(parse_usize("-1"), None);
    assert_eq!(parse_usize("-0"), None);
    assert_eq!(parse_usize(" 5"), None);
    assert_eq!(parse_usize("5 "), None);
    assert_eq!(parse_usize("12a"), None);
    assert_eq!(parse_usize("1_000"), None);
    assert_eq!(parse_usize("0.001"), None);
    assert_eq!(parse_usize("٣"), None);
}

#[test]
fn rejects_values_beyond_usize() {
    let max = usize::MAX.to_string();
    assert_eq!(parse_usize(&max), Some(usize::MAX));
    let over = format!("{}0", max);
    assert_eq!(parse_usize(&over), None);
    let plus_one = (usize::MAX as u128 + 1).to_string();
    assert_eq!(parse_usize(&plus_one), None);
}

#[test]
fn agrees_with_std_parse() {
    let samples = [
        "", "+", "-", "0", "1", "+1", "-1", "9", "10", "99", "100", "0000", "+0012", "12 ",
        "1e3", "abc", "4294967296", "18446744073709551615", "18446744073709551616",
        "99999999999999999999999", "١٢", "+-1",
    ];
    for s in samples.iter() {
        assert_eq!(parse_usize(s), s.parse::<usize>().ok(), "input {:?}", s);
    }
}

#[test]
fn writes_decimal_numerals() {
    assert_eq!(decimal_string(0), "0");
    assert_eq!(decimal_string(7), "7");
    assert_eq!(decimal_string(10), "10");
    assert_eq!(decimal_string(600000), "600000");
    assert_eq!(decimal_string(usize::MAX), usize::MAX.to_string());
    assert_eq!(decimal_chars(305), vec!['3', '0', '5']);
    for n in [1usize, 9, 11, 99, 101, 12345, 1 << 40] {
        assert_eq!(decimal_string(n), n.to_string());
    }
}

#[test]
fn pads_with_zeros() {
    let s: String = zero_padded_decimal(7, 3).into_iter().collect();
    assert_eq!(s, "007");
    let s: String = zero_padded_decimal(42, 3).into_iter().collect();
    assert_eq!(s, "042");
    let s: String = zero_padded_decimal(999, 3).into_iter().collect();
    assert_eq!(s, "999");
    let s: String = zero_padded_decimal(1234, 3).into_iter().collect();
    assert_eq!(s, "1234");
    let s: String = zero_padded_decimal(5, 0).into_iter().collect();
    assert_eq!(s, "5");
}

#[test]
fn digit_characters() {
    assert_eq!(digit_to_char(0), '0');
    assert_eq!(digit_to_char(9), '9');
}

#[test]
fn characters_of_text() {
    assert_eq!(chars_of("aé,b"), vec!['a', 'é', ',', 'b']);
    assert_eq!(chars_of(""), Vec::<char>::new());
}

#[test]
fn decimal_text_parses_back() {
    for n in [0usize, 1, 9, 10, 42, 1000, 65535, usize::MAX / 3, usize::MAX] {
        assert_eq!(parse_usize(&decimal_string(n)), Some(n));
    }
}
