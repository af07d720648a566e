use secure_sum::decimal::{parse_value, render_decimal, render_value};
use secure_sum::error::ProtocolError;

#[test]
fn render_value_writes_plain_digits() {
    assert_eq!(render_value(0), "0");
    assert_eq!(render_value(7), "7");
    assert_eq!(render_value(10), "10");
    assert_eq!(render_value(21), "21");
    assert_eq!(render_value(1000), "1000");
    assert_eq!(render_value(4294967295), "4294967295");
}

#[test]
fn render_decimal_writes_large_numbers() {
    assert_eq!(render_decimal(0), "0");
    assert_eq!(render_decimal(9), "9");
    assert_eq!(render_decimal(4294967296), "4294967296");
    assert_eq!(render_decimal(u64::MAX), "18446744073709551615");
}

#[test]
fn parse_value_reads_digits() {
    assert_eq!(parse_value("0"), Ok(0));
    assert_eq!(parse_value("5"), Ok(5));
    assert_eq!(parse_value("21"), Ok(21));
    assert_eq!(parse_value("4294967295"), Ok(4294967295));
}

#[test]
fn parse_value_accepts_plus_sign_and_leading_zeros() {
    assert_eq!(parse_value("+5"), Ok(5));
    assert_eq!(parse_value("007"), Ok(7));
    assert_eq!(parse_value("+000"), Ok(0));
    assert_eq!(parse_value("00000000004294967295"), Ok(4294967295));
}

#[test]
fn parse_value_rejects_numbers_past_the_range() {
    assert_eq!(parse_value("4294967296"), Err(ProtocolError::MalformedRequest));
    assert_eq!(parse_value("99999999999"), Err(ProtocolError::MalformedRequest));
    assert_eq!(
        parse_value("184467440737095516160000000000"),
        Err(ProtocolError::MalformedRequest)
    );
}

#[test]
fn parse_value_rejects_what_is_no_number() {
    for text in ["", "+", "-1", "-0", " 5", "5 ", "5a", "a5", "1.5", "++5", "5+", "0x10", "٣", "5é"] {
        assert_eq!(parse_value(text), Err(ProtocolError::MalformedRequest), "{:?}", text);
    }
}

#[test]
fn parse_value_agrees_with_the_standard_parser() {
    for text in ["0", "12", "+12", "0012", "4294967295", "4294967296", "", "+", "-3", "1_000", "12\n"] {
        let expected = text.parse::<u32>().map_err(|_| ProtocolError::MalformedRequest);
        assert_eq!(parse_value(text), expected, "{:?}", text);
    }
}

#[test]
fn reading_undoes_writing() {
    for value in [0u32, 1, 9, 10, 99, 100, 12345, 0x7fff_ffff, 0x8000_0000, 0xffff_fffe, 0xffff_ffff] {
        let text = render_value(value);
        assert_eq!(parse_value(&text), Ok(value));
        assert_eq!(text, value.to_string());
    }
}
