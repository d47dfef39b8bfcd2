use weylus::number::{parse_u16, parse_u64, IntErrorKind};

fn std_kind(e: &std::num::ParseIntError) -> IntErrorKind {
    match e.kind() {
        std::num::IntErrorKind::Empty => IntErrorKind::Empty,
        std::num::IntErrorKind::InvalidDigit => IntErrorKind::InvalidDigit,
        std::num::IntErrorKind::PosOverflow => IntErrorKind::PosOverflow,
        other => panic!("unexpected kind {:?}", other),
    }
}

const SAMPLES: &[&str] = &[
    "", "0", "00", "1701", "9001", "65535", "65536", "+65535", "+", "-", "-0", "-5", "++1",
    "+-1", " 1", "1 ", "1_000", "12a", "a12", "٣", "0x10", "99999x", "9999x", "x99999",
    "18446744073709551615", "18446744073709551616", "+18446744073709551615",
    "0000000000000000000000000065535", "184467440737095516150", "1e3", "１２",
];

#[test]
fn parse_u16_agrees_with_std() {
    for s in SAMPLES {
        let expected = s.parse::<u16>().map_err(|e| std_kind(&e));
        assert_eq!(parse_u16(s), expected, "input {:?}", s);
    }
}

#[test]
fn parse_u64_agrees_with_std() {
    for s in SAMPLES {
        let expected = s.parse::<u64>().map_err(|e| std_kind(&e));
        assert_eq!(parse_u64(s), expected, "input {:?}", s);
    }
}

#[test]
fn parse_u16_exhaustive_small_numbers() {
    for n in 0u32..70000 {
        let s = n.to_string();
        let expected = s.parse::<u16>().map_err(|e| std_kind(&e));
        assert_eq!(parse_u16(&s), expected);
    }
}

#[test]
fn parse_errors_each_kind() {
    assert_eq!(parse_u16(""), Err(IntErrorKind::Empty));
    assert_eq!(parse_u16("80a"), Err(IntErrorKind::InvalidDigit));
    assert_eq!(parse_u16("70000"), Err(IntErrorKind::PosOverflow));
    assert_eq!(parse_u64("18446744073709551616"), Err(IntErrorKind::PosOverflow));
    assert_eq!(parse_u64("+"), Err(IntErrorKind::InvalidDigit));
}

#[test]
fn overflow_found_before_a_later_bad_digit() {
    assert_eq!(parse_u16("99999x"), Err(IntErrorKind::PosOverflow));
    assert_eq!(parse_u16("9999x"), Err(IntErrorKind::InvalidDigit));
}

#[test]
fn law_port_text_reads_alike_as_u64() {
    for s in ["1701", "+9001", "65535", "007"] {
        let p = parse_u16(s).unwrap();
        assert_eq!(parse_u64(s), Ok(p as u64));
    }
}

#[test]
fn messages_match_std() {
    for s in ["", "x", "99999999"] {
        let std_err = s.parse::<u16>().unwrap_err();
        assert_eq!(parse_u16(s).unwrap_err().message(), std_err.to_string());
    }
}
