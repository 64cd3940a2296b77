use wishbone_tool::error::{ConfigError, IntErrorKind};
use wishbone_tool::number::{get_base, parse_u16, parse_u32, parse_u32_address, parse_u8, read_radix};

fn number_error(r: Result<u32, ConfigError>) -> (String, IntErrorKind) {
    match r {
        Err(ConfigError::NumberParseError(s, e)) => (s, e),
        Err(other) => panic!("unexpected error {:?}", other),
        Ok(v) => panic!("unexpected value {}", v),
    }
}

#[test]
fn get_base_selects_radix_from_prefix() {
    assert_eq!(get_base("0x1f"), ("1f", 16));
    assert_eq!(get_base("0X1F"), ("1F", 16));
    assert_eq!(get_base("0b101"), ("101", 2));
    assert_eq!(get_base("0B1"), ("1", 2));
    assert_eq!(get_base("0755"), ("755", 8));
    assert_eq!(get_base("123"), ("123", 10));
}

#[test]
fn get_base_edge_cases() {
    assert_eq!(get_base("0"), ("0", 10));
    assert_eq!(get_base("00"), ("", 8));
    assert_eq!(get_base("0007"), ("7", 8));
    assert_eq!(get_base(""), ("", 10));
    assert_eq!(get_base("0x0x5"), ("5", 16));
    assert_eq!(get_base("0x"), ("", 16));
    assert_eq!(get_base("x0"), ("x0", 10));
}

#[test]
fn get_base_result_is_suffix() {
    for v in ["0x0x0x", "0b0b1", "000", "0", "12", "0Xab", "é0x", "0é"] {
        let (digits, base) = get_base(v);
        assert!(v.ends_with(digits));
        assert!([2, 8, 10, 16].contains(&base));
        if base == 10 {
            assert_eq!(digits, v);
        }
    }
}

#[test]
fn parse_u8_bounds() {
    assert_eq!(parse_u8("255").unwrap(), 255);
    assert_eq!(parse_u8("0xff").unwrap(), 255);
    assert_eq!(parse_u8("0").unwrap(), 0);
    match parse_u8("256") {
        Err(ConfigError::NumberParseError(s, e)) => {
            assert_eq!(s, "256");
            assert_eq!(e, IntErrorKind::PosOverflow);
        }
        _ => panic!("256 does not fit in a u8"),
    }
}

#[test]
fn parse_u16_bounds() {
    assert_eq!(parse_u16("0xffff").unwrap(), 0xffff);
    assert_eq!(parse_u16("1234").unwrap(), 1234);
    assert!(matches!(parse_u16("0x10000"), Err(ConfigError::NumberParseError(s, _)) if s == "10000"));
}

#[test]
fn parse_u32_radixes() {
    assert_eq!(parse_u32("0b1010").unwrap(), 10);
    assert_eq!(parse_u32("017").unwrap(), 15);
    assert_eq!(parse_u32("0x10").unwrap(), 16);
    assert_eq!(parse_u32("0XfF").unwrap(), 255);
    assert_eq!(parse_u32("+5").unwrap(), 5);
    assert_eq!(parse_u32("4294967295").unwrap(), u32::MAX);
    assert_eq!(parse_u32("0xf00f0000").unwrap(), 0xf00f_0000);
}

#[test]
fn parse_u32_errors_carry_digits() {
    assert_eq!(number_error(parse_u32("00")), ("".to_string(), IntErrorKind::Empty));
    assert_eq!(number_error(parse_u32("0x")), ("".to_string(), IntErrorKind::Empty));
    assert_eq!(number_error(parse_u32("12a")), ("12a".to_string(), IntErrorKind::InvalidDigit));
    assert_eq!(number_error(parse_u32("0b102")), ("102".to_string(), IntErrorKind::InvalidDigit));
    assert_eq!(number_error(parse_u32("089")), ("89".to_string(), IntErrorKind::InvalidDigit));
    assert_eq!(number_error(parse_u32("-1")), ("-1".to_string(), IntErrorKind::InvalidDigit));
    assert_eq!(number_error(parse_u32("+")), ("+".to_string(), IntErrorKind::InvalidDigit));
    assert_eq!(number_error(parse_u32("4294967296")), ("4294967296".to_string(), IntErrorKind::PosOverflow));
}

#[test]
fn parse_u32_address_relative_to_window() {
    assert_eq!(parse_u32_address("0x1000", 0x100).unwrap(), Some(0xf00));
    assert_eq!(parse_u32_address("0x100", 0x100).unwrap(), Some(0));
    assert_eq!(parse_u32_address("0x10", 0x100).unwrap(), None);
    assert_eq!(parse_u32_address("42", 0).unwrap(), Some(42));
    assert!(matches!(parse_u32_address("0xg", 0), Err(ConfigError::NumberParseError(s, _)) if s == "g"));
}

#[test]
fn address_offset_law_on_values() {
    for (v, off) in [("100", 30u32), ("0x20", 0x20), ("7", 8), ("0", 0)] {
        let n = parse_u32(v).unwrap();
        match parse_u32_address(v, off).unwrap() {
            Some(a) => {
                assert!(n >= off);
                assert_eq!(a + off, n);
            }
            None => assert!(n < off),
        }
    }
}

#[test]
fn narrow_and_wide_parses_agree() {
    for v in ["0", "255", "256", "0xff", "0x100", "0b11111111", "0377", "0400", "65535", "65536", "abc", ""] {
        let wide = parse_u32(v).ok();
        let narrow8 = parse_u8(v).ok().map(u32::from);
        let narrow16 = parse_u16(v).ok().map(u32::from);
        assert_eq!(narrow8, wide.filter(|n| *n <= 255));
        assert_eq!(narrow16, wide.filter(|n| *n <= 65535));
    }
}

#[test]
fn decimal_round_trip() {
    for n in [0u32, 1, 9, 10, 99, 100, 12345, u32::MAX] {
        assert_eq!(parse_u32(&n.to_string()).unwrap(), n);
    }
}

#[test]
fn prefix_selects_radix_for_following_digits() {
    assert_eq!(parse_u32("0x123").unwrap(), u32::from_str_radix("123", 16).unwrap());
    assert_eq!(parse_u32("0b110").unwrap(), u32::from_str_radix("110", 2).unwrap());
    assert_eq!(parse_u32("0B1").unwrap(), 1);
}

#[test]
fn parse_agrees_with_std_radix_parse() {
    for v in ["0x1a2b", "0b1", "0777", "987654", "0xFFFFFFFF", "0x100000000", "0b", "1_000"] {
        let (digits, base) = get_base(v);
        assert_eq!(parse_u32(v).ok(), u32::from_str_radix(digits, base).ok());
    }
}

#[test]
fn error_kinds_follow_std_order() {
    assert_eq!(number_error(parse_u32("08")), ("8".to_string(), IntErrorKind::InvalidDigit));
    assert_eq!(number_error(parse_u32(" 42")), (" 42".to_string(), IntErrorKind::InvalidDigit));
    assert_eq!(number_error(parse_u32("0x100000000")), ("100000000".to_string(), IntErrorKind::PosOverflow));
    assert_eq!(number_error(parse_u32("99999999999z")), ("99999999999z".to_string(), IntErrorKind::PosOverflow));
    assert_eq!(number_error(parse_u32("1z99999999999")), ("1z99999999999".to_string(), IntErrorKind::InvalidDigit));
    assert!(matches!(parse_u8("0x100"), Err(ConfigError::NumberParseError(s, IntErrorKind::PosOverflow)) if s == "100"));
    assert!(matches!(parse_u16("65536"), Err(ConfigError::NumberParseError(s, IntErrorKind::PosOverflow)) if s == "65536"));
    assert!(matches!(parse_u32_address("zz", 0), Err(ConfigError::NumberParseError(s, IntErrorKind::InvalidDigit)) if s == "zz"));
}

#[test]
fn error_kinds_agree_with_std() {
    for v in ["", "+", "-", "-0", "0x", "0xg", "0b2", "4294967296", "42949672950", "1 ", "12a", "+12", "++1"] {
        let (digits, base) = get_base(v);
        let std_kind = u32::from_str_radix(digits, base).err().map(|e| e.kind().clone());
        let ours = parse_u32(v).err().map(|e| match e {
            ConfigError::NumberParseError(_, k) => k,
            other => panic!("unexpected error {:?}", other),
        });
        let mapped = std_kind.map(|k| match k {
            std::num::IntErrorKind::Empty => IntErrorKind::Empty,
            std::num::IntErrorKind::InvalidDigit => IntErrorKind::InvalidDigit,
            _ => IntErrorKind::PosOverflow,
        });
        assert_eq!(ours, mapped, "{}", v);
    }
}

#[test]
fn address_failures_match_number_failures() {
    for v in ["zz", "0x", "4294967296", "08"] {
        let a = parse_u32_address(v, 0).err().map(|e| format!("{:?}", e));
        let n = parse_u32(v).err().map(|e| format!("{:?}", e));
        assert_eq!(a, n);
    }
}

#[test]
fn numerals_in_other_radixes_round_trip() {
    for n in [1u32, 7, 8, 11, 255, 0xdead_beef, u32::MAX] {
        assert_eq!(parse_u32(&format!("0x{:x}", n)).unwrap(), n);
        assert_eq!(parse_u32(&format!("0X{:x}", n)).unwrap(), n);
        assert_eq!(parse_u32(&format!("0b{:b}", n)).unwrap(), n);
        assert_eq!(parse_u32(&format!("0B{:b}", n)).unwrap(), n);
        assert_eq!(parse_u32(&format!("0{:o}", n)).unwrap(), n);
    }
    assert_eq!(parse_u32("0x0").unwrap(), 0);
    assert_eq!(parse_u32("0b0").unwrap(), 0);
}

#[test]
fn offset_numeral_reads_back_relative() {
    for (a, off) in [(0u32, 0u32), (4, 0x8200_0000), (0x100, 0x100), (u32::MAX - 5, 5)] {
        assert_eq!(parse_u32_address(&(a + off).to_string(), off).unwrap(), Some(a));
    }
}

#[test]
fn read_radix_matches_std_on_mixed_faults() {
    assert_eq!(read_radix("300x", 10, 255), Err(IntErrorKind::PosOverflow));
    assert_eq!(read_radix("30x0", 10, 255), Err(IntErrorKind::InvalidDigit));
    assert_eq!(read_radix("+", 10, 255), Err(IntErrorKind::InvalidDigit));
    assert_eq!(read_radix("-", 16, 255), Err(IntErrorKind::InvalidDigit));
    assert_eq!(read_radix("", 2, 255), Err(IntErrorKind::Empty));
    assert_eq!(read_radix("+ff", 16, 255), Ok(255));
    assert_eq!(read_radix("Zz", 36, u32::MAX), Ok(35 * 36 + 35));
    assert!(u8::from_str_radix("300x", 10).unwrap_err().kind() == &std::num::IntErrorKind::PosOverflow);
}
