use wishbone_tool::error::{ConfigError, IntErrorKind};
use wishbone_tool::spi::SpiBridgeConfig;

fn pins(c: &SpiBridgeConfig) -> (u8, Option<u8>, u8, Option<u8>) {
    (c.copi, c.cipo, c.clk, c.cs)
}

#[test]
fn two_pins_are_copi_and_clk() {
    let c = SpiBridgeConfig::from_string("2,3").unwrap();
    assert_eq!(pins(&c), (2, None, 3, None));
}

#[test]
fn three_pins_add_chip_select() {
    let c = SpiBridgeConfig::from_string("2,3,4").unwrap();
    assert_eq!(pins(&c), (2, None, 3, Some(4)));
}

#[test]
fn four_pins_add_cipo() {
    let c = SpiBridgeConfig::from_string("2,3,4,18").unwrap();
    assert_eq!(pins(&c), (2, Some(3), 4, Some(18)));
}

#[test]
fn pins_take_radix_prefixes() {
    let c = SpiBridgeConfig::from_string("0x10,0b11,07,9").unwrap();
    assert_eq!(pins(&c), (16, Some(3), 7, Some(9)));
}

#[test]
fn pins_keep_low_eight_bits() {
    let c = SpiBridgeConfig::from_string("300,0x1ff").unwrap();
    assert_eq!(pins(&c), (44, None, 255, None));
}

#[test]
fn wrong_pin_count_is_refused_with_usage() {
    for spec in ["2", "1,2,3,4,5", ""] {
        match SpiBridgeConfig::from_string(spec) {
            Err(ConfigError::SpiParseError(msg)) => assert_eq!(
                msg,
                format!("{} is not a valid pin spec -- must be COPI,CIPO,CLK,CS (e.g. \"2,3,4,18\")", spec)
            ),
            _ => panic!("{} has the wrong number of pins", spec),
        }
    }
}

#[test]
fn first_bad_pin_is_reported() {
    assert!(matches!(SpiBridgeConfig::from_string("a,1"), Err(ConfigError::NumberParseError(s, _)) if s == "a"));
    assert!(matches!(SpiBridgeConfig::from_string("1,x,y"), Err(ConfigError::NumberParseError(s, _)) if s == "x"));
    assert!(matches!(SpiBridgeConfig::from_string("1,2,3,"), Err(ConfigError::NumberParseError(s, _)) if s.is_empty()));
}

#[test]
fn bad_pin_error_kinds() {
    assert!(matches!(SpiBridgeConfig::from_string("2,3,4,"), Err(ConfigError::NumberParseError(s, IntErrorKind::Empty)) if s.is_empty()));
    assert!(matches!(SpiBridgeConfig::from_string("2, 3"), Err(ConfigError::NumberParseError(s, IntErrorKind::InvalidDigit)) if s == " 3"));
}
