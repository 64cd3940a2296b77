use wishbone_tool::error::ConfigError;
use wishbone_tool::registers::{load_registers, parse_csr_csv, read_csr_rows, RegisterMap};

const CSR: &str = "\
#--------------------------------------------------------------------------------
csr_base,ctrl,0x82000000,,
csr_register,ctrl_reset,0x82000000,1,rw
csr_register,ctrl_scratch,0x82000004,4,rw
csr_register,UART_XOVER_RXTX,0x82001000,1,rw
memory_region,SRAM,0x10000000,8192,cached
constant,config_clock_frequency,12000000,,
";

fn rows(text: &str) -> Vec<Option<Vec<String>>> {
    read_csr_rows(text.as_bytes())
}

#[test]
fn reader_skips_header_row() {
    let r = rows("a,b\nc,d,e\n");
    assert_eq!(r, vec![Some(vec!["c".to_string(), "d".to_string(), "e".to_string()])]);
}

#[test]
fn reader_keeps_fields_in_order() {
    let r = rows(CSR);
    assert_eq!(r.len(), 6);
    assert_eq!(
        r[1],
        Some(vec!["csr_register".to_string(), "ctrl_reset".to_string(), "0x82000000".to_string(), "1".to_string(), "rw".to_string()])
    );
}

#[test]
fn registers_and_regions_are_named_in_lower_case() {
    let (map, offset) = parse_csr_csv(Some(Ok(rows(CSR))), None).unwrap();
    assert_eq!(offset, 0);
    assert_eq!(map.get("ctrl_reset"), Some(Some(0x8200_0000)));
    assert_eq!(map.get("uart_xover_rxtx"), Some(Some(0x8200_1000)));
    assert_eq!(map.get("UART_XOVER_RXTX"), None);
    assert_eq!(map.get("sram"), Some(Some(0x1000_0000)));
    assert!(!map.contains_key("ctrl"));
    assert!(!map.contains_key("config_clock_frequency"));
}

#[test]
fn multi_word_registers_are_numbered_in_reverse() {
    let (map, _) = parse_csr_csv(Some(Ok(rows(CSR))), None).unwrap();
    assert_eq!(map.get("ctrl_scratch"), Some(Some(0x8200_0004)));
    assert_eq!(map.get("ctrl_scratch3"), Some(Some(0x8200_0004)));
    assert_eq!(map.get("ctrl_scratch2"), Some(Some(0x8200_0008)));
    assert_eq!(map.get("ctrl_scratch1"), Some(Some(0x8200_000c)));
    assert_eq!(map.get("ctrl_scratch0"), Some(Some(0x8200_0010)));
    assert_eq!(map.get("ctrl_scratch4"), None);
}

#[test]
fn zero_word_register_names_only_its_base() {
    let (map, _) = parse_csr_csv(Some(Ok(rows("h\ncsr_register,empty,0x40,0,rw\n"))), None).unwrap();
    assert_eq!(map.get("empty"), Some(Some(0x40)));
    assert_eq!(map.get("empty0"), None);
}

#[test]
fn window_named_by_register() {
    let (map, offset) = parse_csr_csv(Some(Ok(rows(CSR))), Some("ctrl_scratch")).unwrap();
    assert_eq!(offset, 0x8200_0004);
    assert_eq!(map.get("ctrl_scratch"), Some(Some(0)));
    assert_eq!(map.get("ctrl_scratch0"), Some(Some(0xc)));
    assert_eq!(map.get("ctrl_reset"), Some(None));
    assert_eq!(map.get("sram"), Some(None));
}

#[test]
fn window_given_as_number() {
    let (map, offset) = parse_csr_csv(Some(Ok(rows(CSR))), Some("0x82000000")).unwrap();
    assert_eq!(offset, 0x8200_0000);
    assert_eq!(map.get("ctrl_reset"), Some(Some(0)));
    assert_eq!(map.get("uart_xover_rxtx"), Some(Some(0x1000)));
    assert_eq!(map.get("sram"), Some(None));
}

#[test]
fn window_without_file() {
    let (map, offset) = parse_csr_csv(None, Some("0x100")).unwrap();
    assert_eq!(offset, 0x100);
    assert!(!map.contains_key("anything"));
    let (_, offset) = parse_csr_csv(None, None).unwrap();
    assert_eq!(offset, 0);
    assert!(matches!(parse_csr_csv(None, Some("zz")), Err(ConfigError::NumberParseError(s, _)) if s == "zz"));
}

#[test]
fn window_name_is_matched_exactly() {
    assert!(matches!(
        parse_csr_csv(Some(Ok(rows(CSR))), Some("CTRL_RESET")),
        Err(ConfigError::NumberParseError(s, _)) if s == "CTRL_RESET"
    ));
}

#[test]
fn bad_number_in_file_is_reported() {
    let text = "h\ncsr_register,a,0x10,1,rw\ncsr_register,b,0xzz,1,rw\ncsr_register,c,0x10\n";
    assert!(matches!(parse_csr_csv(Some(Ok(rows(text))), None), Err(ConfigError::NumberParseError(s, _)) if s == "zz"));
    let text = "h\nmemory_region,m,12q,4\n";
    assert!(matches!(parse_csr_csv(Some(Ok(rows(text))), None), Err(ConfigError::NumberParseError(s, _)) if s == "12q"));
}

#[test]
fn unreadable_file_is_an_io_error() {
    let e = std::io::Error::new(std::io::ErrorKind::NotFound, "missing");
    assert!(matches!(parse_csr_csv(Some(Err(e)), None), Err(ConfigError::IoError(_))));
}

#[test]
fn malformed_rows_are_detected() {
    assert!(load_registers(Some(Ok(rows("h\ncsr_register,a,0x10\n"))), None).is_none());
    assert!(load_registers(Some(Ok(rows("h\nmemory_region,a\n"))), None).is_none());
    assert!(load_registers(Some(Ok(rows("h\ncsr_register,a,0xfffffffc,3,rw\n"))), None).is_none());
    assert!(load_registers(Some(Ok(rows("h\ncsr_register,a,0xfffffff4,3,rw\n"))), None).is_some());
    // An earlier number error stops reading before the short row.
    assert!(matches!(
        load_registers(Some(Ok(rows("h\ncsr_register,a,bad,1\ncsr_register,b\n"))), None),
        Some(Err(ConfigError::NumberParseError(_, _)))
    ));
}

#[test]
fn register_map_insert_get() {
    let mut m = RegisterMap::new();
    assert_eq!(m.get("a"), None);
    m.insert("a".to_string(), Some(1));
    m.insert("b".to_string(), None);
    assert_eq!(m.get("a"), Some(Some(1)));
    assert_eq!(m.get("b"), Some(None));
    m.insert("a".to_string(), Some(7));
    assert_eq!(m.get("a"), Some(Some(7)));
    assert!(m.contains_key("b"));
    assert!(!m.contains_key("c"));
    let copy = m.clone();
    assert_eq!(copy.get("a"), Some(Some(7)));
}

#[test]
fn register_map_apply_offset() {
    let mut m = RegisterMap::new();
    m.insert("low".to_string(), Some(0x10));
    m.insert("edge".to_string(), Some(0x100));
    m.insert("high".to_string(), Some(0x180));
    m.apply_offset(0x100);
    assert_eq!(m.get("low"), Some(None));
    assert_eq!(m.get("edge"), Some(Some(0)));
    assert_eq!(m.get("high"), Some(Some(0x80)));
}

#[test]
fn window_equals_offsetting_the_plain_read() {
    let (plain, base) = parse_csr_csv(Some(Ok(rows(CSR))), None).unwrap();
    assert_eq!(base, 0);
    let (windowed, off) = parse_csr_csv(Some(Ok(rows(CSR))), Some("0x82000004")).unwrap();
    assert_eq!(off, 0x8200_0004);
    for name in ["ctrl_reset", "ctrl_scratch", "ctrl_scratch0", "ctrl_scratch3", "uart_xover_rxtx", "sram", "nothing"] {
        let expected = plain.get(name).map(|v| v.and_then(|a| a.checked_sub(off)));
        assert_eq!(windowed.get(name), expected, "{}", name);
    }
}

#[test]
fn ascii_names_are_lowered_letter_by_letter() {
    let (map, _) = parse_csr_csv(Some(Ok(rows("h\nmemory_region,Main_RAM-2,0x40000000,4\n"))), None).unwrap();
    assert_eq!(map.get("main_ram-2"), Some(Some(0x4000_0000)));
}
