use wishbone_tool::bridge::{BridgeConfig, EthernetBridgeProtocol, ServerKind};
use wishbone_tool::config::{ArgValues, Config};
use wishbone_tool::error::{ConfigError, IntErrorKind};
use wishbone_tool::registers::read_csr_rows;

fn args() -> ArgValues {
    ArgValues {
        vid: None,
        pid: None,
        bus: None,
        device: None,
        serial: None,
        baud: None,
        load_name: None,
        load_address: None,
        value: None,
        gdb_port: "3333".to_string(),
        wishbone_port: "1234".to_string(),
        ethernet_port: "1234".to_string(),
        bind_addr: None,
        ethernet_tcp: false,
        ethernet_host: None,
        pcie_bar: None,
        spi_pins: None,
        server_kind: None,
        random_loops: None,
        random_address: None,
        random_range: None,
        csr_csv: None,
        register_offset: None,
        messible_address: None,
        debug_offset: None,
        address: None,
        terminal_mouse: false,
        windows: false,
    }
}

fn s(v: &str) -> Option<String> {
    Some(v.to_string())
}

fn kinds(v: &[&str]) -> Option<Vec<String>> {
    Some(v.iter().map(|x| x.to_string()).collect())
}

const CSR: &str = "\
#header
csr_register,ctrl_reset,0x82000000,1,rw
csr_register,vexriscv_debug,0xf00f0000,1,rw
csr_register,uart_xover_rxtx,0x82001000,1,rw
csr_register,uart_xover_rxempty,0x82001004,1,rw
csr_register,messible_out,0x82002000,1,rw
memory_region,sram,0x10000000,8192,cached
";

fn with_csr(mut a: ArgValues, text: &str) -> ArgValues {
    a.csr_csv = Some(Ok(read_csr_rows(text.as_bytes())));
    a
}

#[test]
fn default_config() {
    let c = Config::default();
    assert_eq!(c.bind_addr, "127.0.0.1");
    assert_eq!(c.bind_port, 1234);
    assert_eq!(c.gdb_port, 3333);
    assert_eq!(c.debug_offset, 0);
    assert!(c.server_kind.is_empty());
    assert!(matches!(c.bridge_config, BridgeConfig::NoBridge));
    assert!(c.memory_address.is_none() && c.load_name.is_none() && !c.terminal_mouse);
    assert!(!c.register_mapping.contains_key("ctrl_reset"));
}

#[test]
fn no_operation_is_refused() {
    assert!(matches!(Config::parse(args()), Err(ConfigError::NoOperationSpecified)));
}

#[test]
fn address_alone_runs_memory_access() {
    let mut a = args();
    a.address = s("0x10000000");
    a.value = s("0xdeadbeef");
    let c = Config::parse(a).unwrap();
    assert_eq!(c.memory_address, Some(0x1000_0000));
    assert_eq!(c.memory_value, Some(0xdead_beef));
    assert_eq!(c.server_kind, vec![ServerKind::MemoryAccess]);
    assert_eq!(c.debug_offset, 0xf00f_0000);
    assert_eq!(c.bind_addr, "127.0.0.1");
    assert_eq!(c.bind_port, 1234);
    match c.bridge_config {
        BridgeConfig::UsbBridge(u) => assert_eq!((u.vid, u.pid, u.bus, u.device), (None, None, None, None)),
        _ => panic!("USB is the default bridge"),
    }
}

#[test]
fn usb_selection_numbers() {
    let mut a = args();
    a.vid = s("0x1209");
    a.pid = s("0x5bf0");
    a.bus = s("1");
    a.device = s("017");
    a.server_kind = kinds(&["gdb"]);
    let c = Config::parse(a).unwrap();
    match c.bridge_config {
        BridgeConfig::UsbBridge(u) => assert_eq!((u.vid, u.pid, u.bus, u.device), (Some(0x1209), Some(0x5bf0), Some(1), Some(15))),
        _ => panic!("USB bridge expected"),
    }
    assert_eq!(c.server_kind, vec![ServerKind::GDB]);
}

#[test]
fn servers_are_read_in_order() {
    let mut a = args();
    a.server_kind = kinds(&["wishbone", "random-test", "load-file", "terminal", "messible", "gdb"]);
    let c = Config::parse(a).unwrap();
    assert_eq!(
        c.server_kind,
        vec![
            ServerKind::Wishbone,
            ServerKind::RandomTest,
            ServerKind::LoadFile,
            ServerKind::Terminal,
            ServerKind::Messible,
            ServerKind::GDB
        ]
    );
}

#[test]
fn unknown_server_is_refused() {
    let mut a = args();
    a.server_kind = kinds(&["gdb", "telnet", "nope"]);
    assert!(matches!(Config::parse(a), Err(ConfigError::UnknownServerKind(k)) if k == "telnet"));
}

#[test]
fn earlier_option_errors_come_first() {
    let mut a = args();
    a.vid = s("xyz");
    a.server_kind = kinds(&["nope"]);
    a.random_loops = s("bad");
    assert!(matches!(Config::parse(a), Err(ConfigError::NumberParseError(v, _)) if v == "xyz"));
    let mut a = args();
    a.gdb_port = "70000".to_string();
    a.spi_pins = s("1");
    assert!(matches!(Config::parse(a), Err(ConfigError::NumberParseError(v, _)) if v == "70000"));
}

#[test]
fn serial_bridge_with_baud() {
    let mut a = args();
    a.serial = s("/dev/ttyUSB0");
    a.baud = s("0x1c200");
    a.address = s("4");
    let c = Config::parse(a).unwrap();
    match c.bridge_config {
        BridgeConfig::UartBridge(u) => {
            assert_eq!(u.serial_port, "/dev/ttyUSB0");
            assert_eq!(u.baud, 115200);
        }
        _ => panic!("serial bridge expected"),
    }
}

#[test]
fn serial_port_on_windows_drops_colon() {
    let mut a = args();
    a.serial = s("COM3:");
    a.address = s("4");
    a.windows = true;
    let c = Config::parse(a).unwrap();
    match c.bridge_config {
        BridgeConfig::UartBridge(u) => {
            assert_eq!(u.serial_port, "COM3");
            assert_eq!(u.baud, 115200);
        }
        _ => panic!("serial bridge expected"),
    }
    assert!(c.terminal_mouse);
    let mut a = args();
    a.serial = s("COM3:");
    a.address = s("4");
    match Config::parse(a).unwrap().bridge_config {
        BridgeConfig::UartBridge(u) => assert_eq!(u.serial_port, "COM3:"),
        _ => panic!("serial bridge expected"),
    }
}

#[test]
fn ethernet_bridge() {
    let mut a = args();
    a.serial = s("/dev/ttyUSB0");
    a.ethernet_host = s("192.168.1.50");
    a.ethernet_port = "0x4d2".to_string();
    a.ethernet_tcp = true;
    a.address = s("0");
    let c = Config::parse(a).unwrap();
    match c.bridge_config {
        BridgeConfig::EthernetBridge(e) => {
            assert_eq!(e.host, "192.168.1.50");
            assert_eq!(e.port, 1234);
            assert_eq!(e.protocol, EthernetBridgeProtocol::TCP);
        }
        _ => panic!("ethernet bridge expected"),
    }
}

#[test]
fn spi_bridge_wins_over_pcie() {
    let mut a = args();
    a.pcie_bar = s("/sys/bus/pci/resource0");
    a.address = s("0");
    match Config::parse(a).unwrap().bridge_config {
        BridgeConfig::PCIeBridge(p) => assert_eq!(p.path, "/sys/bus/pci/resource0"),
        _ => panic!("PCIe bridge expected"),
    }
    let mut a = args();
    a.pcie_bar = s("/sys/bus/pci/resource0");
    a.spi_pins = s("2,3,4,18");
    a.address = s("0");
    match Config::parse(a).unwrap().bridge_config {
        BridgeConfig::SpiBridge(p) => assert_eq!((p.copi, p.cipo, p.clk, p.cs), (2, Some(3), 4, Some(18))),
        _ => panic!("SPI bridge expected"),
    }
    let mut a = args();
    a.spi_pins = s("2");
    a.address = s("0");
    assert!(matches!(Config::parse(a), Err(ConfigError::SpiParseError(_))));
}

#[test]
fn load_address_without_name_runs_memory_access_first() {
    let mut a = args();
    a.load_address = s("0x40000000");
    a.server_kind = kinds(&["gdb"]);
    let c = Config::parse(a).unwrap();
    assert_eq!(c.server_kind, vec![ServerKind::MemoryAccess, ServerKind::GDB]);
    assert_eq!(c.load_addr, Some(0x4000_0000));
    let mut a = args();
    a.load_address = s("0x40000000");
    a.load_name = s("firmware.bin");
    a.server_kind = kinds(&["load-file"]);
    let c = Config::parse(a).unwrap();
    assert_eq!(c.server_kind, vec![ServerKind::LoadFile]);
    assert_eq!(c.load_name.as_deref(), Some("firmware.bin"));
}

#[test]
fn random_options() {
    let mut a = args();
    a.server_kind = kinds(&["random-test"]);
    a.random_loops = s("10");
    a.random_address = s("0x1000");
    a.random_range = s("0b100");
    a.bind_addr = s("0.0.0.0");
    let c = Config::parse(a).unwrap();
    assert_eq!((c.random_loops, c.random_address, c.random_range), (Some(10), Some(0x1000), Some(4)));
    assert_eq!(c.bind_addr, "0.0.0.0");
}

#[test]
fn register_file_supplies_addresses() {
    let mut a = with_csr(args(), CSR);
    a.address = s("CTRL_RESET");
    let c = Config::parse(a).unwrap();
    assert_eq!(c.memory_address, Some(0x8200_0000));
    assert_eq!(c.messible_address, Some(0x8200_2000));
    assert_eq!(c.debug_offset, 0xf00f_0000);
    assert_eq!(c.register_mapping.get("sram"), Some(Some(0x1000_0000)));
}

#[test]
fn addresses_are_relative_to_window() {
    let mut a = with_csr(args(), CSR);
    a.register_offset = s("0x82000000");
    a.address = s("0x82000010");
    a.debug_offset = s("0x82000100");
    let c = Config::parse(a).unwrap();
    assert_eq!(c.memory_address, Some(0x10));
    assert_eq!(c.debug_offset, 0x100);
    assert_eq!(c.messible_address, Some(0x2000));
    let mut a = with_csr(args(), CSR);
    a.register_offset = s("0x82000000");
    a.address = s("sram");
    assert!(matches!(Config::parse(a), Err(ConfigError::AddressOutOfRange(v)) if v == "sram"));
    let mut a = args();
    a.register_offset = s("0x100");
    a.address = s("0x10");
    assert!(matches!(Config::parse(a), Err(ConfigError::AddressOutOfRange(v)) if v == "0x10"));
    let mut a = with_csr(args(), CSR);
    a.register_offset = s("ctrl_reset");
    a.address = s("0x82000004");
    let c = Config::parse(a).unwrap();
    assert_eq!(c.memory_address, Some(4));
    assert_eq!(c.debug_offset, 0x6e0f_0000);
    assert_eq!(c.register_mapping.get("ctrl_reset"), Some(Some(0)));
}

#[test]
fn messible_below_window_is_out_of_range() {
    let mut a = with_csr(args(), CSR);
    a.register_offset = s("0x90000000");
    a.address = s("0x90000000");
    assert!(matches!(Config::parse(a), Err(ConfigError::AddressOutOfRange(v)) if v == "messible_out"));
}

#[test]
fn gdb_needs_debug_registers_in_file() {
    let text = "#h\ncsr_register,ctrl_reset,0x82000000,1,rw\n";
    let mut a = with_csr(args(), text);
    a.server_kind = kinds(&["gdb"]);
    match Config::parse(a) {
        Err(ConfigError::InvalidConfig(m)) => assert_eq!(m, "GDB specified but no vexriscv address present in csv file"),
        _ => panic!("GDB needs vexriscv_debug"),
    }
    let mut a = with_csr(args(), CSR);
    a.server_kind = kinds(&["gdb"]);
    assert!(Config::parse(a).is_ok());
}

#[test]
fn terminal_needs_uart_registers_in_file() {
    let mut a = with_csr(args(), CSR);
    a.server_kind = kinds(&["terminal"]);
    match Config::parse(a) {
        Err(ConfigError::InvalidConfig(m)) => assert_eq!(m, "Terminal specified, but no xover uart addresses present in csv file"),
        _ => panic!("terminal needs all xover uart registers"),
    }
    let text = format!("{}csr_register,uart_xover_ev_pending,0x82001010,1,rw\n", CSR);
    let mut a = with_csr(args(), &text);
    a.server_kind = kinds(&["terminal"]);
    let c = Config::parse(a).unwrap();
    assert_eq!(c.server_kind, vec![ServerKind::Terminal]);
    let mut a = args();
    a.server_kind = kinds(&["terminal"]);
    assert!(Config::parse(a).is_ok());
}

#[test]
fn file_errors_surface_at_their_turn() {
    let mut a = args();
    a.csr_csv = Some(Err(std::io::Error::new(std::io::ErrorKind::NotFound, "no file")));
    a.address = s("0");
    assert!(matches!(Config::parse(a), Err(ConfigError::IoError(_))));
    let mut a = args();
    a.csr_csv = Some(Err(std::io::Error::new(std::io::ErrorKind::NotFound, "no file")));
    a.random_range = s("bad");
    assert!(matches!(Config::parse(a), Err(ConfigError::NumberParseError(_, _))));
}

#[test]
fn checked_parse_reports_malformed_rows() {
    let mut a = with_csr(args(), "#h\ncsr_register,short,0x10\n");
    a.address = s("0");
    assert!(Config::parse_checked(a).is_none());
    let mut a = with_csr(args(), "#h\ncsr_register,short,0x10\n");
    a.vid = s("bad");
    assert!(matches!(Config::parse_checked(a), Some(Err(ConfigError::NumberParseError(_, _)))));
    let mut a = with_csr(args(), CSR);
    a.address = s("0");
    assert!(matches!(Config::parse_checked(a), Some(Ok(_))));
}

#[test]
fn server_kind_names() {
    for (name, kind) in [
        ("gdb", ServerKind::GDB),
        ("wishbone", ServerKind::Wishbone),
        ("random-test", ServerKind::RandomTest),
        ("load-file", ServerKind::LoadFile),
        ("terminal", ServerKind::Terminal),
        ("messible", ServerKind::Messible),
    ] {
        assert_eq!(ServerKind::from_string(name).unwrap(), kind);
    }
    assert!(matches!(ServerKind::from_string("GDB"), Err(ConfigError::UnknownServerKind(k)) if k == "GDB"));
}

#[test]
fn bad_pin_number_is_an_invalid_pin_spec() {
    let mut a = args();
    a.spi_pins = s("2,x");
    a.address = s("0");
    match Config::parse(a) {
        Err(ConfigError::SpiParseError(m)) => assert_eq!(
            m,
            "2,x is not a valid pin spec -- must be COPI,CIPO,CLK,CS (e.g. \"2,3,4,18\")"
        ),
        _ => panic!("a bad pin number is an invalid pin spec"),
    }
}

#[test]
fn overflowing_vid_reports_overflow() {
    let mut a = args();
    a.vid = s("0x10000");
    a.address = s("0");
    assert!(matches!(Config::parse(a), Err(ConfigError::NumberParseError(v, IntErrorKind::PosOverflow)) if v == "10000"));
}

#[test]
fn io_error_is_passed_on() {
    let mut a = args();
    a.csr_csv = Some(Err(std::io::Error::new(std::io::ErrorKind::PermissionDenied, "locked")));
    a.address = s("0");
    match Config::parse(a) {
        Err(ConfigError::IoError(e)) => {
            assert_eq!(e.kind(), std::io::ErrorKind::PermissionDenied);
            assert_eq!(e.to_string(), "locked");
        }
        _ => panic!("the I/O error is passed on"),
    }
}
