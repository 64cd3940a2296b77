//! A complete run configuration, assembled from the values given on the command line.

use vstd::prelude::*;
use vstd::string::*;

use crate::bridge::{
    BridgeConfig, BridgeView, EthernetBridgeConfig, EthernetBridgeProtocol, PCIeBridgeConfig,
    ServerKind, UartBridgeConfig, UsbBridgeConfig, spec_server_kind,
};
use crate::error::{ConfigError, ErrorView};
use crate::number::{lemma_number_bound, number_error, parse_u16, parse_u32, parse_u32_address, parse_u8, spec_address, spec_parse_number};
use crate::registers::{lemma_fold_errors, csr_result, csv_view, load_registers, parse_csr_csv, spec_csr_csv, opt_view, CsrOutcome, RegisterMap};
use crate::spi::{invalid_pin_spec, SpiBridgeConfig, spec_spi_from_string, PIN_SPEC_USAGE};
use crate::text::{lowercase, to_lowercase};

verus! {

/// The values given on the command line, by option. Options with a default
/// value always have one; `csr_csv` holds the register file's rows, or the
/// error met reading it; `windows` tells whether the tool runs on Windows.
pub struct ArgValues {
    pub vid: Option<String>,
    pub pid: Option<String>,
    pub bus: Option<String>,
    pub device: Option<String>,
    pub serial: Option<String>,
    pub baud: Option<String>,
    pub load_name: Option<String>,
    pub load_address: Option<String>,
    pub value: Option<String>,
    pub gdb_port: String,
    pub wishbone_port: String,
    pub ethernet_port: String,
    pub bind_addr: Option<String>,
    pub ethernet_tcp: bool,
    pub ethernet_host: Option<String>,
    pub pcie_bar: Option<String>,
    pub spi_pins: Option<String>,
    pub server_kind: Option<Vec<String>>,
    pub random_loops: Option<String>,
    pub random_address: Option<String>,
    pub random_range: Option<String>,
    pub csr_csv: Option<Result<Vec<Option<Vec<String>>>, std::io::Error>>,
    pub register_offset: Option<String>,
    pub messible_address: Option<String>,
    pub debug_offset: Option<String>,
    pub address: Option<String>,
    pub terminal_mouse: bool,
    pub windows: bool,
}

/// The text of an optional string.
pub open spec fn text(o: Option<String>) -> Option<Seq<char>> {
    match o {
        Some(s) => Some(s@),
        None => None,
    }
}

/// A number with an optional radix prefix, at most `max`, or the error for it.
pub open spec fn num(s: Seq<char>, max: nat) -> Result<nat, ErrorView> {
    match spec_parse_number(s, max) {
        Some(n) => Ok(n),
        None => Err(number_error(s, max)),
    }
}

/// An optional number: absent, read, or the error for it.
pub open spec fn num_opt(o: Option<String>, max: nat) -> Result<Option<nat>, ErrorView> {
    match o {
        None => Ok(None),
        Some(s) => match num(s@, max) {
            Ok(n) => Ok(Some(n)),
            Err(e) => Err(e),
        },
    }
}

/// An optional 32-bit number.
pub open spec fn opt_u32(o: Option<nat>) -> Option<u32> {
    match o {
        Some(n) => Some(n as u32),
        None => None,
    }
}

/// The services named on the command line, in order, or the first unknown name.
pub open spec fn spec_server_kinds(items: Seq<Seq<char>>) -> Result<Seq<ServerKind>, ErrorView>
    decreases items.len(),
{
    if items.len() == 0 {
        Ok(Seq::empty())
    } else {
        match spec_server_kinds(items.drop_last()) {
            Err(e) => Err(e),
            Ok(ks) => match spec_server_kind(items.last()) {
                Some(k) => Ok(ks.push(k)),
                None => Err(ErrorView::UnknownServerKind(items.last())),
            },
        }
    }
}

/// The texts of a list of strings.
pub open spec fn texts(v: Seq<String>) -> Seq<Seq<char>> {
    v.map_values(|s: String| s@)
}

/// A serial port name: on Windows a trailing `:` is dropped.
pub open spec fn serial_port_name(port: Seq<char>, windows: bool) -> Seq<char> {
    if windows && port.len() > 0 && port.last() == ':' {
        port.drop_last()
    } else {
        port
    }
}

/// What the command line settles before the register file is read.
pub struct Preliminary {
    pub server_kind: Seq<ServerKind>,
    pub bridge: BridgeView,
    pub load_name: Option<Seq<char>>,
    pub load_addr: Option<u32>,
    pub memory_value: Option<u32>,
    pub gdb_port: u16,
    pub bind_port: u16,
    pub bind_addr: Seq<char>,
    pub random_loops: Option<u32>,
    pub random_address: Option<u32>,
    pub random_range: Option<u32>,
}

/// The bridge the command line selects, given the USB bridge and the numbers
/// already read: the last of serial port, Ethernet host, PCIe BAR and SPI
/// pins that is given wins.
pub open spec fn spec_bridge(a: ArgValues, usb: UsbBridgeConfig, baud: nat, eth_port: nat) -> BridgeView {
    match a.spi_pins {
        Some(p) => {
            let c = spec_spi_from_string(p@)->Ok_0;
            BridgeView::SpiBridge(c.copi, c.cipo, c.clk, c.cs)
        },
        None => match a.pcie_bar {
            Some(p) => BridgeView::PCIeBridge(p@),
            None => match a.ethernet_host {
                Some(h) => BridgeView::EthernetBridge(
                    h@,
                    if a.ethernet_tcp { EthernetBridgeProtocol::TCP } else { EthernetBridgeProtocol::UDP },
                    eth_port as u16,
                ),
                None => match a.serial {
                    Some(p) => BridgeView::UartBridge(serial_port_name(p@, a.windows), baud as usize),
                    None => BridgeView::UsbBridge(usb),
                },
            },
        },
    }
}

/// What the command line settles before the register file is read, or the
/// first error met: options are read in the order vid, pid, bus, device,
/// baud, load-address, value, gdb-port, wishbone-port, ethernet-port,
/// spi-pins (any fault in them is reported as an invalid pin
/// specification), server-kind, random-loops, random-address, random-range.
pub open spec fn spec_preliminary(a: ArgValues) -> Result<Preliminary, ErrorView> {
    let vid = num_opt(a.vid, u16::MAX as nat);
    let pid = num_opt(a.pid, u16::MAX as nat);
    let bus = num_opt(a.bus, u8::MAX as nat);
    let device = num_opt(a.device, u8::MAX as nat);
    let baud = if a.serial is Some && a.baud is Some { num(a.baud->0@, u32::MAX as nat) } else { Ok(115200nat) };
    let load_addr = num_opt(a.load_address, u32::MAX as nat);
    let value = num_opt(a.value, u32::MAX as nat);
    let gdb_port = num(a.gdb_port@, u16::MAX as nat);
    let bind_port = num(a.wishbone_port@, u16::MAX as nat);
    let eth_port = num(a.ethernet_port@, u16::MAX as nat);
    let spi = match a.spi_pins {
        Some(p) => match spec_spi_from_string(p@) {
            Ok(c) => Ok(c),
            Err(_) => Err(ErrorView::SpiParse(p@ + PIN_SPEC_USAGE@)),
        },
        None => Ok(SpiBridgeConfig { copi: 0, cipo: None, clk: 0, cs: None }),
    };
    let kinds = match a.server_kind {
        Some(v) => spec_server_kinds(texts(v@)),
        None => Ok(Seq::empty()),
    };
    let random_loops = num_opt(a.random_loops, u32::MAX as nat);
    let random_address = num_opt(a.random_address, u32::MAX as nat);
    let random_range = num_opt(a.random_range, u32::MAX as nat);
    if vid is Err {
        Err(vid->Err_0)
    } else if pid is Err {
        Err(pid->Err_0)
    } else if bus is Err {
        Err(bus->Err_0)
    } else if device is Err {
        Err(device->Err_0)
    } else if baud is Err {
        Err(baud->Err_0)
    } else if load_addr is Err {
        Err(load_addr->Err_0)
    } else if value is Err {
        Err(value->Err_0)
    } else if gdb_port is Err {
        Err(gdb_port->Err_0)
    } else if bind_port is Err {
        Err(bind_port->Err_0)
    } else if eth_port is Err {
        Err(eth_port->Err_0)
    } else if spi is Err {
        Err(spi->Err_0)
    } else if kinds is Err {
        Err(kinds->Err_0)
    } else if random_loops is Err {
        Err(random_loops->Err_0)
    } else if random_address is Err {
        Err(random_address->Err_0)
    } else if random_range is Err {
        Err(random_range->Err_0)
    } else {
        let usb = UsbBridgeConfig {
            vid: match vid->Ok_0 { Some(n) => Some(n as u16), None => None },
            pid: match pid->Ok_0 { Some(n) => Some(n as u16), None => None },
            bus: match bus->Ok_0 { Some(n) => Some(n as u8), None => None },
            device: match device->Ok_0 { Some(n) => Some(n as u8), None => None },
        };
        let first = if a.load_address is Some && a.load_name is None {
            seq![ServerKind::MemoryAccess]
        } else {
            Seq::empty()
        };
        Ok(Preliminary {
            server_kind: first + kinds->Ok_0,
            bridge: spec_bridge(a, usb, baud->Ok_0, eth_port->Ok_0),
            load_name: text(a.load_name),
            load_addr: opt_u32(load_addr->Ok_0),
            memory_value: opt_u32(value->Ok_0),
            gdb_port: (gdb_port->Ok_0) as u16,
            bind_port: (bind_port->Ok_0) as u16,
            bind_addr: match a.bind_addr { Some(s) => s@, None => "127.0.0.1"@ },
            random_loops: opt_u32(random_loops->Ok_0),
            random_address: opt_u32(random_address->Ok_0),
            random_range: opt_u32(random_range->Ok_0),
        })
    }
}

/// An optional 8-bit number from the command line.
fn opt_u8(o: &Option<String>) -> (res: Result<Option<u8>, ConfigError>)
    ensures
        match num_opt(*o, u8::MAX as nat) {
            Ok(v) => res matches Ok(x) && x == (match v { Some(n) => Some(n as u8), None => None::<u8> }),
            Err(e) => res matches Err(x) && x@ == e,
        },
{
    match o {
        Some(s) => Ok(Some(parse_u8(s.as_str())?)),
        None => Ok(None),
    }
}

/// An optional 16-bit number from the command line.
fn opt_u16(o: &Option<String>) -> (res: Result<Option<u16>, ConfigError>)
    ensures
        match num_opt(*o, u16::MAX as nat) {
            Ok(v) => res matches Ok(x) && x == (match v { Some(n) => Some(n as u16), None => None::<u16> }),
            Err(e) => res matches Err(x) && x@ == e,
        },
{
    match o {
        Some(s) => Ok(Some(parse_u16(s.as_str())?)),
        None => Ok(None),
    }
}

/// An optional 32-bit number from the command line.
fn opt_u32_arg(o: &Option<String>) -> (res: Result<Option<u32>, ConfigError>)
    ensures
        match num_opt(*o, u32::MAX as nat) {
            Ok(v) => res matches Ok(x) && x == opt_u32(v),
            Err(e) => res matches Err(x) && x@ == e,
        },
{
    match o {
        Some(s) => Ok(Some(parse_u32(s.as_str())?)),
        None => Ok(None),
    }
}

/// A 16-bit number from the command line.
fn arg_u16(s: &String) -> (res: Result<u16, ConfigError>)
    ensures
        match num(s@, u16::MAX as nat) {
            Ok(n) => res matches Ok(x) && x == n,
            Err(e) => res matches Err(x) && x@ == e,
        },
{
    parse_u16(s.as_str())
}

/// The name of a serial port: on Windows a trailing `:` is dropped.
fn serial_port(port: &str, windows: bool) -> (res: String)
    ensures
        res@ == serial_port_name(port@, windows),
{
    let n = port.unicode_len();
    if windows && n > 0 && port.get_char(n - 1) == ':' {
        port.substring_char(0, n - 1).to_owned()
    } else {
        port.to_owned()
    }
}

/// Appends the services named in `items`, in order, to `kinds`; stops at the
/// first unknown name.
fn push_server_kinds(items: &Vec<String>, kinds: &mut Vec<ServerKind>) -> (res: Result<(), ConfigError>)
    ensures
        match spec_server_kinds(texts(items@)) {
            Ok(ks) => res is Ok && final(kinds)@ == old(kinds)@ + ks,
            Err(e) => res matches Err(x) && x@ == e,
        },
{
    let ghost all = texts(items@);
    let ghost start = kinds@;
    let n = items.len();
    let mut i: usize = 0;
    assert(all.take(0) =~= Seq::<Seq<char>>::empty());
    assert(start + Seq::<ServerKind>::empty() =~= start);
    while i < n
        invariant
            n == items@.len(),
            all == texts(items@),
            i <= n,
            spec_server_kinds(all.take(i as int)) matches Ok(ks) && kinds@ == start + ks,
        decreases n - i,
    {
        assert(all.take(i + 1).drop_last() =~= all.take(i as int));
        assert(all.take(i + 1).last() == items@[i as int]@);
        let ghost ks = spec_server_kinds(all.take(i as int))->Ok_0;
        match ServerKind::from_string(items[i].as_str()) {
            Ok(k) => {
                kinds.push(k);
                assert(kinds@ =~= start + ks.push(k));
            },
            Err(e) => {
                proof { lemma_kinds_stop(all, i as int + 1); }
                return Err(e);
            },
        }
        i = i + 1;
    }
    assert(all.take(n as int) =~= all);
    Ok(())
}

/// Once a name is unknown, later names change nothing.
proof fn lemma_kinds_stop(items: Seq<Seq<char>>, i: int)
    requires
        0 <= i <= items.len(),
        spec_server_kinds(items.take(i)) is Err,
    ensures
        spec_server_kinds(items) == spec_server_kinds(items.take(i)),
    decreases items.len() - i,
{
    if i < items.len() {
        assert(items.take(i + 1).drop_last() =~= items.take(i));
        lemma_kinds_stop(items, i + 1);
    } else {
        assert(items.take(i) =~= items);
    }
}

/// What the command line settles before the register file is read.
struct Settled {
    server_kind: Vec<ServerKind>,
    bridge_config: BridgeConfig,
    load_name: Option<String>,
    load_addr: Option<u32>,
    memory_value: Option<u32>,
    gdb_port: u16,
    bind_port: u16,
    bind_addr: String,
    random_loops: Option<u32>,
    random_address: Option<u32>,
    random_range: Option<u32>,
}

impl Settled {
    spec fn view(&self) -> Preliminary {
        Preliminary {
            server_kind: self.server_kind@,
            bridge: self.bridge_config@,
            load_name: text(self.load_name),
            load_addr: self.load_addr,
            memory_value: self.memory_value,
            gdb_port: self.gdb_port,
            bind_port: self.bind_port,
            bind_addr: self.bind_addr@,
            random_loops: self.random_loops,
            random_address: self.random_address,
            random_range: self.random_range,
        }
    }
}

/// Reads every option that does not depend on the register file.
#[verifier::spinoff_prover]
fn settle(a: &ArgValues) -> (res: Result<Settled, ConfigError>)
    ensures
        match spec_preliminary(*a) {
            Ok(p) => res matches Ok(s) && s.view() == p,
            Err(e) => res matches Err(x) && x@ == e,
        },
{
    let mut server_kind: Vec<ServerKind> = Vec::new();
    let vid = opt_u16(&a.vid)?;
    let pid = opt_u16(&a.pid)?;
    let bus = opt_u8(&a.bus)?;
    let device = opt_u8(&a.device)?;
    let mut bridge_config = BridgeConfig::UsbBridge(UsbBridgeConfig { vid, pid, bus, device });
    if let Some(port) = &a.serial {
        let serial_port = serial_port(port.as_str(), a.windows);
        let baud: usize = if let Some(baud) = &a.baud {
            parse_u32(baud.as_str())? as usize
        } else {
            115200
        };
        bridge_config = BridgeConfig::UartBridge(UartBridgeConfig { serial_port, baud });
    }
    let load_name = match &a.load_name {
        Some(n) => Some(n.clone()),
        None => None,
    };
    let load_addr = if let Some(addr) = &a.load_address {
        if load_name.is_none() {
            server_kind.push(ServerKind::MemoryAccess);
        }
        Some(parse_u32(addr.as_str())?)
    } else {
        None
    };
    let memory_value = opt_u32_arg(&a.value)?;
    let gdb_port = arg_u16(&a.gdb_port)?;
    let bind_port = arg_u16(&a.wishbone_port)?;
    let ethernet_port = arg_u16(&a.ethernet_port)?;
    let bind_addr = match &a.bind_addr {
        Some(addr) => addr.clone(),
        None => "127.0.0.1".to_owned(),
    };
    if let Some(host) = &a.ethernet_host {
        bridge_config = BridgeConfig::EthernetBridge(EthernetBridgeConfig {
            host: host.clone(),
            protocol: if a.ethernet_tcp { EthernetBridgeProtocol::TCP } else { EthernetBridgeProtocol::UDP },
            port: ethernet_port,
        });
    }
    if let Some(path) = &a.pcie_bar {
        bridge_config = BridgeConfig::PCIeBridge(PCIeBridgeConfig::from(path.as_str()));
    }
    if let Some(pins) = &a.spi_pins {
        bridge_config = match SpiBridgeConfig::from_string(pins.as_str()) {
            Ok(c) => BridgeConfig::SpiBridge(c),
            Err(_) => return Err(ConfigError::SpiParseError(invalid_pin_spec(pins.as_str()))),
        };
    }
    if let Some(server_kinds) = &a.server_kind {
        push_server_kinds(server_kinds, &mut server_kind)?;
    } else {
        assert(server_kind@ + Seq::<ServerKind>::empty() =~= server_kind@);
    }
    let random_loops = opt_u32_arg(&a.random_loops)?;
    let random_address = opt_u32_arg(&a.random_address)?;
    let random_range = opt_u32_arg(&a.random_range)?;
    Ok(Settled {
        server_kind,
        bridge_config,
        load_name,
        load_addr,
        memory_value,
        gdb_port,
        bind_port,
        bind_addr,
        random_loops,
        random_address,
        random_range,
    })
}

/// A run configuration.
#[derive(Clone)]
pub struct Config {
    pub memory_address: Option<u32>,
    pub memory_value: Option<u32>,
    pub server_kind: Vec<ServerKind>,
    pub bridge_config: BridgeConfig,
    pub bind_addr: String,
    pub bind_port: u16,
    pub gdb_port: u16,
    pub random_loops: Option<u32>,
    pub random_address: Option<u32>,
    pub random_range: Option<u32>,
    pub messible_address: Option<u32>,
    pub register_mapping: RegisterMap,
    pub debug_offset: u32,
    pub load_name: Option<String>,
    pub load_addr: Option<u32>,
    pub terminal_mouse: bool,
}

/// A run configuration with its texts as character sequences.
pub struct ConfigView {
    pub memory_address: Option<u32>,
    pub memory_value: Option<u32>,
    pub server_kind: Seq<ServerKind>,
    pub bridge: BridgeView,
    pub bind_addr: Seq<char>,
    pub bind_port: u16,
    pub gdb_port: u16,
    pub random_loops: Option<u32>,
    pub random_address: Option<u32>,
    pub random_range: Option<u32>,
    pub messible_address: Option<u32>,
    pub register_mapping: Map<Seq<char>, Option<u32>>,
    pub debug_offset: u32,
    pub load_name: Option<Seq<char>>,
    pub load_addr: Option<u32>,
    pub terminal_mouse: bool,
}

impl View for Config {
    type V = ConfigView;

    open spec fn view(&self) -> ConfigView {
        ConfigView {
            memory_address: self.memory_address,
            memory_value: self.memory_value,
            server_kind: self.server_kind@,
            bridge: self.bridge_config@,
            bind_addr: self.bind_addr@,
            bind_port: self.bind_port,
            gdb_port: self.gdb_port,
            random_loops: self.random_loops,
            random_address: self.random_address,
            random_range: self.random_range,
            messible_address: self.messible_address,
            register_mapping: self.register_mapping@,
            debug_offset: self.debug_offset,
            load_name: text(self.load_name),
            load_addr: self.load_addr,
            terminal_mouse: self.terminal_mouse,
        }
    }
}

/// The default address of the VexRiscv debug registers.
pub const DEFAULT_DEBUG_OFFSET: u32 = 0xf00f_0000;

impl Default for Config {
    /// No operation, no bridge, servers bound to 127.0.0.1 with the Wishbone
    /// server on port 1234 and GDB on 3333, and no register names.
    fn default() -> (res: Config)
        ensures
            res@ == (ConfigView {
                memory_address: None,
                memory_value: None,
                server_kind: Seq::empty(),
                bridge: BridgeView::NoBridge,
                bind_addr: "127.0.0.1"@,
                bind_port: 1234,
                gdb_port: 3333,
                random_loops: None,
                random_address: None,
                random_range: None,
                messible_address: None,
                register_mapping: Map::empty(),
                debug_offset: 0,
                load_name: None,
                load_addr: None,
                terminal_mouse: false,
            }),
    {
        let res = Config {
            memory_address: None,
            memory_value: None,
            server_kind: Vec::new(),
            bridge_config: BridgeConfig::NoBridge,
            bind_addr: "127.0.0.1".to_owned(),
            bind_port: 1234,
            gdb_port: 3333,
            random_loops: None,
            random_address: None,
            random_range: None,
            messible_address: None,
            register_mapping: RegisterMap::new(),
            debug_offset: 0,
            load_name: None,
            load_addr: None,
            terminal_mouse: false,
        };
        assert(res@.server_kind =~= Seq::<ServerKind>::empty());
        res
    }
}

/// An address given on the command line, relative to the register window at
/// `offset`; out of range where it lies below the window.
pub open spec fn spec_given_address(s: Seq<char>, offset: u32) -> Result<u32, ErrorView> {
    match num(s, u32::MAX as nat) {
        Err(e) => Err(e),
        Ok(n) => match spec_address(n, offset) {
            Some(v) => Ok(v),
            None => Err(ErrorView::AddressOutOfRange(s)),
        },
    }
}

/// The address stored for the name `key`, out of range where the name's
/// address lay below the register window.
pub open spec fn spec_named_address(m: Map<Seq<char>, Option<u32>>, key: Seq<char>, shown: Seq<char>) -> Result<u32, ErrorView> {
    match m[key] {
        Some(v) => Ok(v),
        None => Err(ErrorView::AddressOutOfRange(shown)),
    }
}

/// An address option: given on the command line, else the address of the
/// register `name` from the file, else `default`.
pub open spec fn spec_address_option(
    given: Option<String>,
    m: Map<Seq<char>, Option<u32>>,
    offset: u32,
    name: Seq<char>,
    default: Option<u32>,
) -> Result<Option<u32>, ErrorView> {
    match given {
        Some(s) => match spec_given_address(s@, offset) {
            Ok(v) => Ok(Some(v)),
            Err(e) => Err(e),
        },
        None => if m.dom().contains(name) {
            match spec_named_address(m, name, name) {
                Ok(v) => Ok(Some(v)),
                Err(e) => Err(e),
            }
        } else {
            Ok(default)
        },
    }
}

/// The memory address to access: a register name from the file (matched in
/// lower case) or an address.
pub open spec fn spec_memory_address(
    given: Option<String>,
    m: Map<Seq<char>, Option<u32>>,
    offset: u32,
) -> Result<Option<u32>, ErrorView> {
    match given {
        None => Ok(None),
        Some(s) => if m.dom().contains(lowercase(s@)) {
            match spec_named_address(m, lowercase(s@), s@) {
                Ok(v) => Ok(Some(v)),
                Err(e) => Err(e),
            }
        } else {
            match spec_given_address(s@, offset) {
                Ok(v) => Ok(Some(v)),
                Err(e) => Err(e),
            }
        },
    }
}

/// The message for GDB without the VexRiscv debug registers.
pub const GDB_WITHOUT_DEBUG: &'static str = "GDB specified but no vexriscv address present in csv file";

/// The message for a terminal without the crossover UART registers.
pub const TERMINAL_WITHOUT_UART: &'static str = "Terminal specified, but no xover uart addresses present in csv file";

/// Whether the crossover UART registers are all named.
pub open spec fn has_xover_uart(m: Map<Seq<char>, Option<u32>>) -> bool {
    m.dom().contains("uart_xover_rxtx"@) && m.dom().contains("uart_xover_rxempty"@)
        && m.dom().contains("uart_xover_ev_pending"@)
}

/// What reading the command line comes to: a configuration, the first
/// error, or a register file row that the tool does not survive.
pub enum ConfigOutcome {
    Built(ConfigView),
    Refused(ErrorView),
    Malformed,
}

/// The configuration that the command line describes, given what it settles
/// before the register file and what reading the file gave, or the first
/// error: the register file and its window, then messible-address,
/// debug-offset and address are read; with no service named, a memory access
/// is run, where an address is given; with a register file, GDB needs the
/// VexRiscv debug registers and a terminal the crossover UART registers.
pub open spec fn spec_finish(a: ArgValues, csv_given: bool, registers: CsrOutcome, p: Preliminary) -> ConfigOutcome {
    match registers {
        CsrOutcome::Refused(e) => ConfigOutcome::Refused(e),
        CsrOutcome::Malformed => ConfigOutcome::Malformed,
        CsrOutcome::Loaded(m, offset) => {
            let messible = spec_address_option(a.messible_address, m, offset, "messible_out"@, None);
            let debug = spec_address_option(a.debug_offset, m, offset, "vexriscv_debug"@, Some(DEFAULT_DEBUG_OFFSET));
            let memory = spec_memory_address(a.address, m, offset);
            if messible is Err {
                ConfigOutcome::Refused(messible->Err_0)
            } else if debug is Err {
                ConfigOutcome::Refused(debug->Err_0)
            } else if memory is Err {
                ConfigOutcome::Refused(memory->Err_0)
            } else if p.server_kind.len() == 0 && memory->Ok_0 is None {
                ConfigOutcome::Refused(ErrorView::NoOperationSpecified)
            } else {
                let kinds = if p.server_kind.len() == 0 { seq![ServerKind::MemoryAccess] } else { p.server_kind };
                if csv_given && kinds.contains(ServerKind::GDB) && !m.dom().contains("vexriscv_debug"@) {
                    ConfigOutcome::Refused(ErrorView::InvalidConfig(GDB_WITHOUT_DEBUG@))
                } else if csv_given && kinds.contains(ServerKind::Terminal) && !has_xover_uart(m) {
                    ConfigOutcome::Refused(ErrorView::InvalidConfig(TERMINAL_WITHOUT_UART@))
                } else {
                    ConfigOutcome::Built(ConfigView {
                        memory_address: memory->Ok_0,
                        memory_value: p.memory_value,
                        server_kind: kinds,
                        bridge: p.bridge,
                        bind_addr: p.bind_addr,
                        bind_port: p.bind_port,
                        gdb_port: p.gdb_port,
                        random_loops: p.random_loops,
                        random_address: p.random_address,
                        random_range: p.random_range,
                        messible_address: messible->Ok_0,
                        register_mapping: m,
                        debug_offset: (debug->Ok_0)->0,
                        load_name: p.load_name,
                        load_addr: p.load_addr,
                        terminal_mouse: a.terminal_mouse || a.windows,
                    })
                }
            }
        },
    }
}

/// The configuration that the command line describes, or the first error.
pub open spec fn spec_config(a: ArgValues) -> ConfigOutcome {
    match spec_preliminary(a) {
        Err(e) => ConfigOutcome::Refused(e),
        Ok(p) => spec_finish(
            a,
            a.csr_csv is Some,
            spec_csr_csv(csv_view(a.csr_csv), text(a.register_offset)),
            p,
        ),
    }
}

/// Whether reading the command line reaches a register file row that the
/// tool does not survive.
pub open spec fn reaches_malformed_rows(a: ArgValues) -> bool {
    spec_config(a) is Malformed
}

/// Whether `res` is the outcome `o`.
pub open spec fn config_result(res: Result<Config, ConfigError>, o: ConfigOutcome) -> bool {
    match o {
        ConfigOutcome::Built(c) => res matches Ok(x) && x@ == c,
        ConfigOutcome::Refused(e) => res matches Err(x) && x@ == e,
        ConfigOutcome::Malformed => false,
    }
}

/// An address option: given on the command line, else the address of the
/// register `name` from the file, else `default`.
fn address_option(
    given: &Option<String>,
    map: &RegisterMap,
    offset: u32,
    name: &str,
    default: Option<u32>,
) -> (res: Result<Option<u32>, ConfigError>)
    ensures
        match spec_address_option(*given, map@, offset, name@, default) {
            Ok(v) => res matches Ok(x) && x == v,
            Err(e) => res matches Err(x) && x@ == e,
        },
{
    if let Some(s) = given {
        match parse_u32_address(s.as_str(), offset)? {
            Some(v) => Ok(Some(v)),
            None => Err(ConfigError::AddressOutOfRange(s.clone())),
        }
    } else if let Some(v) = map.get(name) {
        match v {
            Some(x) => Ok(Some(x)),
            None => Err(ConfigError::AddressOutOfRange(name.to_owned())),
        }
    } else {
        Ok(default)
    }
}

/// The memory address to access: a register name from the file (matched in
/// lower case) or an address.
fn memory_address(given: &Option<String>, map: &RegisterMap, offset: u32) -> (res: Result<Option<u32>, ConfigError>)
    ensures
        match spec_memory_address(*given, map@, offset) {
            Ok(v) => res matches Ok(x) && x == v,
            Err(e) => res matches Err(x) && x@ == e,
        },
{
    if let Some(addr) = given {
        let lower = to_lowercase(addr.as_str());
        if let Some(mapped) = map.get(lower.as_str()) {
            match mapped {
                Some(x) => Ok(Some(x)),
                None => Err(ConfigError::AddressOutOfRange(addr.clone())),
            }
        } else {
            match parse_u32_address(addr.as_str(), offset)? {
                Some(v) => Ok(Some(v)),
                None => Err(ConfigError::AddressOutOfRange(addr.clone())),
            }
        }
    } else {
        Ok(None)
    }
}

/// Whether `kinds` holds `k`.
fn has_kind(kinds: &Vec<ServerKind>, k: ServerKind) -> (res: bool)
    ensures
        res == kinds@.contains(k),
{
    let n = kinds.len();
    let mut i: usize = 0;
    while i < n
        invariant
            n == kinds@.len(),
            i <= n,
            forall|j: int| 0 <= j < i ==> kinds@[j] != k,
        decreases n - i,
    {
        if kinds[i] == k {
            assert(kinds@[i as int] == k);
            return true;
        }
        i = i + 1;
    }
    false
}

/// The option's text as a string slice.
fn opt_str(o: &Option<String>) -> (res: Option<&str>)
    ensures
        opt_view(res) == text(*o),
{
    match o {
        Some(s) => Some(s.as_str()),
        None => None,
    }
}

/// Completes a configuration from what the command line settled and what
/// reading the register file gave.
fn finish(
    a: &ArgValues,
    csv_given: bool,
    s: Settled,
    registers: Result<(RegisterMap, u32), ConfigError>,
    Ghost(outcome): Ghost<CsrOutcome>,
) -> (res: Result<Config, ConfigError>)
    requires
        csr_result(registers, outcome),
    ensures
        config_result(res, spec_finish(*a, csv_given, outcome, s.view())),
{
    let (register_mapping, offset) = registers?;
    let messible_address = address_option(&a.messible_address, &register_mapping, offset, "messible_out", None)?;
    let debug_offset = address_option(&a.debug_offset, &register_mapping, offset, "vexriscv_debug", Some(DEFAULT_DEBUG_OFFSET))?;
    let debug_offset = debug_offset.unwrap();
    let memory_address = memory_address(&a.address, &register_mapping, offset)?;
    let mut server_kind = s.server_kind;
    if server_kind.len() == 0 {
        if memory_address.is_none() {
            return Err(ConfigError::NoOperationSpecified);
        }
        server_kind.push(ServerKind::MemoryAccess);
        assert(server_kind@ =~= seq![ServerKind::MemoryAccess]);
    }
    if csv_given {
        if has_kind(&server_kind, ServerKind::GDB) {
            if !register_mapping.contains_key("vexriscv_debug") {
                return Err(ConfigError::InvalidConfig(GDB_WITHOUT_DEBUG.to_owned()));
            }
        }
        if has_kind(&server_kind, ServerKind::Terminal) {
            if !(register_mapping.contains_key("uart_xover_rxtx") && register_mapping.contains_key("uart_xover_rxempty")
                && register_mapping.contains_key("uart_xover_ev_pending")) {
                return Err(ConfigError::InvalidConfig(TERMINAL_WITHOUT_UART.to_owned()));
            }
        }
    }
    let terminal_mouse = a.terminal_mouse || a.windows;
    Ok(Config {
        memory_address,
        memory_value: s.memory_value,
        server_kind,
        bridge_config: s.bridge_config,
        bind_addr: s.bind_addr,
        bind_port: s.bind_port,
        gdb_port: s.gdb_port,
        random_loops: s.random_loops,
        random_address: s.random_address,
        random_range: s.random_range,
        messible_address,
        register_mapping,
        debug_offset,
        load_name: s.load_name,
        load_addr: s.load_addr,
        terminal_mouse,
    })
}

/// Every configuration the command line yields runs at least one service.
pub proof fn law_config_runs_a_service(a: ArgValues)
    ensures
        spec_config(a) matches ConfigOutcome::Built(c) ==> c.server_kind.len() > 0,
{
}

/// With a register file, a configuration that runs GDB has the VexRiscv
/// debug registers, and one that runs a terminal has the crossover UART.
pub proof fn law_services_have_their_registers(a: ArgValues)
    ensures
        a.csr_csv is Some ==> (spec_config(a) matches ConfigOutcome::Built(c) ==> {
            &&& c.server_kind.contains(ServerKind::GDB) ==> c.register_mapping.dom().contains("vexriscv_debug"@)
            &&& c.server_kind.contains(ServerKind::Terminal) ==> has_xover_uart(c.register_mapping)
        }),
{
}

/// A built configuration is the settled part of the command line,
/// completed: what the register file does not touch is taken over as settled.
proof fn lemma_built_from_settled(a: ArgValues)
    ensures
        spec_config(a) matches ConfigOutcome::Built(c) ==> spec_preliminary(a) matches Ok(p) && {
            &&& c.bridge == p.bridge
            &&& c.gdb_port == p.gdb_port
            &&& c.bind_port == p.bind_port
            &&& c.terminal_mouse == (a.terminal_mouse || a.windows)
        },
{
}

/// A built configuration serves GDB on the port that the gdb-port option
/// gives and Wishbone on the port that the wishbone-port option gives.
pub proof fn law_ports_from_options(a: ArgValues)
    ensures
        spec_config(a) matches ConfigOutcome::Built(c) ==> {
            &&& spec_parse_number(a.gdb_port@, u16::MAX as nat) == Some(c.gdb_port as nat)
            &&& spec_parse_number(a.wishbone_port@, u16::MAX as nat) == Some(c.bind_port as nat)
        },
{
    lemma_built_from_settled(a);
    lemma_number_bound(a.gdb_port@, u16::MAX as nat);
    lemma_number_bound(a.wishbone_port@, u16::MAX as nat);
}

/// Where the Ethernet bridge is selected (a host is given, and neither a PCIe
/// BAR nor SPI pins), it reaches that host on the ethernet-port option's
/// port, over TCP exactly when the ethernet-tcp flag is given and over UDP
/// otherwise.
pub proof fn law_ethernet_bridge(a: ArgValues)
    ensures
        (a.ethernet_host is Some && a.pcie_bar is None && a.spi_pins is None) ==> (spec_config(a) matches ConfigOutcome::Built(c) ==> (
            c.bridge matches BridgeView::EthernetBridge(host, protocol, port) && {
                &&& host == a.ethernet_host->0@
                &&& (protocol == EthernetBridgeProtocol::TCP <==> a.ethernet_tcp)
                &&& (protocol == EthernetBridgeProtocol::UDP <==> !a.ethernet_tcp)
                &&& spec_parse_number(a.ethernet_port@, u16::MAX as nat) == Some(port as nat)
            })),
{
    lemma_built_from_settled(a);
    lemma_number_bound(a.ethernet_port@, u16::MAX as nat);
}

/// Where the serial bridge is selected (a serial port is given, and no
/// Ethernet host, PCIe BAR or SPI pins), its baud rate is the baud option's
/// number when one is given, and 115200 when none is; off Windows the port
/// is named as given.
pub proof fn law_serial_bridge(a: ArgValues)
    ensures
        (a.serial is Some && a.ethernet_host is None && a.pcie_bar is None && a.spi_pins is None) ==> (spec_config(a) matches ConfigOutcome::Built(c) ==> (
            c.bridge matches BridgeView::UartBridge(port, baud) && {
                &&& (!a.windows ==> port == a.serial->0@)
                &&& (a.baud is None ==> baud == 115200)
                &&& (a.baud is Some ==> spec_parse_number(a.baud->0@, u32::MAX as nat) == Some(baud as nat))
            })),
{
    lemma_built_from_settled(a);
    if let Some(b) = a.baud {
        lemma_number_bound(b@, u32::MAX as nat);
    }
}

/// A built configuration captures the mouse in the terminal exactly when the
/// terminal-mouse flag is given or the tool runs on Windows.
pub proof fn law_terminal_mouse(a: ArgValues)
    ensures
        spec_config(a) matches ConfigOutcome::Built(c) ==> {
            &&& (a.terminal_mouse ==> c.terminal_mouse)
            &&& (a.windows ==> c.terminal_mouse)
            &&& (!a.terminal_mouse && !a.windows ==> !c.terminal_mouse)
        },
{
    lemma_built_from_settled(a);
}

/// The command line is refused for naming no operation only where it names
/// no service, loads no file at an address, and gives no address to access.
pub proof fn law_no_operation(a: ArgValues)
    ensures
        spec_config(a) == ConfigOutcome::Refused(ErrorView::NoOperationSpecified) ==> {
            &&& a.address is None
            &&& a.server_kind is None || a.server_kind->0@.len() == 0
            &&& a.load_address is None || a.load_name is Some
        },
{
    lemma_preliminary_errors(a);
    lemma_register_file_errors(csv_view(a.csr_csv), text(a.register_offset));
    if let Some(v) = a.server_kind {
        lemma_kinds_length(texts(v@));
    }
}

/// Reading the options settled before the register file never fails for
/// want of an operation.
proof fn lemma_preliminary_errors(a: ArgValues)
    ensures
        spec_preliminary(a) matches Err(e) ==> !(e is NoOperationSpecified),
{
    if let Some(v) = a.server_kind {
        lemma_kinds_errors(texts(v@));
    }
}

/// Reading service names fails only for an unknown name.
proof fn lemma_kinds_errors(items: Seq<Seq<char>>)
    ensures
        spec_server_kinds(items) matches Err(e) ==> e is UnknownServerKind,
    decreases items.len(),
{
    if items.len() > 0 {
        lemma_kinds_errors(items.drop_last());
    }
}

/// Reading the register file never fails for want of an operation.
proof fn lemma_register_file_errors(rows: Option<Result<Seq<Option<Seq<Seq<char>>>>, std::io::Error>>, offset_str: Option<Seq<char>>)
    ensures
        spec_csr_csv(rows, offset_str) matches CsrOutcome::Refused(e) ==> !(e is NoOperationSpecified),
{
    if let Some(Ok(r)) = rows {
        lemma_fold_errors(r);
    }
}

/// The services read from a list of names are as many as the names.
proof fn lemma_kinds_length(items: Seq<Seq<char>>)
    ensures
        spec_server_kinds(items) matches Ok(ks) ==> ks.len() == items.len(),
    decreases items.len(),
{
    if items.len() > 0 {
        lemma_kinds_length(items.drop_last());
    }
}

impl Config {
    /// The configuration that the command line describes, or the first error
    /// met reading it. Options are read in a fixed order, and the register
    /// file is read once the options that do not depend on it are.
    pub fn parse(matches: ArgValues) -> (res: Result<Config, ConfigError>)
        requires
            !reaches_malformed_rows(matches),
        ensures
            config_result(res, spec_config(matches)),
    {
        let mut matches = matches;
        let s = settle(&matches)?;
        let csv_given = matches.csr_csv.is_some();
        let csv = matches.csr_csv.take();
        let ghost outcome = spec_csr_csv(csv_view(csv), text(matches.register_offset));
        let registers = parse_csr_csv(csv, opt_str(&matches.register_offset));
        finish(&matches, csv_given, s, registers, Ghost(outcome))
    }

    /// As `parse`, but `None` where the register file holds a row that the
    /// tool does not survive (one too short for its kind, or a register run
    /// whose addresses pass `u32::MAX`) and reading the command line reaches it.
    pub fn parse_checked(matches: ArgValues) -> (res: Option<Result<Config, ConfigError>>)
        ensures
            res is None <==> reaches_malformed_rows(matches),
            res matches Some(r) ==> config_result(r, spec_config(matches)),
    {
        let mut matches = matches;
        let s = match settle(&matches) {
            Ok(s) => s,
            Err(e) => return Some(Err(e)),
        };
        let csv_given = matches.csr_csv.is_some();
        let csv = matches.csr_csv.take();
        let ghost outcome = spec_csr_csv(csv_view(csv), text(matches.register_offset));
        let registers = match load_registers(csv, opt_str(&matches.register_offset)) {
            Some(r) => r,
            None => return None,
        };
        Some(finish(&matches, csv_given, s, registers, Ghost(outcome)))
    }
}

} // verus!
