//! The bridges the tool can reach a device through, and the services it can run.

use vstd::prelude::*;
use vstd::string::*;

use crate::error::{ConfigError, ErrorView};
use crate::spi::SpiBridgeConfig;
use crate::text::same_text;

verus! {

/// A USB bridge, optionally narrowed to a vendor, product, bus or device.
#[derive(Clone, Copy, Debug, PartialEq, Eq, Structural)]
pub struct UsbBridgeConfig {
    pub vid: Option<u16>,
    pub pid: Option<u16>,
    pub bus: Option<u8>,
    pub device: Option<u8>,
}

/// A bridge over a serial port.
#[derive(Clone, Debug)]
pub struct UartBridgeConfig {
    pub serial_port: String,
    pub baud: usize,
}

/// The transport of an Ethernet bridge.
#[derive(Clone, Copy, Debug, PartialEq, Eq, Structural)]
pub enum EthernetBridgeProtocol {
    TCP,
    UDP,
}

/// A bridge over Ethernet.
#[derive(Clone, Debug)]
pub struct EthernetBridgeConfig {
    pub host: String,
    pub protocol: EthernetBridgeProtocol,
    pub port: u16,
}

/// A bridge through a PCIe base address register file.
#[derive(Clone, Debug)]
pub struct PCIeBridgeConfig {
    pub path: String,
}

impl PCIeBridgeConfig {
    /// The bridge through the BAR file at `path`.
    pub fn from(path: &str) -> (res: PCIeBridgeConfig)
        ensures
            res.path@ == path@,
    {
        PCIeBridgeConfig { path: path.to_owned() }
    }
}

/// How the tool reaches the device.
#[derive(Clone, Debug)]
pub enum BridgeConfig {
    NoBridge,
    UsbBridge(UsbBridgeConfig),
    UartBridge(UartBridgeConfig),
    EthernetBridge(EthernetBridgeConfig),
    PCIeBridge(PCIeBridgeConfig),
    SpiBridge(SpiBridgeConfig),
}

/// A bridge with its texts as character sequences.
pub enum BridgeView {
    NoBridge,
    UsbBridge(UsbBridgeConfig),
    UartBridge(Seq<char>, usize),
    EthernetBridge(Seq<char>, EthernetBridgeProtocol, u16),
    PCIeBridge(Seq<char>),
    SpiBridge(u8, Option<u8>, u8, Option<u8>),
}

impl View for BridgeConfig {
    type V = BridgeView;

    open spec fn view(&self) -> BridgeView {
        match self {
            BridgeConfig::NoBridge => BridgeView::NoBridge,
            BridgeConfig::UsbBridge(c) => BridgeView::UsbBridge(*c),
            BridgeConfig::UartBridge(c) => BridgeView::UartBridge(c.serial_port@, c.baud),
            BridgeConfig::EthernetBridge(c) => BridgeView::EthernetBridge(c.host@, c.protocol, c.port),
            BridgeConfig::PCIeBridge(c) => BridgeView::PCIeBridge(c.path@),
            BridgeConfig::SpiBridge(c) => BridgeView::SpiBridge(c.copi, c.cipo, c.clk, c.cs),
        }
    }
}

/// A service that the tool runs against the device.
#[derive(Clone, Copy, Debug, PartialEq, Eq, Structural)]
pub enum ServerKind {
    /// Wishbone bridge over the network
    Wishbone,
    /// GDB server
    GDB,
    /// Send random data back and forth
    RandomTest,
    /// Load a file into memory
    LoadFile,
    /// Terminal
    Terminal,
    /// Messible
    Messible,
    /// A single memory read or write
    MemoryAccess,
}

/// The service that a `--server` name selects.
pub open spec fn spec_server_kind(s: Seq<char>) -> Option<ServerKind> {
    if s == "gdb"@ {
        Some(ServerKind::GDB)
    } else if s == "wishbone"@ {
        Some(ServerKind::Wishbone)
    } else if s == "random-test"@ {
        Some(ServerKind::RandomTest)
    } else if s == "load-file"@ {
        Some(ServerKind::LoadFile)
    } else if s == "terminal"@ {
        Some(ServerKind::Terminal)
    } else if s == "messible"@ {
        Some(ServerKind::Messible)
    } else {
        None
    }
}

impl ServerKind {
    /// The service named `item`, or `UnknownServerKind` with the name.
    pub fn from_string(item: &str) -> (res: Result<ServerKind, ConfigError>)
        ensures
            match spec_server_kind(item@) {
                Some(k) => res matches Ok(x) && x == k,
                None => res matches Err(e) && e@ == ErrorView::UnknownServerKind(item@),
            },
    {
        if same_text(item, "gdb") {
            Ok(ServerKind::GDB)
        } else if same_text(item, "wishbone") {
            Ok(ServerKind::Wishbone)
        } else if same_text(item, "random-test") {
            Ok(ServerKind::RandomTest)
        } else if same_text(item, "load-file") {
            Ok(ServerKind::LoadFile)
        } else if same_text(item, "terminal") {
            Ok(ServerKind::Terminal)
        } else if same_text(item, "messible") {
            Ok(ServerKind::Messible)
        } else {
            Err(ConfigError::UnknownServerKind(item.to_owned()))
        }
    }
}

} // verus!
