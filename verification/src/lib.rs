//! Configuration parsing for the wishbone debug tool: numbers written with
//! radix prefixes, SPI pin specifications, LiteX `csr.csv` register maps and
//! the assembly of a complete run configuration from command-line values.

pub mod number;
pub mod error;
pub mod text;
pub mod spi;
pub mod registers;
pub mod bridge;
pub mod config;
