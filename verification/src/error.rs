//! The errors of configuration parsing.

use vstd::prelude::*;

verus! {

/// std's I/O error, carried from reading a register file.
#[verifier::external_type_specification]
#[verifier::external_body]
pub struct ExIoError(std::io::Error);

/// Why a number did not parse, as std's `from_str_radix` reports it for an
/// unsigned type.
#[derive(Clone, Copy, Debug, PartialEq, Eq, Structural)]
pub enum IntErrorKind {
    /// There are no digits at all.
    Empty,
    /// A character is not a digit of the radix (a lone sign counts as one).
    InvalidDigit,
    /// The number is too large for the type.
    PosOverflow,
}

#[derive(Debug)]
pub enum ConfigError {
    /// Couldn't parse string as number
    NumberParseError(String, IntErrorKind),
    /// Specified a bridge kind that we didn't recognize
    UnknownServerKind(String),
    /// Specified SPI pinspec was invalid
    SpiParseError(String),
    /// No operation was specified
    NoOperationSpecified,
    /// Generic IO Error
    IoError(std::io::Error),
    /// The configuration doesn't make sense
    InvalidConfig(String),
    /// The specified address is outside of legal memory
    AddressOutOfRange(String),
}

/// A `ConfigError` with its texts as character sequences.
pub enum ErrorView {
    NumberParse(Seq<char>, IntErrorKind),
    UnknownServerKind(Seq<char>),
    SpiParse(Seq<char>),
    NoOperationSpecified,
    Io(std::io::Error),
    InvalidConfig(Seq<char>),
    AddressOutOfRange(Seq<char>),
}

impl View for ConfigError {
    type V = ErrorView;

    open spec fn view(&self) -> ErrorView {
        match self {
            ConfigError::NumberParseError(s, k) => ErrorView::NumberParse(s@, *k),
            ConfigError::UnknownServerKind(s) => ErrorView::UnknownServerKind(s@),
            ConfigError::SpiParseError(s) => ErrorView::SpiParse(s@),
            ConfigError::NoOperationSpecified => ErrorView::NoOperationSpecified,
            ConfigError::IoError(e) => ErrorView::Io(*e),
            ConfigError::InvalidConfig(s) => ErrorView::InvalidConfig(s@),
            ConfigError::AddressOutOfRange(s) => ErrorView::AddressOutOfRange(s@),
        }
    }
}

impl From<std::io::Error> for ConfigError {
    fn from(e: std::io::Error) -> (res: ConfigError)
        ensures
            res == ConfigError::IoError(e),
    {
        ConfigError::IoError(e)
    }
}

impl vstd::std_specs::convert::FromSpecImpl<std::io::Error> for ConfigError {
    open spec fn obeys_from_spec() -> bool {
        true
    }

    open spec fn from_spec(e: std::io::Error) -> ConfigError {
        ConfigError::IoError(e)
    }
}

} // verus!
