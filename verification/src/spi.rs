//! SPI bridge pin specifications: `COPI,CLK`, `COPI,CLK,CS` or `COPI,CIPO,CLK,CS`.

use vstd::prelude::*;
use vstd::string::*;

use crate::error::{ConfigError, ErrorView};
use crate::number::{number_error, parse_u32, spec_parse_number};
use crate::text::{spec_split, split_on, views, lemma_split_nonempty};

verus! {

/// The explanation appended to a pin specification that has the wrong number of pins.
pub const PIN_SPEC_USAGE: &'static str = " is not a valid pin spec -- must be COPI,CIPO,CLK,CS (e.g. \"2,3,4,18\")";

/// The pins of an SPI bridge.
#[derive(Clone, Debug)]
pub struct SpiBridgeConfig {
    pub copi: u8,
    pub cipo: Option<u8>,
    pub clk: u8,
    pub cs: Option<u8>,
}

/// A pin number: a 32-bit number with an optional radix prefix, of which the
/// low eight bits are kept.
pub open spec fn pin_value(p: Seq<char>) -> Option<u8> {
    match spec_parse_number(p, u32::MAX as nat) {
        Some(n) => Some(n as u8),
        None => None,
    }
}

/// The error for the pin text `p` that is no number.
pub open spec fn pin_error(p: Seq<char>) -> ErrorView {
    number_error(p, u32::MAX as nat)
}

/// The configuration that a pin specification describes, or the error for it:
/// two, three or four comma-separated pins are read in order, and the first
/// that is no number is reported.
pub open spec fn spec_spi_from_string(s: Seq<char>) -> Result<SpiBridgeConfig, ErrorView> {
    let parts = spec_split(s, ',');
    if parts.len() < 2 || parts.len() > 4 {
        Err(ErrorView::SpiParse(s + PIN_SPEC_USAGE@))
    } else if pin_value(parts[0]) is None {
        Err(pin_error(parts[0]))
    } else if pin_value(parts[1]) is None {
        Err(pin_error(parts[1]))
    } else if parts.len() >= 3 && pin_value(parts[2]) is None {
        Err(pin_error(parts[2]))
    } else if parts.len() == 4 && pin_value(parts[3]) is None {
        Err(pin_error(parts[3]))
    } else if parts.len() == 2 {
        Ok(SpiBridgeConfig { copi: pin_value(parts[0])->0, cipo: None, clk: pin_value(parts[1])->0, cs: None })
    } else if parts.len() == 3 {
        Ok(SpiBridgeConfig {
            copi: pin_value(parts[0])->0,
            cipo: None,
            clk: pin_value(parts[1])->0,
            cs: Some(pin_value(parts[2])->0),
        })
    } else {
        Ok(SpiBridgeConfig {
            copi: pin_value(parts[0])->0,
            cipo: Some(pin_value(parts[1])->0),
            clk: pin_value(parts[2])->0,
            cs: Some(pin_value(parts[3])->0),
        })
    }
}

/// The message for a pin specification that cannot be used.
pub fn invalid_pin_spec(spec: &str) -> (res: String)
    ensures
        res@ == spec@ + PIN_SPEC_USAGE@,
{
    let mut message = spec.to_owned();
    message.append(PIN_SPEC_USAGE);
    message
}

/// One pin of a specification.
fn parse_pin(p: &str) -> (res: Result<u8, ConfigError>)
    ensures
        match res {
            Ok(v) => pin_value(p@) == Some(v),
            Err(e) => pin_value(p@) is None && e@ == pin_error(p@),
        },
{
    let v = parse_u32(p)?;
    Ok(v as u8)
}

/// A pin specification is accepted only with two, three or four pins; the
/// chip select is there with three or four pins, and CIPO with four.
pub proof fn law_pin_count(s: Seq<char>)
    ensures
        ({
            let k = spec_split(s, ',').len();
            &&& (k < 2 || k > 4) ==> spec_spi_from_string(s) == Err::<SpiBridgeConfig, ErrorView>(
                ErrorView::SpiParse(s + PIN_SPEC_USAGE@),
            )
            &&& spec_spi_from_string(s) matches Ok(c) ==> {
                &&& 2 <= k <= 4
                &&& (c.cs is Some <==> k >= 3)
                &&& (c.cipo is Some <==> k == 4)
            }
        }),
{
}

impl SpiBridgeConfig {
    /// Reads a pin specification: `COPI,CLK`, `COPI,CLK,CS` or
    /// `COPI,CIPO,CLK,CS`, each pin a number with an optional radix prefix.
    pub fn from_string(spec: &str) -> (res: Result<Self, ConfigError>)
        ensures
            match res {
                Ok(c) => spec_spi_from_string(spec@) == Ok::<SpiBridgeConfig, ErrorView>(c),
                Err(e) => spec_spi_from_string(spec@) == Err::<SpiBridgeConfig, ErrorView>(e@),
            },
    {
        let chars: Vec<&str> = split_on(spec, ',');
        proof {
            lemma_split_nonempty(spec@, ',');
            assert(views(chars@).len() == chars@.len());
            assert forall|i: int| 0 <= i < chars@.len() implies chars@[i]@ == #[trigger] spec_split(spec@, ',')[i] by {
                assert(views(chars@)[i] == chars@[i]@);
            }
        }
        let (copi, cipo, clk, cs) = match chars.len() {
            2 => {
                (parse_pin(chars[0])?, None, parse_pin(chars[1])?, None)
            },
            3 => {
                (parse_pin(chars[0])?, None, parse_pin(chars[1])?, Some(parse_pin(chars[2])?))
            },
            4 => {
                (
                    parse_pin(chars[0])?,
                    Some(parse_pin(chars[1])?),
                    parse_pin(chars[2])?,
                    Some(parse_pin(chars[3])?),
                )
            },
            _ => {
                return Err(ConfigError::SpiParseError(invalid_pin_spec(spec)));
            },
        };
        Ok(SpiBridgeConfig { copi, cipo, clk, cs })
    }
}

} // verus!
