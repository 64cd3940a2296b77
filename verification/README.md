# wishbone_tool

Configuration parsing for the wishbone debug tool, written in Verus.

- `src/number.rs`: numbers with radix prefixes (`0x`, `0b`, leading `0`), and
  addresses relative to a register window.
- `src/spi.rs`: SPI pin specifications.
- `src/registers.rs`: the register map read from a LiteX `csr.csv` file.
- `src/bridge.rs`: bridge configurations and the services the tool can run.
- `src/config.rs`: the run configuration assembled from command-line values.
- `src/text.rs`, `src/error.rs`: text helpers and the error type.
- `app/lib.rs`: reads clap's matches and the register file, and calls the library.

The public functions of `src/` carry contracts that Verus proves, over
mathematical models of their inputs and results; the few calls into std and
the `csv` crate stand behind small trusted wrappers whose doc comments say
what is assumed of them.
