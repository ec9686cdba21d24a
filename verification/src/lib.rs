//! Parser for kernel symbol-table listings in the `System.map` format.
//!
//! Every line of such a listing holds a 16-digit hexadecimal address, a
//! one-character symbol type and a symbol name, separated by blanks.

pub mod error;
pub mod grammar;
pub mod hex;
pub mod laws;
pub mod parser;
pub mod record;
pub mod text;

pub use error::ParseError;
pub use hex::address_from_hex;
pub use parser::{address, newline, separator, symbol, symbol_mapping, system_map, typ};
pub use record::SymbolMapping;
