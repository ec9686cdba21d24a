//! The ways in which a text can fail to be a symbol listing.

use vstd::prelude::*;

verus! {

/// Why a text was refused. Every failure ends the parse: nothing is skipped
/// and no partial result is handed out.
#[derive(Debug, Clone, Copy, PartialEq, Eq, Structural)]
pub enum ParseError {
    /// The address field is not made of 16 hexadecimal digits.
    MalformedAddress,
    /// No space or tab stands where two fields must be separated.
    MissingSeparator,
    /// The text ends where the symbol type is expected.
    UnexpectedEndOfInput,
    /// The symbol name has no characters.
    EmptySymbol,
    /// The text does not begin with a record.
    EmptyFile,
    /// The text ends behind a record, without a line terminator.
    MissingTrailingNewline,
    /// Behind the last complete line stands text that is no record.
    TrailingGarbage,
}

} // verus!
