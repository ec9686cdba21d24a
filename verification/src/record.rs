//! One entry of a symbol listing.

use vstd::prelude::*;

verus! {

/// One parsed line: where a symbol lies, what kind it is, and its name.
///
/// The name borrows from the text that was parsed; nothing is copied.
#[derive(Debug, Clone, Copy, PartialEq, Eq)]
pub struct SymbolMapping<'a> {
    /// The address of the symbol.
    pub address: u64,
    /// The one-character code of the symbol's kind. Its meaning is left to
    /// the reader of the listing.
    pub typ: char,
    /// The name of the symbol.
    pub symbol: &'a str,
}

/// What a `SymbolMapping` stands for, with its name as a sequence of
/// characters.
pub struct Record {
    pub address: u64,
    pub typ: char,
    pub symbol: Seq<char>,
}

impl<'a> View for SymbolMapping<'a> {
    type V = Record;

    open spec fn view(&self) -> Record {
        Record { address: self.address, typ: self.typ, symbol: self.symbol@ }
    }
}

/// Whether `c` separates fields: a space or a tab.
pub open spec fn is_blank(c: char) -> bool {
    c == ' ' || c == '\t'
}

/// The character that ends a line.
pub const LINE_END: char = '\n';

impl Record {
    /// What holds of every record that a line was parsed into: its type is
    /// no blank, and its name is not empty, begins with no blank and spans
    /// no line end.
    pub open spec fn well_formed(self) -> bool {
        &&& !is_blank(self.typ)
        &&& self.symbol.len() > 0
        &&& !is_blank(self.symbol[0])
        &&& forall|i: int| 0 <= i < self.symbol.len() ==> #[trigger] self.symbol[i] != LINE_END
    }
}

/// The records that a vector of mappings stands for, in order.
pub open spec fn records_of(mappings: Seq<SymbolMapping<'_>>) -> Seq<Record> {
    Seq::new(mappings.len(), |i: int| mappings[i]@)
}

} // verus!
