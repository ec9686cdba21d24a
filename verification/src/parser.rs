//! The parser: one function for each field, one for a record and one for a
//! whole listing.
//!
//! Every function takes the text to read and hands back what is left of it
//! together with what it read. Names are slices of the text that was
//! handed in. Each function does exactly what the grammar states for its
//! part of the format.

use vstd::prelude::*;
use crate::error::ParseError;
use crate::grammar::{
    address_outcome, file_outcome, following_outcome, lemma_record_consumes, listing_of,
    newline_outcome, outcome_of, preceded_by, record_outcome, run_len, run_outcome,
    separator_outcome, symbol_outcome, typ_outcome, CharClass,
};
use crate::hex::{address_from_hex, ADDRESS_WIDTH};
use crate::laws::law_record_well_formed;
use crate::record::{records_of, Record, SymbolMapping, LINE_END};
use crate::text::{prefix_before, split_first, take_chars};

verus! {

/// The longest run of characters of `class` that `input` begins with, or
/// `error` where it begins with none.
fn run<'a>(input: &'a str, class: CharClass, error: ParseError) -> (r: Result<
    (&'a str, &'a str),
    ParseError,
>)
    ensures
        outcome_of(r) == run_outcome(input@, class, error),
{
    let mut rest = input;
    let ghost mut seen: nat = 0;
    loop
        invariant
            seen <= input@.len(),
            rest@ == input@.skip(seen as int),
            run_len(input@, class) == seen + run_len(rest@, class),
        ensures
            seen <= input@.len(),
            rest@ == input@.skip(seen as int),
            run_len(input@, class) == seen,
        decreases rest@.len(),
    {
        match split_first(rest) {
            None => {
                break ;
            },
            Some((c, tail)) => {
                if !class.holds(c) {
                    break ;
                }
                proof {
                    assert(tail@ == input@.skip(seen as int + 1));
                    seen = seen + 1;
                }
                rest = tail;
            },
        }
    }
    let matched = prefix_before(input, rest);
    if matched.is_empty() {
        Err(error)
    } else {
        Ok((rest, matched))
    }
}

/// Reads the address field: 16 hexadecimal digits, in either case.
///
/// Fails with `MalformedAddress` where `input` has fewer than 16 characters
/// or one of the first 16 is no hexadecimal digit.
pub fn address<'a>(input: &'a str) -> (r: Result<(&'a str, u64), ParseError>)
    ensures
        outcome_of(r) == address_outcome(input@),
{
    match take_chars(input, ADDRESS_WIDTH) {
        None => Err(ParseError::MalformedAddress),
        Some((field, rest)) => match address_from_hex(field) {
            Ok(value) => Ok((rest, value)),
            Err(e) => Err(e),
        },
    }
}

/// Reads the blanks between two fields: as many spaces and tabs as stand
/// there.
///
/// Fails with `MissingSeparator` where `input` begins with neither.
pub fn separator<'a>(input: &'a str) -> (r: Result<(&'a str, &'a str), ParseError>)
    ensures
        outcome_of(r) == separator_outcome(input@),
{
    run(input, CharClass::Blank, ParseError::MissingSeparator)
}

/// Reads the symbol type: one character, whatever it is.
///
/// Fails with `UnexpectedEndOfInput` where `input` is empty.
pub fn typ<'a>(input: &'a str) -> (r: Result<(&'a str, char), ParseError>)
    ensures
        outcome_of(r) == typ_outcome(input@),
{
    match split_first(input) {
        None => Err(ParseError::UnexpectedEndOfInput),
        Some((c, rest)) => Ok((rest, c)),
    }
}

/// Reads the symbol name: everything up to the line end, or up to the end
/// of `input` where there is none.
///
/// Fails with `EmptySymbol` where that is nothing.
pub fn symbol<'a>(input: &'a str) -> (r: Result<(&'a str, &'a str), ParseError>)
    ensures
        outcome_of(r) == symbol_outcome(input@),
{
    run(input, CharClass::InLine, ParseError::EmptySymbol)
}

/// Reads the line end that closes a record.
///
/// Fails with `MissingTrailingNewline` where `input` does not begin with it.
pub fn newline<'a>(input: &'a str) -> (r: Result<(&'a str, char), ParseError>)
    ensures
        outcome_of(r) == newline_outcome(input@),
{
    match split_first(input) {
        Some((c, rest)) if c == LINE_END => Ok((rest, c)),
        _ => Err(ParseError::MissingTrailingNewline),
    }
}

/// Parses a single entry of a listing: address, blanks, type, blanks, name.
///
/// The line end behind the name is not read: it is the first character of
/// the text handed back, unless the name runs to the end of `input`. The
/// first field that cannot be read gives the error.
pub fn symbol_mapping<'a>(input: &'a str) -> (r: Result<(&'a str, SymbolMapping<'a>), ParseError>)
    ensures
        outcome_of(r) == record_outcome(input@),
        r matches Ok((_, mapping)) ==> mapping@.well_formed(),
{
    proof {
        law_record_well_formed(input@);
    }
    let (input, address) = match address(input) {
        Ok(read) => read,
        Err(e) => {
            return Err(e);
        },
    };
    let (input, _) = match separator(input) {
        Ok(read) => read,
        Err(e) => {
            return Err(e);
        },
    };
    let (input, typ) = match typ(input) {
        Ok(read) => read,
        Err(e) => {
            return Err(e);
        },
    };
    let (input, _) = match separator(input) {
        Ok(read) => read,
        Err(e) => {
            return Err(e);
        },
    };
    let (input, symbol) = match symbol(input) {
        Ok(read) => read,
        Err(e) => {
            return Err(e);
        },
    };
    Ok((input, SymbolMapping { address, typ, symbol }))
}

/// Parses a complete listing: one or more entries, each closed by a line
/// end, and nothing else.
///
/// The entries come in the order of their lines. On success all of `input`
/// was read, so the text handed back is empty. A text that does not begin
/// with an entry fails with `EmptyFile`; an entry with no line end behind it
/// fails with `MissingTrailingNewline`; text behind a complete line that is
/// no entry fails with `TrailingGarbage`. No entries are handed out on
/// failure.
pub fn system_map<'a>(input: &'a str) -> (r: Result<
    (&'a str, Vec<SymbolMapping<'a>>),
    ParseError,
>)
    ensures
        listing_of(r) == file_outcome(input@),
        r matches Ok((rest, _)) ==> rest@.len() == 0,
        r matches Ok((_, mappings)) ==> forall|i: int|
            0 <= i < mappings@.len() ==> (#[trigger] mappings@[i])@.well_formed(),
{
    let (after, first) = match symbol_mapping(input) {
        Ok(read) => read,
        Err(_) => {
            return Err(ParseError::EmptyFile);
        },
    };
    let mut rest = match newline(after) {
        Ok((rest, _)) => rest,
        Err(e) => {
            return Err(e);
        },
    };
    let mut mappings: Vec<SymbolMapping<'a>> = Vec::new();
    mappings.push(first);
    assert(records_of(mappings@) == seq![first@]);
    loop
        invariant
            file_outcome(input@) == preceded_by(records_of(mappings@), following_outcome(rest@)),
            forall|i: int| 0 <= i < mappings@.len() ==> (#[trigger] mappings@[i])@.well_formed(),
        decreases rest@.len(),
    {
        if rest.is_empty() {
            assert(records_of(mappings@) + Seq::<Record>::empty() == records_of(mappings@));
            return Ok((rest, mappings));
        }
        let (after, mapping) = match symbol_mapping(rest) {
            Ok(read) => read,
            Err(_) => {
                return Err(ParseError::TrailingGarbage);
            },
        };
        let next = match newline(after) {
            Ok((next, _)) => next,
            Err(e) => {
                return Err(e);
            },
        };
        proof {
            lemma_record_consumes(rest@);
            let before = records_of(mappings@);
            let after_push = records_of(mappings@.push(mapping));
            assert(after_push == before + seq![mapping@]);
            match following_outcome(next@) {
                Ok(more) => {
                    assert(before + (seq![mapping@] + more) == after_push + more);
                },
                Err(_) => {},
            }
        }
        mappings.push(mapping);
        rest = next;
    }
}

} // verus!
