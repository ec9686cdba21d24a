//! The format of a symbol listing, stated over sequences of characters.
//!
//! A record is an address field, blanks, one character of type, blanks, and
//! a name that runs to the end of the line:
//!
//! ```text
//! ffffffff83532558 D __per_cpu_start
//! ```
//!
//! A listing is one or more records, each followed by a line end. The
//! functions here say, for every text, what the parser owes: the fields and
//! the text left over, or the error. The parser's contracts refer to them.

use vstd::prelude::*;
use crate::error::ParseError;
use crate::hex::{all_hex, hex_value, ADDRESS_WIDTH};
use crate::record::{is_blank, records_of, Record, SymbolMapping, LINE_END};

verus! {

/// The kinds of characters that a run is made of.
#[derive(Debug, Clone, Copy, PartialEq, Eq)]
pub enum CharClass {
    /// A space or a tab.
    Blank,
    /// Any character but the line end.
    InLine,
}

impl CharClass {
    /// Whether `c` belongs to the class.
    pub open spec fn admits(self, c: char) -> bool {
        match self {
            CharClass::Blank => is_blank(c),
            CharClass::InLine => c != LINE_END,
        }
    }

    /// Tests whether `c` belongs to the class.
    pub fn holds(self, c: char) -> (b: bool)
        ensures
            b == self.admits(c),
    {
        match self {
            CharClass::Blank => c == ' ' || c == '\t',
            CharClass::InLine => c != LINE_END,
        }
    }
}

/// The length of the longest prefix of `s` whose characters all belong to
/// `class`.
pub open spec fn run_len(s: Seq<char>, class: CharClass) -> nat
    decreases s.len(),
{
    if s.len() > 0 && class.admits(s[0]) {
        1 + run_len(s.skip(1), class)
    } else {
        0
    }
}

/// What a parser owes for a text: the text left over and the value read, or
/// the error.
pub type Outcome<T> = Result<(Seq<char>, T), ParseError>;

/// The result of a parser as an `Outcome`: the texts and values in it taken
/// by their views.
pub open spec fn outcome_of<T: View>(r: Result<(&str, T), ParseError>) -> Outcome<T::V> {
    match r {
        Ok((rest, value)) => Ok((rest@, value@)),
        Err(e) => Err(e),
    }
}

/// The result of `system_map` as the grammar states it: the records that
/// the mappings stand for, or the error.
pub open spec fn listing_of(r: Result<(&str, Vec<SymbolMapping<'_>>), ParseError>) -> Result<
    Seq<Record>,
    ParseError,
> {
    match r {
        Ok((_, mappings)) => Ok(records_of(mappings@)),
        Err(e) => Err(e),
    }
}

/// The address field: the first 16 characters, which must all be
/// hexadecimal digits.
pub open spec fn address_outcome(s: Seq<char>) -> Outcome<u64> {
    let width: int = ADDRESS_WIDTH as int;
    if s.len() >= width && all_hex(s.take(width)) {
        Ok((s.skip(width), hex_value(s.take(width)) as u64))
    } else {
        Err(ParseError::MalformedAddress)
    }
}

/// A run of one or more characters of `class`, as long as it can be; `error`
/// where `s` begins with none.
pub open spec fn run_outcome(s: Seq<char>, class: CharClass, error: ParseError) -> Outcome<
    Seq<char>,
> {
    let n: int = run_len(s, class) as int;
    if n > 0 {
        Ok((s.skip(n), s.take(n)))
    } else {
        Err(error)
    }
}

/// The blanks between two fields: one or more.
pub open spec fn separator_outcome(s: Seq<char>) -> Outcome<Seq<char>> {
    run_outcome(s, CharClass::Blank, ParseError::MissingSeparator)
}

/// The symbol type: the next character, whatever it is.
pub open spec fn typ_outcome(s: Seq<char>) -> Outcome<char> {
    if s.len() > 0 {
        Ok((s.skip(1), s[0]))
    } else {
        Err(ParseError::UnexpectedEndOfInput)
    }
}

/// The symbol name: all characters up to the line end or the end of the
/// text, at least one.
pub open spec fn symbol_outcome(s: Seq<char>) -> Outcome<Seq<char>> {
    run_outcome(s, CharClass::InLine, ParseError::EmptySymbol)
}

/// The line end that closes a record.
pub open spec fn newline_outcome(s: Seq<char>) -> Outcome<char> {
    if s.len() > 0 && s[0] == LINE_END {
        Ok((s.skip(1), LINE_END))
    } else {
        Err(ParseError::MissingTrailingNewline)
    }
}

/// One record: address, blanks, type, blanks, name. The first field that
/// fails gives the error. The line end is left over.
pub open spec fn record_outcome(s: Seq<char>) -> Outcome<Record> {
    match address_outcome(s) {
        Err(e) => Err(e),
        Ok((s1, address)) => match separator_outcome(s1) {
            Err(e) => Err(e),
            Ok((s2, _)) => match typ_outcome(s2) {
                Err(e) => Err(e),
                Ok((s3, typ)) => match separator_outcome(s3) {
                    Err(e) => Err(e),
                    Ok((s4, _)) => match symbol_outcome(s4) {
                        Err(e) => Err(e),
                        Ok((s5, symbol)) => Ok((s5, Record { address, typ, symbol })),
                    },
                },
            },
        },
    }
}

/// One record and the line end behind it.
pub open spec fn line_outcome(s: Seq<char>) -> Outcome<Record> {
    match record_outcome(s) {
        Err(e) => Err(e),
        Ok((s1, record)) => match newline_outcome(s1) {
            Err(e) => Err(e),
            Ok((s2, _)) => Ok((s2, record)),
        },
    }
}

/// The records `front` followed by those of `more`, where `more` did not
/// fail.
pub open spec fn preceded_by(front: Seq<Record>, more: Result<Seq<Record>, ParseError>) -> Result<
    Seq<Record>,
    ParseError,
> {
    match more {
        Ok(records) => Ok(front + records),
        Err(e) => Err(e),
    }
}

/// The lines behind the first one, to the end of the text. A record
/// without its line end is `MissingTrailingNewline`; text that is no record
/// is `TrailingGarbage`.
pub open spec fn following_outcome(s: Seq<char>) -> Result<Seq<Record>, ParseError>
    decreases s.len(),
    via following_outcome_decreases
{
    if s.len() == 0 {
        Ok(Seq::empty())
    } else {
        match record_outcome(s) {
            Err(_) => Err(ParseError::TrailingGarbage),
            Ok((s1, record)) => match newline_outcome(s1) {
                Err(e) => Err(e),
                Ok((s2, _)) => preceded_by(seq![record], following_outcome(s2)),
            },
        }
    }
}

/// A whole listing: one or more lines and nothing else. A text that does
/// not begin with a record, the empty text among them, is `EmptyFile`.
pub open spec fn file_outcome(s: Seq<char>) -> Result<Seq<Record>, ParseError> {
    match record_outcome(s) {
        Err(_) => Err(ParseError::EmptyFile),
        Ok((s1, record)) => match newline_outcome(s1) {
            Err(e) => Err(e),
            Ok((s2, _)) => preceded_by(seq![record], following_outcome(s2)),
        },
    }
}

/// A run is no longer than the text, holds only characters of its class,
/// and ends where the text ends or at a character outside the class.
pub proof fn lemma_run_len(s: Seq<char>, class: CharClass)
    ensures
        run_len(s, class) <= s.len(),
        forall|i: int| 0 <= i < run_len(s, class) ==> class.admits(#[trigger] s[i]),
        run_len(s, class) < s.len() ==> !class.admits(s[run_len(s, class) as int]),
    decreases s.len(),
{
    if s.len() > 0 && class.admits(s[0]) {
        let tail = s.skip(1);
        lemma_run_len(tail, class);
        assert forall|i: int| 0 <= i < run_len(s, class) implies class.admits(#[trigger] s[i]) by {
            if i > 0 {
                assert(s[i] == tail[i - 1]);
            }
        }
        if run_len(s, class) < s.len() {
            assert(s[run_len(s, class) as int] == tail[run_len(tail, class) as int]);
        }
    }
}

/// The converse of `lemma_run_len`: a prefix of `n` characters of the
/// class, at the end of the text or in front of a character outside the
/// class, is the run.
pub proof fn lemma_run_len_is(s: Seq<char>, class: CharClass, n: nat)
    requires
        n <= s.len(),
        forall|i: int| 0 <= i < n ==> class.admits(#[trigger] s[i]),
        n < s.len() ==> !class.admits(s[n as int]),
    ensures
        run_len(s, class) == n,
    decreases n,
{
    if n > 0 {
        let tail = s.skip(1);
        assert(class.admits(s[0]));
        assert forall|i: int| 0 <= i < n - 1 implies class.admits(#[trigger] tail[i]) by {
            assert(tail[i] == s[i + 1]);
        }
        if n < s.len() {
            assert(tail[n - 1] == s[n as int]);
        }
        lemma_run_len_is(tail, class, (n - 1) as nat);
    }
}

/// A record takes at least its address field from the text, and what it
/// leaves is the end of the text.
pub proof fn lemma_record_consumes(s: Seq<char>)
    ensures
        record_outcome(s) matches Ok((rest, _)) ==> rest.len() + ADDRESS_WIDTH < s.len() && rest
            == s.skip(s.len() - rest.len()),
{
    if record_outcome(s) is Ok {
        let s1 = s.skip(ADDRESS_WIDTH as int);
        lemma_run_len(s1, CharClass::Blank);
        let s2 = s1.skip(run_len(s1, CharClass::Blank) as int);
        let s3 = s2.skip(1);
        lemma_run_len(s3, CharClass::Blank);
        let s4 = s3.skip(run_len(s3, CharClass::Blank) as int);
        lemma_run_len(s4, CharClass::InLine);
        let s5 = s4.skip(run_len(s4, CharClass::InLine) as int);
        assert(s5 == s.skip(s.len() - s5.len()));
    }
}

#[via_fn]
proof fn following_outcome_decreases(s: Seq<char>) {
    lemma_record_consumes(s);
}

} // verus!
