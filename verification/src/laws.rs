//! What holds of the format as a whole.
//!
//! The grammar says field by field what the parser does. The proofs here
//! say what that comes to: which texts are records, that a record written
//! out is read back unchanged, that lines put together give their records
//! in order, and what happens at the edges.

use vstd::prelude::*;
use crate::error::ParseError;
use crate::grammar::{
    address_outcome, file_outcome, following_outcome, lemma_record_consumes, lemma_run_len,
    lemma_run_len_is, line_outcome, listing_of, newline_outcome, record_outcome, run_len,
    CharClass,
};
use crate::hex::{
    all_hex, hex_field, hex_value, is_address_field, is_hex_digit, lemma_address_fits,
    lemma_hex_field, ADDRESS_WIDTH,
};
use crate::record::{is_blank, records_of, Record, SymbolMapping, LINE_END};

verus! {

/// Whether `gap` can stand between two fields: one or more blanks.
pub open spec fn is_gap(gap: Seq<char>) -> bool {
    gap.len() > 0 && forall|i: int| 0 <= i < gap.len() ==> is_blank(#[trigger] gap[i])
}

/// Whether a name can end in front of `tail`: at the end of the text or at
/// a line end.
pub open spec fn ends_record(tail: Seq<char>) -> bool {
    tail.len() == 0 || tail[0] == LINE_END
}

/// The text of a record: its five parts one behind the other.
pub open spec fn record_text(field: Seq<char>, gap1: Seq<char>, gap2: Seq<char>, record: Record) -> Seq<
    char,
> {
    field + gap1 + seq![record.typ] + gap2 + record.symbol
}

/// The line that is written for a record: the address as 16 lower-case
/// digits, the type and the name, with single spaces between them and a line
/// end behind.
pub open spec fn canonical_line(record: Record) -> Seq<char> {
    record_text(hex_field(record.address), seq![' '], seq![' '], record) + seq![LINE_END]
}

/// Whether `line` is the whole text of one line that holds `record`.
pub open spec fn is_line_of(line: Seq<char>, record: Record) -> bool {
    line_outcome(line) == Ok::<(Seq<char>, Record), ParseError>((Seq::empty(), record))
}

/// A run in front of a text that does not continue it is found whole.
proof fn lemma_run_of_concat(a: Seq<char>, b: Seq<char>, class: CharClass)
    requires
        forall|i: int| 0 <= i < a.len() ==> class.admits(#[trigger] a[i]),
        b.len() == 0 || !class.admits(b[0]),
    ensures
        run_len(a + b, class) == a.len(),
        (a + b).take(a.len() as int) == a,
        (a + b).skip(a.len() as int) == b,
{
    let s = a + b;
    assert forall|i: int| 0 <= i < a.len() implies class.admits(#[trigger] s[i]) by {
        assert(s[i] == a[i]);
    }
    if a.len() < s.len() {
        assert(s[a.len() as int] == b[0]);
    }
    lemma_run_len_is(s, class, a.len());
    assert(s.take(a.len() as int) =~= a);
    assert(s.skip(a.len() as int) =~= b);
}

/// Every text made of an address field, a gap, a type that is no blank, a
/// gap and a name is read as the record of those parts, up to where the
/// name ends.
pub proof fn law_record_of_parts(
    field: Seq<char>,
    gap1: Seq<char>,
    gap2: Seq<char>,
    record: Record,
    tail: Seq<char>,
)
    requires
        is_address_field(field),
        hex_value(field) == record.address,
        is_gap(gap1),
        is_gap(gap2),
        record.well_formed(),
        ends_record(tail),
    ensures
        record_outcome(record_text(field, gap1, gap2, record) + tail) == Ok::<
            (Seq<char>, Record),
            ParseError,
        >((tail, record)),
{
    let width: int = ADDRESS_WIDTH as int;
    let s4 = record.symbol + tail;
    let s3 = gap2 + s4;
    let s2 = seq![record.typ] + s3;
    let s1 = gap1 + s2;
    let s = field + s1;
    assert(record_text(field, gap1, gap2, record) + tail =~= s);
    assert(s.take(width) =~= field);
    assert(s.skip(width) =~= s1);
    lemma_address_fits(field);
    assert(address_outcome(s) == Ok::<(Seq<char>, u64), ParseError>((s1, record.address)));
    assert(s2[0] == record.typ);
    lemma_run_of_concat(gap1, s2, CharClass::Blank);
    assert(s2.skip(1) =~= s3);
    assert(s4[0] == record.symbol[0]);
    assert(s3[gap2.len() as int] == s4[0]);
    lemma_run_of_concat(gap2, s4, CharClass::Blank);
    lemma_run_of_concat(record.symbol, tail, CharClass::InLine);
}

/// The converse: every text that is read as a record is made of an address
/// field that denotes the record's address, a gap, the type, a gap and the
/// name, and the name ends at a line end or with the text. The record is
/// well formed.
pub proof fn law_parts_of_record(s: Seq<char>) -> (parts: (Seq<char>, Seq<char>, Seq<char>))
    requires
        record_outcome(s) is Ok,
    ensures
        ({
            let (field, gap1, gap2) = parts;
            &&& record_outcome(s) matches Ok((rest, record))
            &&& s == record_text(field, gap1, gap2, record) + rest
            &&& is_address_field(field)
            &&& hex_value(field) == record.address
            &&& is_gap(gap1)
            &&& is_gap(gap2)
            &&& record.well_formed()
            &&& ends_record(rest)
        }),
{
    let width: int = ADDRESS_WIDTH as int;
    let field = s.take(width);
    let s1 = s.skip(width);
    lemma_address_fits(field);
    lemma_run_len(s1, CharClass::Blank);
    let n1: int = run_len(s1, CharClass::Blank) as int;
    let gap1 = s1.take(n1);
    let s2 = s1.skip(n1);
    let s3 = s2.skip(1);
    lemma_run_len(s3, CharClass::Blank);
    let n2: int = run_len(s3, CharClass::Blank) as int;
    let gap2 = s3.take(n2);
    let s4 = s3.skip(n2);
    lemma_run_len(s4, CharClass::InLine);
    let n3: int = run_len(s4, CharClass::InLine) as int;
    let symbol = s4.take(n3);
    let rest = s4.skip(n3);
    let record = Record { address: hex_value(field) as u64, typ: s2[0], symbol };
    assert(record_outcome(s) == Ok::<(Seq<char>, Record), ParseError>((rest, record)));
    assert(s =~= record_text(field, gap1, gap2, record) + rest);
    assert(s2[0] == s1[n1]);
    assert(symbol[0] == s3[n2]);
    assert forall|i: int| 0 <= i < symbol.len() implies #[trigger] symbol[i] != LINE_END by {
        assert(symbol[i] == s4[i]);
    }
    if rest.len() > 0 {
        assert(rest[0] == s4[n3]);
    }
    (field, gap1, gap2)
}

/// Every record that the parser hands out is well formed, and what it
/// leaves is empty or begins with a line end.
pub proof fn law_record_well_formed(s: Seq<char>)
    ensures
        record_outcome(s) matches Ok((rest, record)) ==> record.well_formed() && ends_record(rest),
{
    if record_outcome(s) is Ok {
        law_parts_of_record(s);
    }
}

/// The first 16 characters alone decide the address: hexadecimal digits
/// give their value in base 16, whatever follows them.
pub proof fn law_address_of_field(field: Seq<char>, tail: Seq<char>)
    requires
        is_address_field(field),
    ensures
        hex_value(field) <= u64::MAX,
        address_outcome(field + tail) == Ok::<(Seq<char>, u64), ParseError>(
            (tail, hex_value(field) as u64),
        ),
{
    let width: int = ADDRESS_WIDTH as int;
    lemma_address_fits(field);
    assert((field + tail).take(width) =~= field);
    assert((field + tail).skip(width) =~= tail);
}

/// A character among the first 16 that is no hexadecimal digit makes the
/// address malformed, and with it the record.
pub proof fn law_address_refuses(s: Seq<char>, i: int)
    requires
        0 <= i < ADDRESS_WIDTH,
        i < s.len(),
        !is_hex_digit(s[i]),
    ensures
        address_outcome(s) == Err::<(Seq<char>, u64), ParseError>(ParseError::MalformedAddress),
        record_outcome(s) == Err::<(Seq<char>, Record), ParseError>(ParseError::MalformedAddress),
{
    if s.len() >= ADDRESS_WIDTH {
        assert(s.take(ADDRESS_WIDTH as int)[i] == s[i]);
    }
}

/// A text of fewer than 16 characters has no address.
pub proof fn law_address_needs_width(s: Seq<char>)
    requires
        s.len() < ADDRESS_WIDTH,
    ensures
        address_outcome(s) == Err::<(Seq<char>, u64), ParseError>(ParseError::MalformedAddress),
        record_outcome(s) == Err::<(Seq<char>, Record), ParseError>(ParseError::MalformedAddress),
{
}

/// An address field with no blank behind it fails for want of a separator.
pub proof fn law_separator_required(s: Seq<char>)
    requires
        s.len() >= ADDRESS_WIDTH,
        all_hex(s.take(ADDRESS_WIDTH as int)),
        s.len() == ADDRESS_WIDTH || !is_blank(s[ADDRESS_WIDTH as int]),
    ensures
        record_outcome(s) == Err::<(Seq<char>, Record), ParseError>(ParseError::MissingSeparator),
{
    let s1 = s.skip(ADDRESS_WIDTH as int);
    if s1.len() > 0 {
        assert(s1[0] == s[ADDRESS_WIDTH as int]);
    }
}

/// Round trip: the line written for a well-formed record is read back as
/// that record, alone in its listing.
pub proof fn law_canonical_line(record: Record)
    requires
        record.well_formed(),
    ensures
        is_line_of(canonical_line(record), record),
        file_outcome(canonical_line(record)) == Ok::<Seq<Record>, ParseError>(seq![record]),
{
    let end = seq![LINE_END];
    let text = record_text(hex_field(record.address), seq![' '], seq![' '], record);
    lemma_hex_field(record.address);
    law_record_of_parts(hex_field(record.address), seq![' '], seq![' '], record, end);
    assert(record_outcome(text + end) == Ok::<(Seq<char>, Record), ParseError>((end, record)));
    assert(end.skip(1) =~= Seq::<char>::empty());
    assert(newline_outcome(end) == Ok::<(Seq<char>, char), ParseError>(
        (Seq::empty(), LINE_END),
    ));
    assert(seq![record] + Seq::<Record>::empty() =~= seq![record]);
}

/// Round trip: whatever text a record was read from, with whatever gaps and
/// digits in whatever case, the line written for the record is read back
/// as the same record.
pub proof fn law_round_trip(s: Seq<char>)
    requires
        record_outcome(s) is Ok,
    ensures
        record_outcome(s) matches Ok((_, record)) && is_line_of(canonical_line(record), record),
{
    law_parts_of_record(s);
    let record = record_outcome(s)->Ok_0.1;
    law_canonical_line(record);
}

/// What a record leaves behind does not matter to it: with more text
/// behind its line end, the same record is read.
pub proof fn law_record_is_local(s: Seq<char>, more: Seq<char>)
    requires
        record_outcome(s) matches Ok((rest, _)) && rest.len() > 0,
    ensures
        record_outcome(s) matches Ok((rest, record)) && record_outcome(s + more) == Ok::<
            (Seq<char>, Record),
            ParseError,
        >((rest + more, record)),
{
    let (field, gap1, gap2) = law_parts_of_record(s);
    let (rest, record) = record_outcome(s)->Ok_0;
    let text = record_text(field, gap1, gap2, record);
    assert(s + more =~= text + (rest + more));
    assert((rest + more)[0] == rest[0]);
    law_record_of_parts(field, gap1, gap2, record, rest + more);
}

/// A whole line in front of more text is read as the same record, and the
/// text behind it is left over.
pub proof fn law_line_is_local(line: Seq<char>, record: Record, more: Seq<char>)
    requires
        is_line_of(line, record),
    ensures
        line.len() > ADDRESS_WIDTH,
        line_outcome(line + more) == Ok::<(Seq<char>, Record), ParseError>((more, record)),
{
    let (rest, _) = record_outcome(line)->Ok_0;
    lemma_record_consumes(line);
    law_record_is_local(line, more);
    assert(rest.skip(1).len() == 0);
    assert((rest + more).skip(1) =~= more);
}

/// Lines put together are read as `following_outcome` reads them: one
/// record for each, in their order.
proof fn lemma_following_of_lines(lines: Seq<Seq<char>>, records: Seq<Record>)
    requires
        lines.len() == records.len(),
        forall|i: int| 0 <= i < lines.len() ==> is_line_of(#[trigger] lines[i], records[i]),
    ensures
        following_outcome(lines.flatten()) == Ok::<Seq<Record>, ParseError>(records),
    decreases lines.len(),
{
    if lines.len() == 0 {
        assert(records =~= Seq::<Record>::empty());
    } else {
        let more = lines.drop_first().flatten();
        assert(is_line_of(lines[0], records[0]));
        law_line_is_local(lines[0], records[0], more);
        assert forall|i: int| 0 <= i < lines.drop_first().len() implies is_line_of(
            #[trigger] lines.drop_first()[i],
            records.drop_first()[i],
        ) by {
            assert(is_line_of(lines[i + 1], records[i + 1]));
        }
        lemma_following_of_lines(lines.drop_first(), records.drop_first());
        assert(seq![records[0]] + records.drop_first() =~= records);
    }
}

/// A listing made of one or more whole lines, one behind the other, is read
/// as the records of those lines: as many as there are lines, in the order
/// of the lines.
pub proof fn law_listing_of_lines(lines: Seq<Seq<char>>, records: Seq<Record>)
    requires
        lines.len() > 0,
        lines.len() == records.len(),
        forall|i: int| 0 <= i < lines.len() ==> is_line_of(#[trigger] lines[i], records[i]),
    ensures
        file_outcome(lines.flatten()) == Ok::<Seq<Record>, ParseError>(records),
{
    let more = lines.drop_first().flatten();
    assert(is_line_of(lines[0], records[0]));
    law_line_is_local(lines[0], records[0], more);
    assert forall|i: int| 0 <= i < lines.drop_first().len() implies is_line_of(
        #[trigger] lines.drop_first()[i],
        records.drop_first()[i],
    ) by {
        assert(is_line_of(lines[i + 1], records[i + 1]));
    }
    lemma_following_of_lines(lines.drop_first(), records.drop_first());
    assert(seq![records[0]] + records.drop_first() =~= records);
}

/// The empty text is no listing.
pub proof fn law_empty_text()
    ensures
        file_outcome(Seq::empty()) == Err::<Seq<Record>, ParseError>(ParseError::EmptyFile),
{
}

/// A record is owed its line end: a text that ends with a record, and not
/// with the line end behind it, is refused, and for no other reason is a
/// line end found missing.
pub proof fn law_line_end_required(s: Seq<char>)
    requires
        record_outcome(s) is Ok,
    ensures
        record_outcome(s) matches Ok((rest, _)) && (newline_outcome(rest) is Err <==> rest.len()
            == 0),
        record_outcome(s) matches Ok((rest, _)) && (rest.len() == 0 ==> file_outcome(s) == Err::<
            Seq<Record>,
            ParseError,
        >(ParseError::MissingTrailingNewline)),
{
    law_record_well_formed(s);
}

/// Parsing is a function of the text: two results that `system_map` may
/// give for the same characters are both the same error, or hold equally
/// many mappings that agree one by one in address, type and name.
pub proof fn law_same_text_same_listing(
    a: &str,
    b: &str,
    ra: Result<(&str, Vec<SymbolMapping<'_>>), ParseError>,
    rb: Result<(&str, Vec<SymbolMapping<'_>>), ParseError>,
)
    requires
        a@ == b@,
        listing_of(ra) == file_outcome(a@),
        listing_of(rb) == file_outcome(b@),
    ensures
        listing_of(ra) == listing_of(rb),
        ra matches Err(e) ==> rb == Err::<(&str, Vec<SymbolMapping<'_>>), ParseError>(e),
        ra matches Ok((_, va)) ==> rb matches Ok((_, vb)) && va@.len() == vb@.len() && forall|
            i: int,
        |
            0 <= i < va@.len() ==> (#[trigger] va@[i]).address == vb@[i].address && va@[i].typ
                == vb@[i].typ && va@[i].symbol@ == vb@[i].symbol@,
{
    match (ra, rb) {
        (Ok((_, va)), Ok((_, vb))) => {
            let xs = records_of(va@);
            let ys = records_of(vb@);
            assert(xs == ys);
            assert(xs.len() == va@.len());
            assert forall|i: int| 0 <= i < va@.len() implies (#[trigger] va@[i]).address
                == vb@[i].address && va@[i].typ == vb@[i].typ && va@[i].symbol@
                == vb@[i].symbol@ by {
                assert(xs[i] == va@[i]@);
                assert(ys[i] == vb@[i]@);
            }
        },
        _ => {},
    }
}

} // verus!
