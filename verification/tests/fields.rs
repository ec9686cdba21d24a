use system_map::text::{encoded_width, prefix_before, split_first, take_chars};
use system_map::{address, address_from_hex, newline, separator, symbol, typ, ParseError};

#[test]
fn test_address() {
    assert_eq!(address("0000000000000000 "), Ok((" ", 0)));
    assert_eq!(address("ffffffff83532558 "), Ok((" ", 0xffffffff83532558)));
}

#[test]
fn test_symbol() {
    assert_eq!(symbol("__per_cpu_start\n"), Ok(("\n", "__per_cpu_start")));
}

#[test]
fn address_from_hex_gives_the_value_in_base_16() {
    assert_eq!(address_from_hex("0000000000000000"), Ok(0));
    assert_eq!(address_from_hex("0000000000000001"), Ok(1));
    assert_eq!(address_from_hex("00000000000000ff"), Ok(255));
    assert_eq!(address_from_hex("0123456789abcdef"), Ok(0x0123_4567_89ab_cdef));
    assert_eq!(address_from_hex("ffffffffffffffff"), Ok(u64::MAX));
    assert_eq!(address_from_hex("8000000000000000"), Ok(1 << 63));
}

#[test]
fn address_from_hex_reads_either_case() {
    assert_eq!(address_from_hex("FFFFFFFF83532558"), Ok(0xffffffff83532558));
    assert_eq!(address_from_hex("FfFfFfFf8353AbCd"), Ok(0xffffffff8353abcd));
    assert_eq!(address_from_hex("ABCDEFabcdef0123"), Ok(0xabcdefabcdef0123));
}

#[test]
fn address_from_hex_refuses_other_lengths() {
    assert_eq!(address_from_hex(""), Err(ParseError::MalformedAddress));
    assert_eq!(address_from_hex("ff"), Err(ParseError::MalformedAddress));
    assert_eq!(address_from_hex("000000000000000"), Err(ParseError::MalformedAddress));
    assert_eq!(address_from_hex("00000000000000000"), Err(ParseError::MalformedAddress));
}

#[test]
fn address_from_hex_refuses_every_other_character() {
    assert_eq!(address_from_hex("+000000000000000"), Err(ParseError::MalformedAddress));
    assert_eq!(address_from_hex("-000000000000000"), Err(ParseError::MalformedAddress));
    assert_eq!(address_from_hex("000000000000000g"), Err(ParseError::MalformedAddress));
    assert_eq!(address_from_hex("0000000 00000000"), Err(ParseError::MalformedAddress));
    assert_eq!(address_from_hex("0x00000000000000"), Err(ParseError::MalformedAddress));
    assert_eq!(address_from_hex("00000000_0000000"), Err(ParseError::MalformedAddress));
    assert_eq!(address_from_hex("000000000000000/"), Err(ParseError::MalformedAddress));
    assert_eq!(address_from_hex("000000000000000:"), Err(ParseError::MalformedAddress));
    assert_eq!(address_from_hex("000000000000000@"), Err(ParseError::MalformedAddress));
    assert_eq!(address_from_hex("000000000000000G"), Err(ParseError::MalformedAddress));
    assert_eq!(address_from_hex("000000000000000`"), Err(ParseError::MalformedAddress));
    assert_eq!(address_from_hex("00000000000000é0"), Err(ParseError::MalformedAddress));
}

#[test]
fn address_refuses_a_bad_digit_in_each_position() {
    for i in 0..16 {
        let mut text = String::from("0123456789abcdef rest");
        text.replace_range(i..i + 1, "x");
        assert_eq!(address(&text), Err(ParseError::MalformedAddress), "position {}", i);
    }
}

#[test]
fn address_takes_sixteen_characters_and_no_more() {
    assert_eq!(address("00000000000000ff"), Ok(("", 255)));
    assert_eq!(address("00000000000000ffff"), Ok(("ff", 255)));
    assert_eq!(address("00000000000000ffg"), Ok(("g", 255)));
    assert_eq!(address("00000000000000f"), Err(ParseError::MalformedAddress));
    assert_eq!(address(""), Err(ParseError::MalformedAddress));
}

#[test]
fn separator_takes_all_spaces_and_tabs() {
    assert_eq!(separator(" D"), Ok(("D", " ")));
    assert_eq!(separator("\tD"), Ok(("D", "\t")));
    assert_eq!(separator(" \t  \tD x"), Ok(("D x", " \t  \t")));
    assert_eq!(separator("   "), Ok(("", "   ")));
}

#[test]
fn separator_refuses_anything_else() {
    assert_eq!(separator(""), Err(ParseError::MissingSeparator));
    assert_eq!(separator("D "), Err(ParseError::MissingSeparator));
    assert_eq!(separator("\n "), Err(ParseError::MissingSeparator));
    assert_eq!(separator("\r "), Err(ParseError::MissingSeparator));
    assert_eq!(separator("\u{a0} "), Err(ParseError::MissingSeparator));
}

#[test]
fn typ_takes_any_one_character() {
    assert_eq!(typ("D x"), Ok((" x", 'D')));
    assert_eq!(typ("?"), Ok(("", '?')));
    assert_eq!(typ("7 x"), Ok((" x", '7')));
    assert_eq!(typ("\n x"), Ok((" x", '\n')));
    assert_eq!(typ("é x"), Ok((" x", 'é')));
    assert_eq!(typ("€ x"), Ok((" x", '€')));
    assert_eq!(typ("𝄞 x"), Ok((" x", '𝄞')));
}

#[test]
fn typ_refuses_the_empty_text() {
    assert_eq!(typ(""), Err(ParseError::UnexpectedEndOfInput));
}

#[test]
fn symbol_runs_to_the_line_end_or_the_end_of_the_text() {
    assert_eq!(symbol("some_func"), Ok(("", "some_func")));
    assert_eq!(symbol("a\nb\n"), Ok(("\nb\n", "a")));
    assert_eq!(symbol("name with blanks\t!\n"), Ok(("\n", "name with blanks\t!")));
    assert_eq!(symbol("name\r\n"), Ok(("\n", "name\r")));
    assert_eq!(symbol("größe_€_𝄞\nnext"), Ok(("\nnext", "größe_€_𝄞")));
}

#[test]
fn symbol_refuses_an_empty_name() {
    assert_eq!(symbol(""), Err(ParseError::EmptySymbol));
    assert_eq!(symbol("\n"), Err(ParseError::EmptySymbol));
    assert_eq!(symbol("\nname"), Err(ParseError::EmptySymbol));
}

#[test]
fn newline_takes_one_line_end() {
    assert_eq!(newline("\n"), Ok(("", '\n')));
    assert_eq!(newline("\n\nx"), Ok(("\nx", '\n')));
    assert_eq!(newline(""), Err(ParseError::MissingTrailingNewline));
    assert_eq!(newline("x\n"), Err(ParseError::MissingTrailingNewline));
    assert_eq!(newline("\r\n"), Err(ParseError::MissingTrailingNewline));
}

#[test]
fn encoded_width_is_the_length_in_utf8() {
    for c in ['\0', 'a', '\u{7f}', '\u{80}', 'é', '\u{7ff}', '\u{800}', '€', '\u{d7ff}',
        '\u{e000}', '\u{ffff}', '\u{10000}', '𝄞', '\u{10ffff}']
    {
        assert_eq!(encoded_width(c), c.len_utf8(), "{:?}", c);
    }
}

#[test]
fn split_first_cuts_behind_the_first_character() {
    assert_eq!(split_first(""), None);
    assert_eq!(split_first("a"), Some(('a', "")));
    assert_eq!(split_first("ab"), Some(('a', "b")));
    assert_eq!(split_first("éb"), Some(('é', "b")));
    assert_eq!(split_first("€€"), Some(('€', "€")));
    assert_eq!(split_first("𝄞x"), Some(('𝄞', "x")));
}

#[test]
fn take_chars_counts_characters() {
    assert_eq!(take_chars("abc", 0), Some(("", "abc")));
    assert_eq!(take_chars("abc", 2), Some(("ab", "c")));
    assert_eq!(take_chars("abc", 3), Some(("abc", "")));
    assert_eq!(take_chars("abc", 4), None);
    assert_eq!(take_chars("é€𝄞z", 3), Some(("é€𝄞", "z")));
    assert_eq!(take_chars("é€𝄞z", 5), None);
    assert_eq!(take_chars("", 0), Some(("", "")));
}

#[test]
fn prefix_before_gives_what_stands_in_front() {
    let text = "é€𝄞 tail";
    assert_eq!(prefix_before(text, &text[9..]), "é€𝄞");
    assert_eq!(prefix_before(text, text), "");
    assert_eq!(prefix_before(text, ""), text);
    assert_eq!(prefix_before(text, "tail"), "é€𝄞 ");
}
