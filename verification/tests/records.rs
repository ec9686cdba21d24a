use system_map::{symbol_mapping, ParseError, SymbolMapping};

#[test]
fn test_symbol_mapping() {
    assert_eq!(
        symbol_mapping("0000000000000000 D __per_cpu_start\n"),
        Ok((
            "\n",
            SymbolMapping {
                address: 0,
                typ: 'D',
                symbol: "__per_cpu_start"
            }
        ))
    );
}

#[test]
fn record_with_a_high_address() {
    assert_eq!(
        symbol_mapping("ffffffff83532558 T some_func\n"),
        Ok(("\n", SymbolMapping { address: 0xffffffff83532558, typ: 'T', symbol: "some_func" }))
    );
}

#[test]
fn record_at_the_end_of_the_text() {
    assert_eq!(
        symbol_mapping("ffffffff83532558 T some_func"),
        Ok(("", SymbolMapping { address: 0xffffffff83532558, typ: 'T', symbol: "some_func" }))
    );
}

#[test]
fn record_leaves_the_following_lines() {
    assert_eq!(
        symbol_mapping("0000000000000010 t a\n0000000000000020 t b\n"),
        Ok((
            "\n0000000000000020 t b\n",
            SymbolMapping { address: 16, typ: 't', symbol: "a" }
        ))
    );
}

#[test]
fn record_with_wide_gaps() {
    assert_eq!(
        symbol_mapping("00000000000000AB \t b\t\t  name\n"),
        Ok(("\n", SymbolMapping { address: 0xab, typ: 'b', symbol: "name" }))
    );
}

#[test]
fn record_name_may_hold_blanks() {
    assert_eq!(
        symbol_mapping("0000000000000001 A a name \twith blanks \n"),
        Ok(("\n", SymbolMapping { address: 1, typ: 'A', symbol: "a name \twith blanks " }))
    );
}

#[test]
fn record_type_may_be_any_character() {
    assert_eq!(
        symbol_mapping("0000000000000001 ? x\n"),
        Ok(("\n", SymbolMapping { address: 1, typ: '?', symbol: "x" }))
    );
    assert_eq!(
        symbol_mapping("0000000000000001 € größe\n"),
        Ok(("\n", SymbolMapping { address: 1, typ: '€', symbol: "größe" }))
    );
    assert_eq!(
        symbol_mapping("0000000000000001 \n x\n"),
        Ok(("\n", SymbolMapping { address: 1, typ: '\n', symbol: "x" }))
    );
}

#[test]
fn record_name_borrows_from_the_text() {
    let text = String::from("0000000000000001 D name\n");
    let (rest, mapping) = symbol_mapping(&text).unwrap();
    let start = text.as_ptr() as usize;
    assert_eq!(mapping.symbol.as_ptr() as usize, start + 19);
    assert_eq!(rest.as_ptr() as usize, start + 23);
}

#[test]
fn short_address_is_malformed() {
    assert_eq!(symbol_mapping("00000000000000 D x\n"), Err(ParseError::MalformedAddress));
    assert_eq!(symbol_mapping("000000000000000 D x\n"), Err(ParseError::MalformedAddress));
    assert_eq!(symbol_mapping(""), Err(ParseError::MalformedAddress));
    assert_eq!(symbol_mapping("\n"), Err(ParseError::MalformedAddress));
}

#[test]
fn address_with_a_sign_or_prefix_is_malformed() {
    assert_eq!(symbol_mapping("+000000000000001 D x\n"), Err(ParseError::MalformedAddress));
    assert_eq!(symbol_mapping("0x00000000000001 D x\n"), Err(ParseError::MalformedAddress));
    assert_eq!(symbol_mapping("000000000000000g D x\n"), Err(ParseError::MalformedAddress));
}

#[test]
fn address_without_a_blank_behind_it() {
    assert_eq!(symbol_mapping("0000000000000000"), Err(ParseError::MissingSeparator));
    assert_eq!(symbol_mapping("0000000000000000D x\n"), Err(ParseError::MissingSeparator));
    assert_eq!(symbol_mapping("00000000000000000 D x\n"), Err(ParseError::MissingSeparator));
    assert_eq!(symbol_mapping("0000000000000000\nD x\n"), Err(ParseError::MissingSeparator));
}

#[test]
fn text_that_ends_where_the_type_is_due() {
    assert_eq!(symbol_mapping("0000000000000000 "), Err(ParseError::UnexpectedEndOfInput));
    assert_eq!(symbol_mapping("0000000000000000 \t "), Err(ParseError::UnexpectedEndOfInput));
}

#[test]
fn type_without_a_blank_behind_it() {
    assert_eq!(symbol_mapping("0000000000000000 D"), Err(ParseError::MissingSeparator));
    assert_eq!(symbol_mapping("0000000000000000 D\n"), Err(ParseError::MissingSeparator));
    assert_eq!(symbol_mapping("0000000000000000 Dx\n"), Err(ParseError::MissingSeparator));
}

#[test]
fn record_without_a_name() {
    assert_eq!(symbol_mapping("0000000000000000 D "), Err(ParseError::EmptySymbol));
    assert_eq!(symbol_mapping("0000000000000000 D \n"), Err(ParseError::EmptySymbol));
    assert_eq!(symbol_mapping("0000000000000000 D \t\nname\n"), Err(ParseError::EmptySymbol));
}
