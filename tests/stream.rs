use svgtypes::{Error, Stream};

fn text(b: &[u8]) -> &str {
    std::str::from_utf8(b).unwrap()
}

fn message(e: Error) -> String {
    String::from_utf8(e.message()).unwrap()
}

#[test]
fn parse_integer_1() {
    let mut s = Stream::from("10");
    assert_eq!(s.parse_integer().unwrap(), 10);
}

#[test]
fn parse_err_integer_1() {
    // error because of overflow
    let mut s = Stream::from("10000000000000");
    assert_eq!(message(s.parse_integer().unwrap_err()), "invalid number at position 1");
}

#[test]
fn integer_1() {
    let mut s = Stream::from("10");
    assert_eq!(s.parse_integer().unwrap(), 10);
}

#[test]
fn parse_iri_1() {
    assert_eq!(text(Stream::from("#id").parse_iri().unwrap()), "id");
}

#[test]
fn parse_iri_2() {
    assert_eq!(text(Stream::from("   #id   ").parse_iri().unwrap()), "id");
}

#[test]
fn parse_iri_3() {
    assert_eq!(text(Stream::from("   #id   text").parse_iri().unwrap()), "id");
}

#[test]
fn parse_iri_4() {
    assert_eq!(text(Stream::from("#1").parse_iri().unwrap()), "1");
}

#[test]
fn parse_err_iri_1() {
    assert_eq!(message(Stream::from("# id").parse_iri().unwrap_err()), "invalid IRI");
}

#[test]
fn parse_func_iri_1() {
    assert_eq!(text(Stream::from("url(#id)").parse_func_iri().unwrap()), "id");
}

#[test]
fn parse_func_iri_2() {
    assert_eq!(text(Stream::from("url(#1)").parse_func_iri().unwrap()), "1");
}

#[test]
fn parse_func_iri_3() {
    assert_eq!(text(Stream::from("    url(    #id    )   ").parse_func_iri().unwrap()), "id");
}

#[test]
fn parse_err_func_iri_1() {
    assert_eq!(message(Stream::from("url ( #1 )").parse_func_iri().unwrap_err()), "invalid FuncIRI");
}

#[test]
fn parse_err_func_iri_2() {
    assert_eq!(message(Stream::from("url(#)").parse_func_iri().unwrap_err()), "invalid FuncIRI");
}

#[test]
fn parse_err_func_iri_3() {
    assert_eq!(message(Stream::from("url(# id)").parse_func_iri().unwrap_err()), "invalid FuncIRI");
}

#[test]
fn integer_signs_and_bounds() {
    assert_eq!(Stream::from("  -2147483648").parse_integer().unwrap(), -2147483648);
    assert_eq!(Stream::from("+2147483647").parse_integer().unwrap(), 2147483647);
    assert!(Stream::from("2147483648").parse_integer().is_err());
    assert_eq!(Stream::from("+").parse_integer().unwrap_err(), Error::UnexpectedEndOfStream);
    assert_eq!(message(Stream::from("   ").parse_integer().unwrap_err()), "invalid number at position 4");
    assert_eq!(message(Stream::from(" x").parse_integer().unwrap_err()), "invalid number at position 2");
}

#[test]
fn list_integer() {
    let mut s = Stream::from("1, 2 ,3");
    assert_eq!(s.parse_list_integer().unwrap(), 1);
    assert_eq!(s.parse_list_integer().unwrap(), 2);
    assert_eq!(s.parse_list_integer().unwrap(), 3);
    assert!(s.at_end());
    assert_eq!(s.parse_list_integer().unwrap_err(), Error::UnexpectedEndOfStream);
}

#[test]
fn scan_numbers() {
    let cases: [(&str, &str); 12] = [
        ("0", "0"),
        (" -1 ", "-1"),
        (".4", ".4"),
        ("-.4text", "-.4"),
        ("1e2", "1e2"),
        ("1e+2", "1e+2"),
        ("1E2", "1E2"),
        ("1ex", "1"),
        ("1em", "1"),
        ("0.", "0."),
        ("1.3e-2", "1.3e-2"),
        ("12345678901234567890", "12345678901234567890"),
    ];
    for (input, expected) in cases.iter() {
        let mut s = Stream::from(*input);
        assert_eq!(text(s.scan_number().unwrap()), *expected);
    }
}

#[test]
fn scan_number_errors() {
    for input in ["q", "", "-", "+", "-q", ".", "1e", "1e+"].iter() {
        let mut s = Stream::from(*input);
        assert_eq!(message(s.scan_number().unwrap_err()), "invalid number at position 1");
    }
}

#[test]
fn consume_byte_and_string() {
    let mut s = Stream::from("ab");
    assert_eq!(message(s.consume_byte(b'x').unwrap_err()), "expected 'x' not 'a' at position 1");
    assert!(s.consume_byte(b'a').is_ok());
    assert_eq!(s.pos(), 1);
    assert_eq!(message(s.consume_string(b"cd").unwrap_err()), "expected 'cd' not 'b' at position 2");
    assert!(s.consume_string(b"b").is_ok());
    assert_eq!(s.consume_byte(b'a').unwrap_err(), Error::UnexpectedEndOfStream);
}

#[test]
fn char_positions() {
    let s = Stream::from("fill:красный;&");
    assert_eq!(s.calc_char_pos_at(19), 13);
    assert_eq!(s.calc_char_pos_at(20), 14);
    assert_eq!(s.calc_char_pos_at(100), 15);
}

#[test]
fn skipping() {
    let mut s = Stream::from(" \t\n12a");
    s.skip_spaces();
    assert_eq!(s.pos(), 3);
    s.skip_digits();
    assert_eq!(s.pos(), 5);
    assert_eq!(s.curr_byte().unwrap(), b'a');
    assert_eq!(s.next_byte().unwrap_err(), Error::UnexpectedEndOfStream);
    assert!(s.starts_with(b"a"));
    assert_eq!(text(s.slice_back(3)), "12");
    assert_eq!(text(s.slice_tail()), "a");
    s.jump_to_end();
    assert!(s.at_end());
    assert_eq!(s.curr_byte().unwrap_err(), Error::UnexpectedEndOfStream);
}

#[test]
fn consume_while_predicate() {
    let mut s = Stream::from("abc123 rest");
    assert_eq!(text(s.consume_bytes(|c| c.is_ascii_alphabetic())), "abc");
    s.skip_bytes(|c| c.is_ascii_digit());
    assert_eq!(s.pos(), 6);
    assert_eq!(text(s.consume_bytes(|c| c == b'x')), "");
    s.skip_until(b"t");
    assert_eq!(text(s.slice_tail()), "t");
}

#[test]
fn characters() {
    let mut s = Stream::from("aк文😀");
    assert_eq!(s.curr_char().unwrap(), 'a');
    assert_eq!(s.consume_char().unwrap(), 'a');
    assert_eq!(s.consume_char().unwrap(), 'к');
    assert_eq!(s.pos(), 3);
    assert_eq!(s.consume_char().unwrap(), '文');
    assert_eq!(s.consume_char().unwrap(), '😀');
    assert!(s.at_end());
    assert_eq!(s.curr_char().unwrap_err(), Error::UnexpectedEndOfStream);
    let mut bad = Stream::from_bytes(&[0xC0, 0x80]);
    assert_eq!(bad.consume_char().unwrap_err(), Error::InvalidValue);
    assert_eq!(bad.pos(), 0);
}
