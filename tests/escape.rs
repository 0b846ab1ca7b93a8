use svgtypes::escape::escape_string;
use svgtypes::{Error, Stream};

fn unescape(t: &str) -> Result<String, Error> {
    escape_string(t.as_bytes()).map(|v| String::from_utf8(v).unwrap())
}

fn ident(t: &str) -> Result<String, Error> {
    Stream::from(t).parse_ident().map(|v| String::from_utf8(v).unwrap())
}

fn quoted(t: &str) -> Result<String, Error> {
    Stream::from(t).parse_string().map(|v| String::from_utf8(v).unwrap())
}

#[test]
fn escapes() {
    assert_eq!(unescape("\\\"").unwrap(), "\"");
    assert_eq!(unescape("\\你").unwrap(), "你");
    assert_eq!(unescape("\\41").unwrap(), "A");
    assert_eq!(unescape("\\0041").unwrap(), "A");
    assert_eq!(unescape("\\000041").unwrap(), "A");
    assert_eq!(unescape("\\0041Hi").unwrap(), "AHi");
    assert_eq!(unescape("\\0041 Hi").unwrap(), "A Hi");
    assert_eq!(unescape("\\0041 10").unwrap(), "A 10");
    assert_eq!(
        unescape("So\\6D\\65 longer text with Chinese \\6587\\5b57").unwrap(),
        "Some longer text with Chinese 文字"
    );
}

#[test]
fn escape_errors() {
    assert_eq!(unescape("\\").unwrap_err(), Error::UnexpectedEndOfStream);
    assert_eq!(unescape("\\\n").unwrap_err(), Error::InvalidEscape);
    assert_eq!(unescape("\\FFFFFF").unwrap_err(), Error::InvalidEscape);
    assert_eq!(unescape("\\D800").unwrap_err(), Error::InvalidEscape);
}

#[test]
fn identifiers() {
    assert_eq!(ident("_test").unwrap(), "_test");
    assert_eq!(ident("_te-st").unwrap(), "_te-st");
    assert_eq!(ident("te\\73\\0074 ").unwrap(), "test");
    assert_eq!(ident("-").unwrap_err(), Error::InvalidIdent);
    assert_eq!(ident("8abc").unwrap_err(), Error::InvalidIdent);
    assert_eq!(ident("   ").unwrap_err(), Error::UnexpectedEndOfStream);
}

#[test]
fn quoted_strings() {
    assert_eq!(quoted("\"\"").unwrap(), "");
    assert_eq!(quoted("''").unwrap(), "");
    assert_eq!(quoted("'Some text'").unwrap(), "Some text");
    assert_eq!(quoted("'text with \\' escaped quotes'").unwrap(), "text with ' escaped quotes");
    assert_eq!(quoted("\"more quotes ''\\\" and text\"").unwrap(), "more quotes ''\" and text");
    assert_eq!(quoted("'\\41 B'").unwrap(), "AB");
    assert_eq!(quoted("x").unwrap_err(), Error::UnexpectedData(0));
    assert_eq!(quoted("'open").unwrap_err(), Error::UnexpectedEndOfStream);
}

#[test]
fn single_escape() {
    let mut s = Stream::from("\\4F60 80");
    assert_eq!(String::from_utf8(s.parse_escape().unwrap()).unwrap(), "你");
    assert_eq!(s.pos(), 6);
    let mut s = Stream::from("\\é");
    assert_eq!(String::from_utf8(s.parse_escape().unwrap()).unwrap(), "é");
    assert!(s.at_end());
}
