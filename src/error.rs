use vstd::prelude::*;
use vstd::string::StringSliceAdditionalSpecFns;

verus! {

/// The errors that the parsers of this crate report.
///
/// Positions are 1-based character indices into the parsed text.
#[derive(Debug, Clone, PartialEq)]
pub enum Error {
    /// The input ended earlier than expected.
    UnexpectedEndOfStream,
    /// The input holds unknown data at the given position.
    UnexpectedData(usize),
    /// The input as a whole is not a valid value.
    InvalidValue,
    /// An unexpected byte: the first byte is the actual one, the others were expected.
    InvalidChar(Vec<u8>, usize),
    /// An unexpected text: the first string is the actual one, the others were expected.
    InvalidString(Vec<Vec<u8>>, usize),
    /// An invalid number.
    InvalidNumber(usize),
    /// A view box with a negative or zero size.
    InvalidViewbox,
    /// An invalid IRI reference.
    InvalidIRI,
    /// An invalid functional IRI reference.
    InvalidFuncIRI,
    /// An invalid identifier.
    InvalidIdent,
    /// An invalid escape sequence.
    InvalidEscape,
}

/// Appends every byte of `b` to `out`.
pub fn push_bytes(out: &mut Vec<u8>, b: &[u8])
    ensures
        final(out)@ == old(out)@ + b@,
{
    let mut i: usize = 0;
    while i < b.len()
        invariant
            i <= b@.len(),
            out@ == old(out)@ + b@.subrange(0, i as int),
        decreases b@.len() - i,
    {
        out.push(b[i]);
        i = i + 1;
        assert(b@.subrange(0, i as int) == b@.subrange(0, i - 1) + seq![b@[i - 1]]);
    }
    assert(b@.subrange(0, b@.len() as int) == b@);
}

/// The decimal digits of `n`, most significant first.
pub open spec fn decimal(n: nat) -> Seq<u8>
    decreases n,
{
    if n < 10 {
        seq![(48 + n) as u8]
    } else {
        decimal(n / 10) + seq![(48 + n % 10) as u8]
    }
}

/// Appends the decimal representation of `n` to `out`.
pub fn push_decimal(out: &mut Vec<u8>, n: usize)
    ensures
        final(out)@ == old(out)@ + decimal(n as nat),
    decreases n,
{
    if n >= 10 {
        push_decimal(out, n / 10);
    }
    let d: u8 = (n % 10) as u8;
    out.push(48u8 + d);
}

/// `e` is `InvalidChar` with the given bytes and position.
pub open spec fn is_invalid_char(e: Error, chars: Seq<u8>, pos: int) -> bool {
    match e {
        Error::InvalidChar(v, p) => v@ == chars && p == pos,
        _ => false,
    }
}

/// `e` is `InvalidString` with the given texts and position.
pub open spec fn is_invalid_string(e: Error, texts: Seq<Seq<u8>>, pos: int) -> bool {
    match e {
        Error::InvalidString(v, p) => v@.map_values(|t: Vec<u8>| t@) == texts && p == pos,
        _ => false,
    }
}

/// The UTF-8 encoding of the character whose code point is the byte `b`.
pub open spec fn byte_as_char(b: u8) -> Seq<u8> {
    if b < 128 {
        seq![b]
    } else {
        seq![(192 + b / 64) as u8, (128 + b % 64) as u8]
    }
}

/// The items of `items` joined with `sep`.
pub open spec fn joined(items: Seq<Seq<u8>>, sep: Seq<u8>) -> Seq<u8>
    decreases items.len(),
{
    if items.len() == 0 {
        seq![]
    } else if items.len() == 1 {
        items[0]
    } else {
        joined(items.drop_last(), sep) + sep + items.last()
    }
}

/// The text `expected 'a', 'b' not 'c' at position n`.
pub open spec fn expected_message(expected: Seq<Seq<u8>>, actual: Seq<u8>, pos: nat) -> Seq<u8> {
    "expected '".spec_bytes() + joined(expected, "', '".spec_bytes()) + "' not '".spec_bytes()
        + actual + "' at position ".spec_bytes() + decimal(pos)
}

impl Error {
    /// The human-readable message of this error.
    pub open spec fn spec_message(&self) -> Seq<u8> {
        match self {
            Error::UnexpectedEndOfStream => "unexpected end of stream".spec_bytes(),
            Error::UnexpectedData(pos) => "unexpected data at position ".spec_bytes() + decimal(
                *pos as nat,
            ),
            Error::InvalidValue => "invalid value".spec_bytes(),
            Error::InvalidChar(chars, pos) => if chars@.len() == 0 {
                "invalid character".spec_bytes()
            } else {
                expected_message(
                    chars@.drop_first().map_values(|c: u8| byte_as_char(c)),
                    byte_as_char(chars@[0]),
                    *pos as nat,
                )
            },
            Error::InvalidString(strings, pos) => if strings@.len() == 0 {
                "invalid string".spec_bytes()
            } else {
                expected_message(
                    strings@.drop_first().map_values(|s: Vec<u8>| s@),
                    strings@[0]@,
                    *pos as nat,
                )
            },
            Error::InvalidNumber(pos) => "invalid number at position ".spec_bytes() + decimal(
                *pos as nat,
            ),
            Error::InvalidViewbox => "viewBox should have a positive size".spec_bytes(),
            Error::InvalidIRI => "invalid IRI".spec_bytes(),
            Error::InvalidFuncIRI => "invalid FuncIRI".spec_bytes(),
            Error::InvalidIdent => "invalid ident".spec_bytes(),
            Error::InvalidEscape => "invalid escape".spec_bytes(),
        }
    }

    /// Renders the error as UTF-8 text.
    pub fn message(&self) -> (r: Vec<u8>)
        ensures
            r@ == self.spec_message(),
    {
        let mut out: Vec<u8> = Vec::new();
        match self {
            Error::UnexpectedEndOfStream => push_bytes(&mut out, "unexpected end of stream".as_bytes()),
            Error::UnexpectedData(pos) => {
                push_bytes(&mut out, "unexpected data at position ".as_bytes());
                push_decimal(&mut out, *pos);
            },
            Error::InvalidValue => push_bytes(&mut out, "invalid value".as_bytes()),
            Error::InvalidChar(chars, pos) => {
                if chars.len() == 0 {
                    push_bytes(&mut out, "invalid character".as_bytes());
                } else {
                    let mut items: Vec<Vec<u8>> = Vec::new();
                    let mut i: usize = 1;
                    while i < chars.len()
                        invariant
                            1 <= i <= chars@.len(),
                            items@.len() == i - 1,
                            forall|k: int|
                                0 <= k < i - 1 ==> #[trigger] items@[k]@ == byte_as_char(
                                    chars@[k + 1],
                                ),
                        decreases chars@.len() - i,
                    {
                        items.push(char_bytes(chars[i]));
                        i = i + 1;
                    }
                    let actual = char_bytes(chars[0]);
                    push_expected(&mut out, &items, actual.as_slice(), *pos);
                    assert(items@.map_values(|s: Vec<u8>| s@) =~= chars@.drop_first().map_values(
                        |c: u8| byte_as_char(c),
                    ));
                }
            },
            Error::InvalidString(strings, pos) => {
                if strings.len() == 0 {
                    push_bytes(&mut out, "invalid string".as_bytes());
                } else {
                    let mut items: Vec<Vec<u8>> = Vec::new();
                    let mut i: usize = 1;
                    while i < strings.len()
                        invariant
                            1 <= i <= strings@.len(),
                            items@.len() == i - 1,
                            forall|k: int|
                                0 <= k < i - 1 ==> #[trigger] items@[k]@ == strings@[k + 1]@,
                        decreases strings@.len() - i,
                    {
                        items.push(copy_bytes(strings[i].as_slice()));
                        i = i + 1;
                    }
                    push_expected(&mut out, &items, strings[0].as_slice(), *pos);
                    assert(items@.map_values(|s: Vec<u8>| s@) =~= strings@.drop_first().map_values(
                        |s: Vec<u8>| s@,
                    ));
                }
            },
            Error::InvalidNumber(pos) => {
                push_bytes(&mut out, "invalid number at position ".as_bytes());
                push_decimal(&mut out, *pos);
            },
            Error::InvalidViewbox => push_bytes(
                &mut out,
                "viewBox should have a positive size".as_bytes(),
            ),
            Error::InvalidIRI => push_bytes(&mut out, "invalid IRI".as_bytes()),
            Error::InvalidFuncIRI => push_bytes(&mut out, "invalid FuncIRI".as_bytes()),
            Error::InvalidIdent => push_bytes(&mut out, "invalid ident".as_bytes()),
            Error::InvalidEscape => push_bytes(&mut out, "invalid escape".as_bytes()),
        }
        out
    }
}

/// A fresh copy of `b`.
pub fn copy_bytes(b: &[u8]) -> (r: Vec<u8>)
    ensures
        r@ == b@,
{
    let mut r: Vec<u8> = Vec::new();
    push_bytes(&mut r, b);
    r
}

/// The UTF-8 encoding of the character whose code point is `b`.
fn char_bytes(b: u8) -> (r: Vec<u8>)
    ensures
        r@ == byte_as_char(b),
{
    let mut r: Vec<u8> = Vec::new();
    if b < 128 {
        r.push(b);
    } else {
        r.push(192u8 + b / 64);
        r.push(128u8 + b % 64);
    }
    r
}

/// Appends `items` joined with `', '` to `out`.
fn push_joined(out: &mut Vec<u8>, items: &Vec<Vec<u8>>)
    ensures
        final(out)@ == old(out)@ + joined(items@.map_values(|s: Vec<u8>| s@), "', '".spec_bytes()),
{
    let ghost all = items@.map_values(|s: Vec<u8>| s@);
    let ghost sep = "', '".spec_bytes();
    let mut i: usize = 0;
    while i < items.len()
        invariant
            i <= items@.len(),
            all == items@.map_values(|s: Vec<u8>| s@),
            sep == "', '".spec_bytes(),
            out@ == old(out)@ + joined(all.subrange(0, i as int), sep),
        decreases items@.len() - i,
    {
        let ghost before = out@;
        if i > 0 {
            push_bytes(out, "', '".as_bytes());
        }
        push_bytes(out, items[i].as_slice());
        i = i + 1;
        assert(all.subrange(0, i as int).drop_last() =~= all.subrange(0, i - 1));
        if i == 1 {
            assert(all.subrange(0, 0) =~= Seq::<Seq<u8>>::empty());
        }
    }
    assert(all.subrange(0, items@.len() as int) =~= all);
}

/// Appends the message `expected ... not ... at position ...` to `out`.
fn push_expected(out: &mut Vec<u8>, items: &Vec<Vec<u8>>, actual: &[u8], pos: usize)
    ensures
        final(out)@ == old(out)@ + expected_message(
            items@.map_values(|s: Vec<u8>| s@),
            actual@,
            pos as nat,
        ),
{
    push_bytes(out, "expected '".as_bytes());
    push_joined(out, items);
    push_bytes(out, "' not '".as_bytes());
    push_bytes(out, actual);
    push_bytes(out, "' at position ".as_bytes());
    push_decimal(out, pos);
    assert(out@ =~= old(out)@ + expected_message(
        items@.map_values(|s: Vec<u8>| s@),
        actual@,
        pos as nat,
    ));
}

} // verus!
