use vstd::prelude::*;
use vstd::utf8::{encode_scalar, is_scalar};

use crate::error::Error;
use crate::stream::{
    is_digit, is_letter, is_space, lemma_spaces_end, spaces_end, spec_is_digit, spec_is_letter,
    spec_is_space, Stream,
};

verus! {

/// `[0-9A-Fa-f]`.
pub open spec fn spec_is_hex_digit(c: u8) -> bool {
    spec_is_digit(c) || (65 <= c <= 70) || (97 <= c <= 102)
}

/// Checks if a byte is a hexadecimal digit.
pub fn is_hex_digit(c: u8) -> (r: bool)
    ensures
        r == spec_is_hex_digit(c),
{
    is_digit(c) || ('A' as u8 <= c && c <= 'F' as u8) || ('a' as u8 <= c && c <= 'f' as u8)
}

/// The value of a hexadecimal digit.
pub open spec fn hex_digit_value(c: u8) -> nat {
    if spec_is_digit(c) {
        (c - 48) as nat
    } else if 65 <= c <= 70 {
        (c - 55) as nat
    } else {
        (c - 87) as nat
    }
}

/// The value of a run of hexadecimal digits.
pub open spec fn hex_value(d: Seq<u8>) -> nat
    decreases d.len(),
{
    if d.len() == 0 {
        0
    } else {
        16 * hex_value(d.drop_last()) + hex_digit_value(d.last())
    }
}

/// The end of the run of at most six hexadecimal digits that starts at `from`.
pub open spec fn hex_run_end(t: Seq<u8>, from: int, i: int) -> int
    decreases t.len() - i,
{
    if i < from || i >= t.len() || i >= from + 6 || !spec_is_hex_digit(t[i]) {
        i
    } else {
        hex_run_end(t, from, i + 1)
    }
}

/// Puts `acc` in front of the bytes of a successful result.
pub open spec fn prefixed(acc: Seq<u8>, r: Result<Seq<u8>, Error>) -> Result<Seq<u8>, Error> {
    match r {
        Ok(v) => Ok(acc + v),
        Err(e) => Err(e),
    }
}

/// `t[i..]` with its escapes resolved: `\` followed by one to six hexadecimal digits
/// stands for the character with that code point, `\` followed by another character stands
/// for that character. A `\` at the end or before a line feed, and a code point that is no
/// character, are errors.
pub open spec fn unescaped(t: Seq<u8>, i: int) -> Result<Seq<u8>, Error>
    decreases t.len() - i,
{
    if i < 0 || i >= t.len() {
        Ok(seq![])
    } else if t[i] != 92 {
        prefixed(seq![t[i]], unescaped(t, i + 1))
    } else if i + 1 >= t.len() {
        Err(Error::UnexpectedEndOfStream)
    } else if t[i + 1] == 10 {
        Err(Error::InvalidEscape)
    } else if spec_is_hex_digit(t[i + 1]) {
        let e = hex_run_end(t, i + 1, i + 1);
        let v = hex_value(t.subrange(i + 1, e));
        if e > i + 1 && e <= t.len() && v <= u32::MAX && is_scalar(v as u32) {
            prefixed(encode_scalar(v as u32), unescaped(t, e))
        } else {
            Err(Error::InvalidEscape)
        }
    } else {
        prefixed(seq![t[i + 1]], unescaped(t, i + 2))
    }
}

proof fn lemma_hex_run_end(t: Seq<u8>, from: int, i: int)
    requires
        0 <= from <= i <= t.len(),
        i <= from + 6,
    ensures
        i <= hex_run_end(t, from, i) <= t.len(),
        hex_run_end(t, from, i) <= from + 6,
        forall|k: int| i <= k < hex_run_end(t, from, i) ==> spec_is_hex_digit(#[trigger] t[k]),
    decreases t.len() - i,
{
    if i < t.len() && i < from + 6 && spec_is_hex_digit(t[i]) {
        lemma_hex_run_end(t, from, i + 1);
    }
}

proof fn lemma_hex_value_bound(d: Seq<u8>)
    requires
        forall|k: int| 0 <= k < d.len() ==> spec_is_hex_digit(#[trigger] d[k]),
    ensures
        hex_value(d) < pow16(d.len()),
    decreases d.len(),
{
    if d.len() > 0 {
        lemma_hex_value_bound(d.drop_last());
        assert(hex_digit_value(d.last()) < 16);
    }
}

/// `16` to the power `n`.
pub open spec fn pow16(n: nat) -> nat
    decreases n,
{
    if n == 0 {
        1
    } else {
        16 * pow16((n - 1) as nat)
    }
}

/// Appends the UTF-8 encoding of the character `v`.
fn push_scalar(out: &mut Vec<u8>, v: u32)
    requires
        is_scalar(v),
    ensures
        final(out)@ == old(out)@ + encode_scalar(v),
{
    if v <= 0x7F {
        out.push((v & 0x7F) as u8);
    } else if v <= 0x7FF {
        out.push(0xC0 | ((v >> 6) & 0x1F) as u8);
        out.push(0x80 | (v & 0x3F) as u8);
    } else if v <= 0xFFFF {
        out.push(0xE0 | ((v >> 12) & 0x0F) as u8);
        out.push(0x80 | ((v >> 6) & 0x3F) as u8);
        out.push(0x80 | (v & 0x3F) as u8);
    } else {
        out.push(0xF0 | ((v >> 18) & 0x7) as u8);
        out.push(0x80 | ((v >> 12) & 0x3F) as u8);
        out.push(0x80 | ((v >> 6) & 0x3F) as u8);
        out.push(0x80 | (v & 0x3F) as u8);
    }
    assert(out@ =~= old(out)@ + encode_scalar(v));
}

/// Checks whether `v` is the code point of a character.
fn check_scalar(v: u32) -> (r: bool)
    ensures
        r == is_scalar(v),
{
    v <= 0x10FFFF && !(0xD800 <= v && v <= 0xDFFF)
}

/// Reads the run of at most six hexadecimal digits at `from`: its end and its value.
fn read_hex(t: &[u8], from: usize) -> (r: (usize, u32))
    requires
        from <= t@.len(),
    ensures
        from <= r.0 <= t@.len(),
        r.0 == hex_run_end(t@, from as int, from as int),
        r.1 == hex_value(t@.subrange(from as int, r.0 as int)),
{
    proof {
        lemma_hex_run_end(t@, from as int, from as int);
    }
    let mut i = from;
    let mut v: u32 = 0;
    while i < t.len() && i - from < 6 && is_hex_digit(t[i])
        invariant
            from <= i <= t@.len(),
            i <= from + 6,
            hex_run_end(t@, from as int, i as int) == hex_run_end(t@, from as int, from as int),
            forall|k: int| from <= k < i ==> spec_is_hex_digit(#[trigger] t@[k]),
            v == hex_value(t@.subrange(from as int, i as int)),
        decreases t@.len() - i,
    {
        let c = t[i];
        let d: u32 = if is_digit(c) {
            (c - 48) as u32
        } else if 'A' as u8 <= c && c <= 'F' as u8 {
            (c - 55) as u32
        } else {
            (c - 87) as u32
        };
        let ghost before = t@.subrange(from as int, i as int);
        proof {
            lemma_hex_value_bound(before);
            assert(pow16(before.len()) <= pow16(5)) by {
                lemma_pow16_mono(before.len(), 5);
            }
            assert(pow16(5) == 1048576) by {
                reveal_with_fuel(pow16, 6);
            }
        }
        v = v * 16 + d;
        i = i + 1;
        assert(t@.subrange(from as int, i as int).drop_last() =~= before);
    }
    (i, v)
}

proof fn lemma_pow16_mono(a: nat, b: nat)
    requires
        a <= b,
    ensures
        pow16(a) <= pow16(b),
    decreases b,
{
    if a < b {
        lemma_pow16_mono(a, (b - 1) as nat);
    }
}

/// Resolves the escapes of `text`, as `unescaped` describes.
pub fn escape_string(text: &[u8]) -> (r: Result<Vec<u8>, Error>)
    ensures
        match unescaped(text@, 0) {
            Ok(v) => r is Ok && r->Ok_0@ == v,
            Err(e) => r == Err::<Vec<u8>, Error>(e),
        },
{
    let ghost t = text@;
    let mut out: Vec<u8> = Vec::new();
    let mut i: usize = 0;
    while i < text.len()
        invariant
            i <= t.len(),
            t == text@,
            unescaped(t, 0) == prefixed(out@, unescaped(t, i as int)),
        decreases t.len() - i,
    {
        let ghost before = out@;
        let c = text[i];
        if c != '\\' as u8 {
            out.push(c);
            i = i + 1;
            proof {
                assert(before + (seq![c] + Seq::<u8>::empty()) =~= out@);
                match unescaped(t, i as int) {
                    Ok(v) => assert(before + (seq![c] + v) =~= out@ + v),
                    Err(_) => {},
                }
            }
        } else if i + 1 >= text.len() {
            return Err(Error::UnexpectedEndOfStream);
        } else if text[i + 1] == '\n' as u8 {
            return Err(Error::InvalidEscape);
        } else if is_hex_digit(text[i + 1]) {
            let (e, v) = read_hex(text, i + 1);
            proof {
                lemma_hex_run_end(t, i + 1, i + 1);
            }
            if e > i + 1 && check_scalar(v) {
                push_scalar(&mut out, v);
                i = e;
                proof {
                    match unescaped(t, i as int) {
                        Ok(w) => assert(before + (encode_scalar(v) + w) =~= out@ + w),
                        Err(_) => {},
                    }
                }
            } else {
                return Err(Error::InvalidEscape);
            }
        } else {
            let n = text[i + 1];
            out.push(n);
            i = i + 2;
            proof {
                match unescaped(t, i as int) {
                    Ok(v) => assert(before + (seq![n] + v) =~= out@ + v),
                    Err(_) => {},
                }
            }
        }
    }
    assert(out@ + Seq::<u8>::empty() =~= out@);
    Ok(out)
}


/// A byte that may start an identifier: `-`, `_`, an ASCII letter, `\`, or a byte of a
/// non-ASCII character.
pub open spec fn spec_is_ident_start(c: u8) -> bool {
    c == 45 || c == 95 || spec_is_letter(c) || c == 92 || c >= 128
}

/// A byte that may continue an identifier: a start byte or a digit.
pub open spec fn spec_is_name_char(c: u8) -> bool {
    spec_is_ident_start(c) || spec_is_digit(c)
}

/// The end of the run of identifier bytes that starts at `from`.
pub open spec fn name_end(d: Seq<u8>, from: int) -> int
    decreases d.len() - from,
{
    if from < 0 || from >= d.len() || !spec_is_name_char(d[from]) {
        from
    } else {
        name_end(d, from + 1)
    }
}

proof fn lemma_name_end(d: Seq<u8>, from: int)
    requires
        0 <= from <= d.len(),
    ensures
        from <= name_end(d, from) <= d.len(),
    decreases d.len() - from,
{
    if from < d.len() && spec_is_name_char(d[from]) {
        lemma_name_end(d, from + 1);
    }
}

/// What `parse_ident` reads at `pos`, after spaces: the identifier with its escapes
/// resolved, and the position after it.
pub open spec fn ident_at(d: Seq<u8>, pos: int) -> (Result<Seq<u8>, Error>, int) {
    let p = spaces_end(d, pos);
    let e = if p < d.len() && spec_is_ident_start(d[p]) {
        name_end(d, p + 1)
    } else {
        p
    };
    let s = d.subrange(p, e);
    if p >= d.len() {
        (Err(Error::UnexpectedEndOfStream), p)
    } else {
        match unescaped(s, 0) {
            Err(err) => (Err(err), e),
            Ok(v) => if s.len() == 0 || s == seq![45u8] {
                (Err(Error::InvalidIdent), e)
            } else {
                (Ok(v), e)
            },
        }
    }
}

/// The number of bytes of the UTF-8 character whose first byte is `b`.
pub open spec fn char_width(b: u8) -> int {
    if b < 0xC0 {
        1
    } else if b < 0xE0 {
        2
    } else if b < 0xF0 {
        3
    } else {
        4
    }
}

/// An escape at `p`: `\` and up to six hexadecimal digits (and one space after them), or
/// `\` and one other character. Its character, and the position after it.
pub open spec fn escape_at(d: Seq<u8>, p: int) -> Result<(Seq<u8>, int), Error> {
    let q = p + 1;
    if p < 0 || p >= d.len() || d[p] != 92 {
        Err(Error::InvalidValue)
    } else if q >= d.len() {
        Err(Error::UnexpectedEndOfStream)
    } else if d[q] == 10 || d[q] == 13 {
        Err(Error::InvalidValue)
    } else if spec_is_hex_digit(d[q]) {
        let e = hex_run_end(d, q, q);
        let v = hex_value(d.subrange(q, e));
        if v <= u32::MAX && is_scalar(v as u32) {
            Ok(
                (encode_scalar(v as u32), if e < d.len() && spec_is_space(d[e]) {
                    e + 1
                } else {
                    e
                }),
            )
        } else {
            Err(Error::InvalidValue)
        }
    } else {
        let e = if q + char_width(d[q]) <= d.len() {
            q + char_width(d[q])
        } else {
            d.len() as int
        };
        Ok((d.subrange(q, e), e))
    }
}

/// Puts `acc` in front of the text of a successful read.
pub open spec fn prefixed_at(acc: Seq<u8>, r: Result<(Seq<u8>, int), Error>) -> Result<
    (Seq<u8>, int),
    Error,
> {
    match r {
        Ok((v, q)) => Ok((acc + v, q)),
        Err(e) => Err(e),
    }
}

/// The content of a quoted string from `i` on, up to the closing `quote`, with its escapes
/// resolved, and the position after the closing quote.
pub open spec fn string_content(d: Seq<u8>, i: int, quote: u8) -> Result<(Seq<u8>, int), Error>
    decreases d.len() - i,
{
    if i < 0 || i >= d.len() {
        Err(Error::UnexpectedEndOfStream)
    } else if d[i] == 92 {
        match escape_at(d, i) {
            Err(e) => Err(e),
            Ok((b, j)) => if i < j <= d.len() {
                prefixed_at(b, string_content(d, j, quote))
            } else {
                Err(Error::InvalidValue)
            },
        }
    } else if d[i] == quote {
        Ok((seq![], i + 1))
    } else {
        prefixed_at(seq![d[i]], string_content(d, i + 1, quote))
    }
}

/// A quoted string at `p`, in `"` or `'`.
pub open spec fn string_at(d: Seq<u8>, p: int) -> Result<(Seq<u8>, int), Error> {
    if p < 0 || p >= d.len() {
        Err(Error::UnexpectedEndOfStream)
    } else if d[p] != 34 && d[p] != 39 {
        Err(Error::UnexpectedData(p as usize))
    } else {
        string_content(d, p + 1, d[p])
    }
}

proof fn lemma_escape_progress(d: Seq<u8>, p: int)
    requires
        0 <= p <= d.len(),
    ensures
        escape_at(d, p) matches Ok((b, j)) ==> p < j <= d.len(),
{
    if p + 1 < d.len() {
        lemma_hex_run_end(d, p + 1, p + 1);
    }
}

impl<'a> Stream<'a> {
    /// Parses an identifier after spaces and resolves its escapes.
    ///
    /// Fails with `UnexpectedEndOfStream` at the end, with the error of a bad escape, and
    /// with `InvalidIdent` where no identifier or a lone `-` stands.
    pub fn parse_ident(&mut self) -> (r: Result<Vec<u8>, Error>)
        ensures
            final(self).data() == old(self).data(),
            final(self).wf(),
            match ident_at(old(self).data(), old(self).cursor()).0 {
                Ok(v) => r is Ok && r->Ok_0@ == v && final(self).cursor() == ident_at(
                    old(self).data(),
                    old(self).cursor(),
                ).1,
                Err(e) => r == Err::<Vec<u8>, Error>(e),
            },
    {
        self.skip_spaces();
        let ghost d = self.data();
        let start = self.pos();
        if self.at_end() {
            return Err(Error::UnexpectedEndOfStream);
        }
        let first = self.curr_byte_unchecked();
        if is_ident_start(first) {
            self.advance(1);
            proof {
                lemma_name_end(d, start + 1);
            }
            while !self.at_end() && is_name_char(self.curr_byte_unchecked())
                invariant
                    self.wf(),
                    self.data() == d,
                    start + 1 <= self.cursor(),
                    name_end(d, self.cursor()) == name_end(d, start + 1),
                decreases d.len() - self.cursor(),
            {
                self.advance(1);
            }
        }
        let s = self.slice_back(start);
        let escaped = escape_string(s)?;
        if s.len() == 0 || (s.len() == 1 && s[0] == '-' as u8) {
            proof {
                if s.len() == 1 {
                    assert(s@ =~= seq![45u8]);
                }
            }
            return Err(Error::InvalidIdent);
        }
        proof {
            if s@ == seq![45u8] {
                assert(s@[0] == 45);
            }
        }
        Ok(escaped)
    }

    /// Parses an escape, `\` and up to six hexadecimal digits or one other character, and
    /// returns the UTF-8 bytes of its character.
    pub fn parse_escape(&mut self) -> (r: Result<Vec<u8>, Error>)
        ensures
            final(self).data() == old(self).data(),
            final(self).wf(),
            match escape_at(old(self).data(), old(self).cursor()) {
                Ok((b, j)) => r is Ok && r->Ok_0@ == b && final(self).cursor() == j,
                Err(e) => r == Err::<Vec<u8>, Error>(e),
            },
    {
        let p = self.pos();
        let ghost d = self.data();
        let len = self.as_bytes().len();
        if !self.is_curr_byte_eq('\\' as u8) {
            return Err(Error::InvalidValue);
        }
        let n = self.next_byte()?;
        if n == '\n' as u8 || n == '\r' as u8 {
            return Err(Error::InvalidValue);
        }
        self.advance(1);
        let mut out: Vec<u8> = Vec::new();
        if is_hex_digit(n) {
            let (e, v) = read_hex(self.as_bytes(), p + 1);
            if !check_scalar(v) {
                return Err(Error::InvalidValue);
            }
            push_scalar(&mut out, v);
            self.advance(e - (p + 1));
            if !self.at_end() && is_space(self.curr_byte_unchecked()) {
                self.advance(1);
            }
        } else {
            let w: usize = if n < 0xC0 {
                1
            } else if n < 0xE0 {
                2
            } else if n < 0xF0 {
                3
            } else {
                4
            };
            let rest = self.as_bytes().len() - (p + 1);
            let take = if w <= rest {
                w
            } else {
                rest
            };
            self.advance(take);
            let bytes = self.slice_back(p + 1);
            crate::error::push_bytes(&mut out, bytes);
        }
        Ok(out)
    }

    /// Parses a string quoted with `"` or `'` and resolves its escapes.
    ///
    /// Fails with `UnexpectedData` (at the byte offset) where no quote stands, and with
    /// `UnexpectedEndOfStream` where the text ends before the closing quote.
    pub fn parse_string(&mut self) -> (r: Result<Vec<u8>, Error>)
        ensures
            final(self).data() == old(self).data(),
            final(self).wf(),
            match string_at(old(self).data(), old(self).cursor()) {
                Ok((v, q)) => r is Ok && r->Ok_0@ == v && final(self).cursor() == q,
                Err(e) => r == Err::<Vec<u8>, Error>(e),
            },
    {
        let p = self.pos();
        let ghost d = self.data();
        let quote = self.curr_byte()?;
        if quote != '"' as u8 && quote != '\'' as u8 {
            return Err(Error::UnexpectedData(p));
        }
        self.advance(1);
        let mut out: Vec<u8> = Vec::new();
        loop
            invariant_except_break
                string_at(d, p as int) == prefixed_at(out@, string_content(d, self.cursor(), quote)),
            invariant
                self.wf(),
                self.data() == d,
                d == old(self).data(),
                p == old(self).cursor(),
                p < d.len(),
                quote == d[p as int],
            ensures
                string_at(d, p as int) == Ok::<(Seq<u8>, int), Error>((out@, self.cursor())),
            decreases d.len() - self.cursor(),
        {
            let ghost i = self.cursor();
            let ghost before = out@;
            let c = self.curr_byte()?;
            if c == '\\' as u8 {
                proof {
                    lemma_escape_progress(d, i);
                }
                let b = self.parse_escape()?;
                let mut k: usize = 0;
                let ghost acc = out@;
                while k < b.len()
                    invariant
                        k <= b@.len(),
                        out@ == acc + b@.subrange(0, k as int),
                    decreases b@.len() - k,
                {
                    out.push(b[k]);
                    k = k + 1;
                    assert(b@.subrange(0, k as int) =~= b@.subrange(0, k - 1) + seq![b@[k - 1]]);
                }
                assert(b@.subrange(0, b@.len() as int) =~= b@);
                proof {
                    match string_content(d, self.cursor(), quote) {
                        Ok((v, q)) => assert(before + (b@ + v) =~= out@ + v),
                        Err(_) => {},
                    }
                }
            } else if c == quote {
                self.advance(1);
                assert(before + Seq::<u8>::empty() =~= before);
                break;
            } else {
                out.push(c);
                self.advance(1);
                proof {
                    match string_content(d, self.cursor(), quote) {
                        Ok((v, q)) => assert(before + (seq![c] + v) =~= out@ + v),
                        Err(_) => {},
                    }
                }
            }
        }
        Ok(out)
    }
}

/// Checks if a byte may start an identifier.
pub fn is_ident_start(c: u8) -> (r: bool)
    ensures
        r == spec_is_ident_start(c),
{
    c == '-' as u8 || c == '_' as u8 || is_letter(c) || c == '\\' as u8 || c >= 128
}

/// Checks if a byte may continue an identifier.
pub fn is_name_char(c: u8) -> (r: bool)
    ensures
        r == spec_is_name_char(c),
{
    is_ident_start(c) || is_digit(c)
}

} // verus!
