use vstd::prelude::*;
use vstd::math::min;
use vstd::utf8::{
    decode_first_scalar, is_scalar, length_of_first_scalar, valid_first_scalar,
};
use vstd::string::StringSliceAdditionalSpecFns;

use crate::error::{copy_bytes, is_invalid_char, is_invalid_string, Error};

verus! {

/// `+` or `-`.
pub open spec fn spec_is_sign(c: u8) -> bool {
    c == 43 || c == 45
}

/// `[0-9]`.
pub open spec fn spec_is_digit(c: u8) -> bool {
    48 <= c <= 57
}

/// `[ \t\n\r]`.
pub open spec fn spec_is_space(c: u8) -> bool {
    c == 32 || c == 9 || c == 10 || c == 13
}

/// `[A-Za-z]`.
pub open spec fn spec_is_letter(c: u8) -> bool {
    (65 <= c <= 90) || (97 <= c <= 122)
}

/// A byte that continues a multi-byte UTF-8 sequence.
pub open spec fn is_continuation(c: u8) -> bool {
    128 <= c < 192
}

/// Checks if a byte is a numeric sign.
pub fn is_sign(c: u8) -> (r: bool)
    ensures
        r == spec_is_sign(c),
{
    c == '+' as u8 || c == '-' as u8
}

/// Checks if a byte is a digit.
pub fn is_digit(c: u8) -> (r: bool)
    ensures
        r == spec_is_digit(c),
{
    '0' as u8 <= c && c <= '9' as u8
}

/// Checks if a byte is a space.
pub fn is_space(c: u8) -> (r: bool)
    ensures
        r == spec_is_space(c),
{
    c == ' ' as u8 || c == '\t' as u8 || c == '\n' as u8 || c == '\r' as u8
}

/// Checks if a byte is an ASCII letter.
pub fn is_letter(c: u8) -> (r: bool)
    ensures
        r == spec_is_letter(c),
{
    ('A' as u8 <= c && c <= 'Z' as u8) || ('a' as u8 <= c && c <= 'z' as u8)
}

/// How many characters start in `data[0..end]`.
pub open spec fn char_starts(data: Seq<u8>, end: int) -> nat
    decreases end,
{
    if end <= 0 {
        0
    } else {
        char_starts(data, end - 1) + if is_continuation(data[end - 1]) {
            0nat
        } else {
            1nat
        }
    }
}

/// The 1-based character position of the byte offset `byte_pos` (clamped to the text),
/// saturated at the largest `usize`.
pub open spec fn char_pos(data: Seq<u8>, byte_pos: int) -> int {
    let end = if byte_pos < data.len() {
        byte_pos
    } else {
        data.len() as int
    };
    let n: int = 1 + char_starts(data, end) as int;
    if n > usize::MAX {
        usize::MAX as int
    } else {
        n
    }
}

/// The value of a run of decimal digits.
pub open spec fn digits_value(d: Seq<u8>) -> int
    decreases d.len(),
{
    if d.len() == 0 {
        0
    } else {
        10 * digits_value(d.drop_last()) + (d.last() - 48)
    }
}

/// The length of the longest prefix of `data[from..]` whose bytes are all digits.
pub open spec fn digits_end(data: Seq<u8>, from: int) -> int
    decreases data.len() - from,
{
    if from < 0 || from >= data.len() || !spec_is_digit(data[from]) {
        from
    } else {
        digits_end(data, from + 1)
    }
}

/// The position of the first non-space byte at or after `from`.
pub open spec fn spaces_end(data: Seq<u8>, from: int) -> int
    decreases data.len() - from,
{
    if from < 0 || from >= data.len() || !spec_is_space(data[from]) {
        from
    } else {
        spaces_end(data, from + 1)
    }
}

pub proof fn lemma_digits_end(data: Seq<u8>, from: int)
    requires
        0 <= from <= data.len(),
    ensures
        from <= digits_end(data, from) <= data.len(),
        forall|k: int| from <= k < digits_end(data, from) ==> spec_is_digit(#[trigger] data[k]),
        digits_end(data, from) == data.len() || !spec_is_digit(data[digits_end(data, from)]),
    decreases data.len() - from,
{
    if from < data.len() && spec_is_digit(data[from]) {
        lemma_digits_end(data, from + 1);
    }
}

pub proof fn lemma_spaces_end(data: Seq<u8>, from: int)
    requires
        0 <= from <= data.len(),
    ensures
        from <= spaces_end(data, from) <= data.len(),
        forall|k: int| from <= k < spaces_end(data, from) ==> spec_is_space(#[trigger] data[k]),
        spaces_end(data, from) == data.len() || !spec_is_space(data[spaces_end(data, from)]),
    decreases data.len() - from,
{
    if from < data.len() && spec_is_space(data[from]) {
        lemma_spaces_end(data, from + 1);
    }
}

/// A position-advancing view over a text.
///
/// The position only grows, and never passes the end of the text.
#[derive(Clone, Copy, Debug)]
pub struct Stream<'a> {
    text: &'a [u8],
    pos: usize,
}

impl<'a> From<&'a str> for Stream<'a> {
    fn from(text: &'a str) -> (r: Stream<'a>)
        ensures
            r.data() == text.spec_bytes(),
            r.cursor() == 0,
            r.wf(),
    {
        Stream { text: text.as_bytes(), pos: 0 }
    }
}

impl<'a> vstd::std_specs::convert::FromSpecImpl<&'a str> for Stream<'a> {
    open spec fn obeys_from_spec() -> bool {
        false
    }

    open spec fn from_spec(v: &'a str) -> Stream<'a> {
        arbitrary()
    }
}

impl<'a> Stream<'a> {
    /// The position never passes the end of the text.
    #[verifier::type_invariant]
    spec fn inv(&self) -> bool {
        self.pos <= self.text@.len()
    }

    /// The bytes of the text.
    pub closed spec fn data(&self) -> Seq<u8> {
        self.text@
    }

    /// The current byte offset.
    pub closed spec fn cursor(&self) -> int {
        self.pos as int
    }

    /// The position lies within the text.
    pub open spec fn wf(&self) -> bool {
        0 <= self.cursor() <= self.data().len()
    }

    /// The stream is at the end of its text.
    pub open spec fn spec_at_end(&self) -> bool {
        self.cursor() >= self.data().len()
    }

    /// The byte at the current position.
    pub open spec fn spec_curr(&self) -> u8 {
        self.data()[self.cursor()]
    }

    /// Creates a stream over raw bytes.
    pub fn from_bytes(text: &'a [u8]) -> (r: Stream<'a>)
        ensures
            r.data() == text@,
            r.cursor() == 0,
            r.wf(),
    {
        Stream { text, pos: 0 }
    }

    /// The whole text.
    pub fn as_bytes(&self) -> (r: &'a [u8])
        ensures
            r@ == self.data(),
    {
        self.text
    }

    /// Returns the current position in bytes, which lies within the text.
    pub fn pos(&self) -> (r: usize)
        ensures
            r == self.cursor(),
            self.wf(),
    {
        proof {
            use_type_invariant(&*self);
        }
        self.pos
    }

    /// Calculates the current position in characters, counted from 1.
    pub fn calc_char_pos(&self) -> (r: usize)
        ensures
            r == char_pos(self.data(), self.cursor()),
    {
        proof {
            use_type_invariant(&*self);
        }
        self.calc_char_pos_at(self.pos)
    }

    /// Calculates the position in characters, counted from 1, of the byte offset `byte_pos`.
    pub fn calc_char_pos_at(&self, byte_pos: usize) -> (r: usize)
        ensures
            r == char_pos(self.data(), byte_pos as int),
    {
        proof {
            use_type_invariant(&*self);
        }
        let end: usize = if byte_pos < self.text.len() {
            byte_pos
        } else {
            self.text.len()
        };
        let mut count: usize = 0;
        let mut i: usize = 0;
        while i < end
            invariant
                end <= self.text@.len(),
                i <= end,
                count == char_starts(self.text@, i as int),
                count <= i,
            decreases end - i,
        {
            let c = self.text[i];
            if !(128 <= c && c < 192) {
                count = count + 1;
            }
            i = i + 1;
        }
        if count < usize::MAX {
            count + 1
        } else {
            count
        }
    }

    /// Moves the position to the end of the text.
    ///
    /// Used to stop parsing after an error.
    pub fn jump_to_end(&mut self)
        ensures
            final(self).data() == old(self).data(),
            final(self).cursor() == old(self).data().len(),
            final(self).wf(),
    {
        proof {
            use_type_invariant(&*self);
        }
        self.pos = self.text.len();
    }

    /// Checks if the stream has reached the end of its text.
    pub fn at_end(&self) -> (r: bool)
        ensures
            r == self.spec_at_end(),
    {
        proof {
            use_type_invariant(&*self);
        }
        self.pos >= self.text.len()
    }

    /// Returns the byte at the current position.
    ///
    /// Fails with `UnexpectedEndOfStream` at the end.
    pub fn curr_byte(&self) -> (r: Result<u8, Error>)
        ensures
            self.spec_at_end() ==> r == Err::<u8, Error>(Error::UnexpectedEndOfStream),
            !self.spec_at_end() ==> r == Ok::<u8, Error>(self.spec_curr()),
    {
        proof {
            use_type_invariant(&*self);
        }
        if self.at_end() {
            return Err(Error::UnexpectedEndOfStream);
        }
        Ok(self.curr_byte_unchecked())
    }

    /// Returns the byte at the current position, which must not be the end.
    pub fn curr_byte_unchecked(&self) -> (r: u8)
        requires
            !self.spec_at_end(),
        ensures
            r == self.spec_curr(),
    {
        proof {
            use_type_invariant(&*self);
        }
        self.text[self.pos]
    }

    /// Checks that the current byte equals `c`; `false` at the end.
    pub fn is_curr_byte_eq(&self, c: u8) -> (r: bool)
        ensures
            r == (!self.spec_at_end() && self.spec_curr() == c),
    {
        proof {
            use_type_invariant(&*self);
        }
        if !self.at_end() {
            self.curr_byte_unchecked() == c
        } else {
            false
        }
    }

    /// Returns the byte after the current one.
    ///
    /// Fails with `UnexpectedEndOfStream` when there is none.
    pub fn next_byte(&self) -> (r: Result<u8, Error>)
        ensures
            self.cursor() + 1 >= self.data().len() ==> r == Err::<u8, Error>(
                Error::UnexpectedEndOfStream,
            ),
            self.cursor() + 1 < self.data().len() ==> r == Ok::<u8, Error>(
                self.data()[self.cursor() + 1],
            ),
    {
        proof {
            use_type_invariant(&*self);
        }
        if self.pos >= self.text.len() || self.pos + 1 >= self.text.len() {
            return Err(Error::UnexpectedEndOfStream);
        }
        Ok(self.text[self.pos + 1])
    }

    /// Advances by `n` bytes, which must not pass the end.
    pub fn advance(&mut self, n: usize)
        requires
            old(self).cursor() + n <= old(self).data().len(),
        ensures
            final(self).data() == old(self).data(),
            final(self).cursor() == old(self).cursor() + n,
            final(self).wf(),
    {
        proof {
            use_type_invariant(&*self);
        }
        let len = self.text.len();
        self.pos = self.pos + n;
    }

    /// Skips spaces: `' '`, `\t`, `\n` and `\r`.
    pub fn skip_spaces(&mut self)
        ensures
            final(self).data() == old(self).data(),
            final(self).cursor() == spaces_end(old(self).data(), old(self).cursor()),
            final(self).wf(),
    {
        proof {
            use_type_invariant(&*self);
        }
        proof {
            lemma_spaces_end(self.text@, self.pos as int);
        }
        while !self.at_end() && is_space(self.curr_byte_unchecked())
            invariant
                self.wf(),
                self.data() == old(self).data(),
                old(self).cursor() <= self.cursor(),
                spaces_end(self.data(), self.cursor()) == spaces_end(
                    old(self).data(),
                    old(self).cursor(),
                ),
            decreases self.data().len() - self.cursor(),
        {
            self.advance(1);
        }
    }

    /// Checks that the text at the current position starts with `text`.
    pub fn starts_with(&self, text: &[u8]) -> (r: bool)
        ensures
            r == (self.cursor() + text@.len() <= self.data().len() && self.data().subrange(
                self.cursor(),
                self.cursor() + text@.len(),
            ) == text@),
    {
        proof {
            use_type_invariant(&*self);
        }
        if text.len() > self.text.len() - self.pos {
            return false;
        }
        let len = self.text.len();
        let mut i: usize = 0;
        while i < text.len()
            invariant
                self.wf(),
                len == self.text@.len(),
                self.pos + text@.len() <= self.text@.len(),
                i <= text@.len(),
                forall|k: int| 0 <= k < i ==> self.text@[self.pos + k] == #[trigger] text@[k],
            decreases text@.len() - i,
        {
            if self.text[self.pos + i] != text[i] {
                assert(self.data().subrange(self.cursor(), self.cursor() + text@.len())[i as int]
                    != text@[i as int]);
                return false;
            }
            i = i + 1;
        }
        assert(self.data().subrange(self.cursor(), self.cursor() + text@.len()) =~= text@);
        true
    }

    /// Consumes the current byte if it equals `c`.
    ///
    /// Fails with `UnexpectedEndOfStream` at the end and with `InvalidChar` on another byte;
    /// the position is then kept.
    pub fn consume_byte(&mut self, c: u8) -> (r: Result<(), Error>)
        ensures
            final(self).data() == old(self).data(),
            final(self).wf(),
            old(self).spec_at_end() ==> r == Err::<(), Error>(Error::UnexpectedEndOfStream)
                && final(self).cursor() == old(self).cursor(),
            !old(self).spec_at_end() && old(self).spec_curr() == c ==> r is Ok
                && final(self).cursor() == old(self).cursor() + 1,
            !old(self).spec_at_end() && old(self).spec_curr() != c ==> final(self).cursor()
                == old(self).cursor() && r is Err && is_invalid_char(
                r->Err_0,
                seq![old(self).spec_curr(), c],
                char_pos(old(self).data(), old(self).cursor()),
            ),
    {
        proof {
            use_type_invariant(&*self);
        }
        let b = self.curr_byte()?;
        if b != c {
            let mut v: Vec<u8> = Vec::new();
            v.push(b);
            v.push(c);
            assert(v@ =~= seq![b, c]);
            return Err(Error::InvalidChar(v, self.calc_char_pos()));
        }
        self.advance(1);
        Ok(())
    }

    /// Consumes `text` if the stream starts with it.
    ///
    /// Fails with `UnexpectedEndOfStream` at the end and with `InvalidString` (the bytes
    /// that stand there, then `text`) otherwise; the position is then kept.
    pub fn consume_string(&mut self, text: &[u8]) -> (r: Result<(), Error>)
        ensures
            final(self).data() == old(self).data(),
            final(self).wf(),
            r is Ok <==> !old(self).spec_at_end() && old(self).cursor() + text@.len()
                <= old(self).data().len() && old(self).data().subrange(
                old(self).cursor(),
                old(self).cursor() + text@.len(),
            ) == text@,
            r is Ok ==> final(self).cursor() == old(self).cursor() + text@.len(),
            r is Err ==> final(self).cursor() == old(self).cursor(),
            old(self).spec_at_end() ==> r == Err::<(), Error>(Error::UnexpectedEndOfStream),
            !old(self).spec_at_end() && r is Err ==> is_invalid_string(
                r->Err_0,
                seq![
                    old(self).data().subrange(
                        old(self).cursor(),
                        old(self).cursor() + min(
                            text@.len() as int,
                            old(self).data().len() - old(self).cursor(),
                        ),
                    ),
                    text@,
                ],
                char_pos(old(self).data(), old(self).cursor()),
            ),
    {
        proof {
            use_type_invariant(&*self);
        }
        if self.at_end() {
            return Err(Error::UnexpectedEndOfStream);
        }
        if !self.starts_with(text) {
            let rest = self.text.len() - self.pos;
            let len = if text.len() < rest {
                text.len()
            } else {
                rest
            };
            let actual = copy_bytes(&self.text[self.pos..self.pos + len]);
            let expected = copy_bytes(text);
            let mut v: Vec<Vec<u8>> = Vec::new();
            v.push(actual);
            v.push(expected);
            assert(v@.map_values(|t: Vec<u8>| t@) =~= seq![actual@, text@]);
            return Err(Error::InvalidString(v, self.calc_char_pos()));
        }
        self.advance(text.len());
        Ok(())
    }

    /// Slices the text from `pos` to the current position.
    pub fn slice_back(&self, pos: usize) -> (r: &'a [u8])
        requires
            pos <= self.cursor(),
        ensures
            r@ == self.data().subrange(pos as int, self.cursor()),
    {
        proof {
            use_type_invariant(&*self);
        }
        &self.text[pos..self.pos]
    }

    /// Slices the text from the current position to the end.
    pub fn slice_tail(&self) -> (r: &'a [u8])
        ensures
            r@ == self.data().subrange(self.cursor(), self.data().len() as int),
    {
        proof {
            use_type_invariant(&*self);
        }
        &self.text[self.pos..self.text.len()]
    }

    /// Skips digits.
    pub fn skip_digits(&mut self)
        ensures
            final(self).data() == old(self).data(),
            final(self).cursor() == digits_end(old(self).data(), old(self).cursor()),
            final(self).wf(),
    {
        proof {
            use_type_invariant(&*self);
        }
        proof {
            lemma_digits_end(self.text@, self.pos as int);
        }
        while !self.at_end() && is_digit(self.curr_byte_unchecked())
            invariant
                self.wf(),
                self.data() == old(self).data(),
                old(self).cursor() <= self.cursor(),
                digits_end(self.data(), self.cursor()) == digits_end(
                    old(self).data(),
                    old(self).cursor(),
                ),
            decreases self.data().len() - self.cursor(),
        {
            self.advance(1);
        }
    }

    /// Skips a single `,` if one stands at the current position.
    pub fn parse_list_separator(&mut self)
        ensures
            final(self).data() == old(self).data(),
            final(self).wf(),
            final(self).cursor() == old(self).cursor() + if !old(self).spec_at_end()
                && old(self).spec_curr() == 44 {
                1int
            } else {
                0int
            },
    {
        proof {
            use_type_invariant(&*self);
        }
        if self.is_curr_byte_eq(',' as u8) {
            self.advance(1);
        }
    }
}


/// What `parse_integer` reads from `d`, once the spaces before `from` are skipped:
/// the result, and the position after the digits.
pub open spec fn integer_at(d: Seq<u8>, from: int) -> (Result<i32, Error>, int) {
    let start = spaces_end(d, from);
    let has_sign = start < d.len() && spec_is_sign(d[start]);
    let ds = if has_sign {
        start + 1
    } else {
        start
    };
    let de = digits_end(d, ds);
    let magnitude = digits_value(d.subrange(ds, de));
    let v = if has_sign && d[start] == 45 {
        -magnitude
    } else {
        magnitude
    };
    let bad = Err::<i32, Error>(Error::InvalidNumber(char_pos(d, start) as usize));
    if start >= d.len() {
        (bad, start)
    } else if ds >= d.len() {
        (Err(Error::UnexpectedEndOfStream), ds)
    } else if !spec_is_digit(d[ds]) {
        (bad, ds)
    } else if i32::MIN <= v <= i32::MAX {
        (Ok(v as i32), de)
    } else {
        (bad, de)
    }
}

/// Where a number that starts at `start` ends, if its text is a well-formed number:
/// an optional sign, digits with an optional fraction (or a fraction alone), and an
/// optional exponent. An `e` followed by `m` or `x` starts a unit, not an exponent.
pub open spec fn number_end(d: Seq<u8>, start: int) -> Option<int> {
    let s1 = if start < d.len() && spec_is_sign(d[start]) {
        start + 1
    } else {
        start
    };
    if start >= d.len() || s1 >= d.len() || !(spec_is_digit(d[s1]) || d[s1] == 46) {
        None
    } else {
        let s2 = digits_end(d, s1);
        let has_dot = s2 < d.len() && d[s2] == 46;
        let s3 = if has_dot {
            digits_end(d, s2 + 1)
        } else {
            s2
        };
        let mantissa_ok = s2 > s1 || s3 > s2 + 1;
        let has_e = s3 < d.len() && (d[s3] == 101 || d[s3] == 69);
        if !has_e {
            if mantissa_ok {
                Some(s3)
            } else {
                None
            }
        } else if s3 + 1 >= d.len() {
            None
        } else if d[s3 + 1] == 109 || d[s3 + 1] == 120 {
            if mantissa_ok {
                Some(s3)
            } else {
                None
            }
        } else {
            let s4 = s3 + 1;
            let s5 = if spec_is_sign(d[s4]) {
                digits_end(d, s4 + 1)
            } else {
                digits_end(d, s4)
            };
            let exp_digits = if spec_is_sign(d[s4]) {
                s5 > s4 + 1
            } else {
                s5 > s4
            };
            if mantissa_ok && exp_digits {
                Some(s5)
            } else {
                None
            }
        }
    }
}

pub proof fn lemma_digits_value_grows(d: Seq<u8>, j: int, k: int)
    requires
        0 <= j <= k <= d.len(),
        forall|i: int| 0 <= i < d.len() ==> spec_is_digit(#[trigger] d[i]),
    ensures
        0 <= digits_value(d.subrange(0, j)) <= digits_value(d.subrange(0, k)),
    decreases k,
{
    if k > 0 {
        assert(d.subrange(0, k).drop_last() =~= d.subrange(0, k - 1));
        if j < k {
            lemma_digits_value_grows(d, j, k - 1);
        } else {
            lemma_digits_value_grows(d, k - 1, k - 1);
        }
        assert(spec_is_digit(d[k - 1]));
    }
}


/// The position after the spaces and the optional comma that follow a list item ending at `p`.
pub open spec fn list_separator_end(d: Seq<u8>, p: int) -> int {
    let q = spaces_end(d, p);
    if q < d.len() && d[q] == 44 {
        q + 1
    } else {
        q
    }
}

impl<'a> Stream<'a> {
    /// Parses an integer: an optional sign and decimal digits, after spaces.
    ///
    /// Fails with `InvalidNumber` (at the start of the number) on text that is not an
    /// integer or on a value outside `i32`.
    pub fn parse_integer(&mut self) -> (r: Result<i32, Error>)
        ensures
            final(self).data() == old(self).data(),
            final(self).wf(),
            r == integer_at(old(self).data(), old(self).cursor()).0,
            r is Ok ==> final(self).cursor() == integer_at(old(self).data(), old(self).cursor()).1,
    {
        proof {
            use_type_invariant(&*self);
        }
        self.skip_spaces();
        if self.at_end() {
            return Err(Error::InvalidNumber(self.calc_char_pos()));
        }
        let start = self.pos();
        let c = self.curr_byte()?;
        let negative = c == '-' as u8;
        if is_sign(c) {
            self.advance(1);
        }
        let b = self.curr_byte()?;
        if !is_digit(b) {
            return Err(Error::InvalidNumber(self.calc_char_pos_at(start)));
        }
        let ds = self.pos();
        self.skip_digits();
        let de = self.pos();
        let ghost d = self.data();
        let ghost digits = d.subrange(ds as int, de as int);
        proof {
            lemma_digits_end(d, ds as int);
            assert forall|i: int| 0 <= i < digits.len() implies spec_is_digit(#[trigger] digits[i]) by {
                assert(digits[i] == d[ds + i]);
            }
        }
        let mut acc: u64 = 0;
        let mut i: usize = ds;
        let mut overflow = false;
        while i < de
            invariant
                self.wf(),
                self.data() == d,
                ds <= i <= de,
                de as int == digits_end(d, ds as int),
                de <= d.len(),
                digits == d.subrange(ds as int, de as int),
                forall|k: int| 0 <= k < digits.len() ==> spec_is_digit(#[trigger] digits[k]),
                !overflow ==> acc == digits_value(digits.subrange(0, i - ds)),
                !overflow ==> acc <= 2147483648,
                overflow ==> digits_value(digits.subrange(0, i - ds)) > 2147483648,
            decreases de - i,
        {
            let ghost before = digits.subrange(0, i - ds);
            let ghost after = digits.subrange(0, i + 1 - ds);
            assert(after.drop_last() =~= before);
            assert(after.last() == d[i as int]);
            let digit = (self.text[i] - 48u8) as u64;
            if !overflow {
                acc = acc * 10 + digit;
                if acc > 2147483648 {
                    overflow = true;
                }
            } else {
                proof {
                    lemma_digits_value_grows(digits, i - ds, i + 1 - ds);
                    assert(digits_value(after) == 10 * digits_value(before) + (d[i as int] - 48));
                }
            }
            i = i + 1;
        }
        proof {
            assert(digits.subrange(0, de - ds) =~= digits);
        }
        if overflow || (!negative && acc > 2147483647) {
            return Err(Error::InvalidNumber(self.calc_char_pos_at(start)));
        }
        let v: i64 = if negative {
            -(acc as i64)
        } else {
            acc as i64
        };
        Ok(v as i32)
    }

    /// Parses an integer from a list: the integer, then spaces and an optional comma.
    pub fn parse_list_integer(&mut self) -> (r: Result<i32, Error>)
        ensures
            final(self).data() == old(self).data(),
            final(self).wf(),
            old(self).spec_at_end() ==> r == Err::<i32, Error>(Error::UnexpectedEndOfStream),
            !old(self).spec_at_end() ==> r == integer_at(old(self).data(), old(self).cursor()).0,
            r is Ok ==> final(self).cursor() == list_separator_end(
                old(self).data(),
                integer_at(old(self).data(), old(self).cursor()).1,
            ),
    {
        proof {
            use_type_invariant(&*self);
        }
        if self.at_end() {
            return Err(Error::UnexpectedEndOfStream);
        }
        let n = self.parse_integer()?;
        self.skip_spaces();
        self.parse_list_separator();
        Ok(n)
    }

    /// Reads the text of a number, after spaces, without converting it.
    ///
    /// Fails with `InvalidNumber` (at the start of the number) when the text there is not a
    /// well-formed number.
    pub fn scan_number(&mut self) -> (r: Result<&'a [u8], Error>)
        ensures
            final(self).data() == old(self).data(),
            final(self).wf(),
            ({
                let d = old(self).data();
                let start = spaces_end(d, old(self).cursor());
                match number_end(d, start) {
                    Some(end) => r is Ok && r->Ok_0@ == d.subrange(start, end) && final(self).cursor()
                        == end,
                    None => r == Err::<&'a [u8], Error>(
                        Error::InvalidNumber(char_pos(d, start) as usize),
                    ),
                }
            }),
    {
        proof {
            use_type_invariant(&*self);
        }
        self.skip_spaces();
        let ghost d = self.data();
        let start = self.pos();
        proof {
            lemma_spaces_end(d, old(self).cursor());
        }
        if self.at_end() {
            return Err(Error::InvalidNumber(self.calc_char_pos_at(start)));
        }
        if is_sign(self.curr_byte_unchecked()) {
            self.advance(1);
        }
        let s1 = self.pos();
        if self.at_end() {
            return Err(Error::InvalidNumber(self.calc_char_pos_at(start)));
        }
        let c = self.curr_byte_unchecked();
        if is_digit(c) {
            self.skip_digits();
        } else if c != '.' as u8 {
            return Err(Error::InvalidNumber(self.calc_char_pos_at(start)));
        }
        let s2 = self.pos();
        proof {
            lemma_digits_end(d, s1 as int);
        }
        if self.is_curr_byte_eq('.' as u8) {
            self.advance(1);
            self.skip_digits();
            proof {
                lemma_digits_end(d, s2 + 1);
            }
        }
        let s3 = self.pos();
        let mantissa_ok = s2 > s1 || s3 > s2 + 1;
        if self.is_curr_byte_eq('e' as u8) || self.is_curr_byte_eq('E' as u8) {
            let c2 = match self.next_byte() {
                Ok(c2) => c2,
                Err(_) => {
                    return Err(Error::InvalidNumber(self.calc_char_pos_at(start)));
                },
            };
            if c2 != 'm' as u8 && c2 != 'x' as u8 {
                self.advance(1);
                let s4 = self.pos();
                let signed = is_sign(self.curr_byte_unchecked());
                if signed {
                    self.advance(1);
                }
                self.skip_digits();
                let s5 = self.pos();
                proof {
                    if signed {
                        lemma_digits_end(d, s4 + 1);
                    } else {
                        lemma_digits_end(d, s4 as int);
                    }
                }
                let exp_digits = if signed {
                    s5 > s4 + 1
                } else {
                    s5 > s4
                };
                if !(mantissa_ok && exp_digits) {
                    return Err(Error::InvalidNumber(self.calc_char_pos_at(start)));
                }
                return Ok(self.slice_back(start));
            }
        }
        if !mantissa_ok {
            return Err(Error::InvalidNumber(self.calc_char_pos_at(start)));
        }
        Ok(self.slice_back(start))
    }

    /// Reads the text of a number from a list: the number, then spaces and an optional comma.
    pub fn scan_list_number(&mut self) -> (r: Result<&'a [u8], Error>)
        ensures
            final(self).data() == old(self).data(),
            final(self).wf(),
            old(self).spec_at_end() ==> r == Err::<&'a [u8], Error>(Error::UnexpectedEndOfStream),
            !old(self).spec_at_end() ==> ({
                let d = old(self).data();
                let start = spaces_end(d, old(self).cursor());
                match number_end(d, start) {
                    Some(end) => r is Ok && r->Ok_0@ == d.subrange(start, end) && final(self).cursor()
                        == list_separator_end(d, end),
                    None => r == Err::<&'a [u8], Error>(
                        Error::InvalidNumber(char_pos(d, start) as usize),
                    ),
                }
            }),
    {
        proof {
            use_type_invariant(&*self);
        }
        if self.at_end() {
            return Err(Error::UnexpectedEndOfStream);
        }
        let n = self.scan_number()?;
        self.skip_spaces();
        self.parse_list_separator();
        Ok(n)
    }
}


/// The first position at or after `from` that holds one of the bytes of `stops`, or the end.
pub open spec fn until_end(d: Seq<u8>, from: int, stops: Seq<u8>) -> int
    decreases d.len() - from,
{
    if from < 0 || from >= d.len() || stops.contains(d[from]) {
        from
    } else {
        until_end(d, from + 1, stops)
    }
}

pub proof fn lemma_until_end(d: Seq<u8>, from: int, stops: Seq<u8>)
    requires
        0 <= from <= d.len(),
    ensures
        from <= until_end(d, from, stops) <= d.len(),
        forall|k: int|
            from <= k < until_end(d, from, stops) ==> !stops.contains(#[trigger] d[k]),
        until_end(d, from, stops) == d.len() || stops.contains(d[until_end(d, from, stops)]),
    decreases d.len() - from,
{
    if from < d.len() && !stops.contains(d[from]) {
        lemma_until_end(d, from + 1, stops);
    }
}

/// The text at `p` starts with `kw`.
pub open spec fn keyword_at(d: Seq<u8>, p: int, kw: Seq<u8>) -> bool {
    0 <= p && p + kw.len() <= d.len() && d.subrange(p, p + kw.len()) == kw
}

impl<'a> Stream<'a> {
    /// Advances up to the first byte that is one of `stops`, or to the end.
    pub fn skip_until(&mut self, stops: &[u8])
        ensures
            final(self).data() == old(self).data(),
            final(self).wf(),
            final(self).cursor() == until_end(old(self).data(), old(self).cursor(), stops@),
    {
        proof {
            use_type_invariant(&*self);
        }
        proof {
            lemma_until_end(self.text@, self.pos as int, stops@);
        }
        while !self.at_end() && !contains_byte(stops, self.curr_byte_unchecked())
            invariant
                self.wf(),
                self.data() == old(self).data(),
                old(self).cursor() <= self.cursor(),
                until_end(self.data(), self.cursor(), stops@) == until_end(
                    old(self).data(),
                    old(self).cursor(),
                    stops@,
                ),
            decreases self.data().len() - self.cursor(),
        {
            self.advance(1);
        }
    }
}

/// Checks whether `b` is one of the bytes of `set`.
pub fn contains_byte(set: &[u8], b: u8) -> (r: bool)
    ensures
        r == set@.contains(b),
{
    let mut i: usize = 0;
    while i < set.len()
        invariant
            i <= set@.len(),
            forall|k: int| 0 <= k < i ==> set@[k] != b,
        decreases set@.len() - i,
    {
        if set[i] == b {
            return true;
        }
        i = i + 1;
    }
    false
}


impl<'a> Stream<'a> {
    /// Advances while `f` accepts the current byte.
    ///
    /// Every byte passed over was accepted; the byte where it stops, if any, was not.
    pub fn skip_bytes<F: Fn(u8) -> bool>(&mut self, f: F)
        requires
            forall|b: u8| f.requires((b,)),
        ensures
            final(self).data() == old(self).data(),
            final(self).wf(),
            old(self).cursor() <= final(self).cursor(),
            forall|k: int|
                old(self).cursor() <= k < final(self).cursor() ==> f.ensures(
                    (#[trigger] old(self).data()[k],),
                    true,
                ),
            final(self).spec_at_end() || f.ensures((final(self).spec_curr(),), false),
    {
        proof {
            use_type_invariant(&*self);
        }
        let ghost start = self.pos;
        while !self.at_end()
            invariant
                forall|b: u8| f.requires((b,)),
                self.wf(),
                self.data() == old(self).data(),
                start == old(self).cursor(),
                start <= self.cursor(),
                forall|k: int| start <= k < self.cursor() ==> f.ensures((#[trigger] self.data()[k],), true),
            decreases self.data().len() - self.cursor(),
        {
            let c = self.curr_byte_unchecked();
            if f(c) {
                self.advance(1);
            } else {
                return;
            }
        }
    }

    /// Advances while `f` accepts the current byte, and returns the bytes passed over.
    pub fn consume_bytes<F: Fn(u8) -> bool>(&mut self, f: F) -> (r: &'a [u8])
        requires
            forall|b: u8| f.requires((b,)),
        ensures
            final(self).data() == old(self).data(),
            final(self).wf(),
            old(self).cursor() <= final(self).cursor(),
            r@ == old(self).data().subrange(old(self).cursor(), final(self).cursor()),
            forall|k: int|
                old(self).cursor() <= k < final(self).cursor() ==> f.ensures(
                    (#[trigger] old(self).data()[k],),
                    true,
                ),
            final(self).spec_at_end() || f.ensures((final(self).spec_curr(),), false),
    {
        let start = self.pos();
        self.skip_bytes(f);
        self.slice_back(start)
    }
}


/// The character at `p`: its code point and its length in bytes. Fails with
/// `UnexpectedEndOfStream` at the end and with `InvalidValue` where the bytes there are not
/// the UTF-8 encoding of a character.
pub open spec fn char_at(d: Seq<u8>, p: int) -> Result<(u32, int), Error> {
    let rest = d.subrange(p, d.len() as int);
    if p < 0 || p >= d.len() {
        Err(Error::UnexpectedEndOfStream)
    } else if valid_first_scalar(rest) {
        Ok((decode_first_scalar(rest), length_of_first_scalar(rest)))
    } else {
        Err(Error::InvalidValue)
    }
}

/// Relies on `char::from_u32`, which gives the character of a code point and `None` for a
/// value that is no character.
#[verifier::external_body]
fn char_from_code_point(v: u32) -> (r: Option<char>)
    ensures
        r is Some <==> is_scalar(v),
        r matches Some(c) ==> c as u32 == v,
{
    char::from_u32(v)
}

/// Decodes the UTF-8 character at `p` of `b`: its code point and its length.
fn decode_char(b: &[u8], p: usize) -> (r: Option<(u32, usize)>)
    requires
        p < b@.len(),
    ensures
        ({
            let rest = b@.subrange(p as int, b@.len() as int);
            &&& r is Some <==> valid_first_scalar(rest)
            &&& r matches Some((v, n)) ==> v == decode_first_scalar(rest) && n
                == length_of_first_scalar(rest) && is_scalar(v)
        }),
{
    let ghost rest = b@.subrange(p as int, b@.len() as int);
    let n = b.len() - p;
    let b0 = b[p];
    assert(rest[0] == b0);
    if b0 <= 0x7f {
        let v = (b0 & 0x7F) as u32;
        assert(v <= 0x7f) by (bit_vector)
            requires
                v == (b0 & 0x7F) as u32,
        ;
        return Some((v, 1));
    }
    if 0xc0 <= b0 && b0 <= 0xdf {
        if n < 2 || !(0x80 <= b[p + 1] && b[p + 1] <= 0xbf) {
            return None;
        }
        let b1 = b[p + 1];
        assert(rest[1] == b1);
        let v = (((b0 & 0x1F) as u32) << 6) | ((b1 & 0x3f) as u32);
        assert(v <= 0x7ff) by (bit_vector)
            requires
                v == (((b0 & 0x1F) as u32) << 6) | ((b1 & 0x3f) as u32),
        ;
        if v < 0x80 {
            return None;
        }
        return Some((v, 2));
    }
    if 0xe0 <= b0 && b0 <= 0xef {
        if n < 3 || !(0x80 <= b[p + 1] && b[p + 1] <= 0xbf) || !(0x80 <= b[p + 2] && b[p + 2]
            <= 0xbf) {
            return None;
        }
        let b1 = b[p + 1];
        let b2 = b[p + 2];
        assert(rest[1] == b1);
        assert(rest[2] == b2);
        let v = (((b0 & 0x0F) as u32) << 12) | (((b1 & 0x3f) as u32) << 6) | ((b2 & 0x3f) as u32);
        assert(v <= 0xffff) by (bit_vector)
            requires
                v == (((b0 & 0x0F) as u32) << 12) | (((b1 & 0x3f) as u32) << 6) | ((b2 & 0x3f) as u32),
        ;
        if v < 0x800 || (0xD800 <= v && v <= 0xDFFF) {
            return None;
        }
        return Some((v, 3));
    }
    if 0xf0 <= b0 && b0 <= 0xf7 {
        if n < 4 || !(0x80 <= b[p + 1] && b[p + 1] <= 0xbf) || !(0x80 <= b[p + 2] && b[p + 2]
            <= 0xbf) || !(0x80 <= b[p + 3] && b[p + 3] <= 0xbf) {
            return None;
        }
        let b1 = b[p + 1];
        let b2 = b[p + 2];
        let b3 = b[p + 3];
        assert(rest[1] == b1);
        assert(rest[2] == b2);
        assert(rest[3] == b3);
        let v = (((b0 & 0x07) as u32) << 18) | (((b1 & 0x3f) as u32) << 12) | (((b2 & 0x3f) as u32)
            << 6) | ((b3 & 0x3f) as u32);
        if v < 0x10000 || v > 0x10ffff {
            return None;
        }
        return Some((v, 4));
    }
    None
}

impl<'a> Stream<'a> {
    /// Returns the character at the current position.
    ///
    /// Fails with `UnexpectedEndOfStream` at the end and with `InvalidValue` where the bytes
    /// there are not the UTF-8 encoding of a character (a stream made from a `str` always
    /// holds characters).
    pub fn curr_char(&self) -> (r: Result<char, Error>)
        ensures
            match char_at(self.data(), self.cursor()) {
                Ok((v, n)) => r is Ok && r->Ok_0 as u32 == v,
                Err(e) => r == Err::<char, Error>(e),
            },
    {
        let p = self.pos();
        if self.at_end() {
            return Err(Error::UnexpectedEndOfStream);
        }
        match decode_char(self.as_bytes(), p) {
            Some((v, _)) => match char_from_code_point(v) {
                Some(c) => Ok(c),
                None => Err(Error::InvalidValue),
            },
            None => Err(Error::InvalidValue),
        }
    }

    /// Consumes the character at the current position and returns it.
    ///
    /// Fails as `curr_char` does, keeping the position.
    pub fn consume_char(&mut self) -> (r: Result<char, Error>)
        ensures
            final(self).data() == old(self).data(),
            final(self).wf(),
            match char_at(old(self).data(), old(self).cursor()) {
                Ok((v, n)) => r is Ok && r->Ok_0 as u32 == v && final(self).cursor()
                    == old(self).cursor() + n,
                Err(e) => r == Err::<char, Error>(e) && final(self).cursor() == old(self).cursor(),
            },
    {
        let p = self.pos();
        if self.at_end() {
            return Err(Error::UnexpectedEndOfStream);
        }
        match decode_char(self.as_bytes(), p) {
            Some((v, n)) => match char_from_code_point(v) {
                Some(c) => {
                    self.advance(n);
                    Ok(c)
                },
                None => Err(Error::InvalidValue),
            },
            None => Err(Error::InvalidValue),
        }
    }
}

} // verus!
