use vstd::prelude::*;
use vstd::math::min;
use vstd::string::StringSliceAdditionalSpecFns;

use crate::error::{is_invalid_char, is_invalid_string, Error};
use crate::stream::{
    char_pos, is_digit, is_letter, keyword_at, lemma_spaces_end, lemma_until_end, spaces_end,
    spec_is_digit, spec_is_letter, spec_is_space, until_end, Stream,
};

verus! {

/// A byte of a property name: `[0-9A-Za-z_-]`.
pub open spec fn spec_is_ident_char(c: u8) -> bool {
    spec_is_digit(c) || spec_is_letter(c) || c == 45 || c == 95
}

/// Checks if a byte may stand in a property name.
pub fn is_ident_char(c: u8) -> (r: bool)
    ensures
        r == spec_is_ident_char(c),
{
    is_digit(c) || is_letter(c) || c == '-' as u8 || c == '_' as u8
}

/// The end of the name that starts at `from`.
pub open spec fn ident_end(d: Seq<u8>, from: int) -> int
    decreases d.len() - from,
{
    if from < 0 || from >= d.len() || !spec_is_ident_char(d[from]) {
        from
    } else {
        ident_end(d, from + 1)
    }
}

pub proof fn lemma_ident_end(d: Seq<u8>, from: int)
    requires
        0 <= from <= d.len(),
    ensures
        from <= ident_end(d, from) <= d.len(),
    decreases d.len() - from,
{
    if from < d.len() && spec_is_ident_char(d[from]) {
        lemma_ident_end(d, from + 1);
    }
}

/// Where the spaces at the end of `t[lo..e]` begin.
pub open spec fn trailing_spaces_start(t: Seq<u8>, lo: int, e: int) -> int
    decreases e - lo,
{
    if e > lo && spec_is_space(t[e - 1]) {
        trailing_spaces_start(t, lo, e - 1)
    } else {
        e
    }
}

/// `t` without spaces at either end.
pub open spec fn trim_spaces(t: Seq<u8>) -> Seq<u8> {
    let a = spaces_end(t, 0);
    t.subrange(a, trailing_spaces_start(t, a, t.len() as int))
}

/// The position after any run of `;`, each followed by spaces.
pub open spec fn semicolons_end(d: Seq<u8>, p: int) -> int
    decreases d.len() - p,
{
    if 0 <= p < d.len() && d[p] == 59 {
        let q = spaces_end(d, p + 1);
        if p < q <= d.len() {
            semicolons_end(d, q)
        } else {
            q
        }
    } else {
        p
    }
}

/// A failure of the style parser, described by the error it reports.
pub enum StyleFailure {
    /// This very error.
    Plain(Error),
    /// `InvalidChar` with these bytes and this position.
    Char(Seq<u8>, int),
    /// `InvalidString` with these texts and this position.
    Text(Seq<Seq<u8>>, int),
}

/// `e` is the error that `f` describes.
pub open spec fn reports(e: Error, f: StyleFailure) -> bool {
    match f {
        StyleFailure::Plain(x) => e == x,
        StyleFailure::Char(b, p) => is_invalid_char(e, b, p),
        StyleFailure::Text(t, p) => is_invalid_string(e, t, p),
    }
}

/// The failure of reading the literal `kw` at `p`.
pub open spec fn literal_failure(d: Seq<u8>, p: int, kw: Seq<u8>) -> StyleFailure {
    if p >= d.len() {
        StyleFailure::Plain(Error::UnexpectedEndOfStream)
    } else {
        StyleFailure::Text(
            seq![d.subrange(p, p + min(kw.len() as int, d.len() - p)), kw],
            char_pos(d, p),
        )
    }
}

/// A comment at `p`, `/* ... */`: the position after it and the spaces that follow.
pub open spec fn comment_end(d: Seq<u8>, p: int) -> Result<int, StyleFailure> {
    let open = seq![47u8, 42u8];
    let close = seq![42u8, 47u8];
    if p < d.len() && keyword_at(d, p, open) {
        let q = until_end(d, p + 2, seq![42u8]);
        if q < d.len() && keyword_at(d, q, close) {
            Ok(spaces_end(d, q + 2))
        } else {
            Err(literal_failure(d, q, close))
        }
    } else {
        Err(literal_failure(d, p, open))
    }
}

/// A declaration `name: value` at `p`, where the value may be quoted with `'`, and the
/// position after it, the spaces and the `;` that follow.
pub open spec fn declaration_at(d: Seq<u8>, p: int) -> Result<(Seq<u8>, Seq<u8>, int), StyleFailure> {
    let ne = ident_end(d, p);
    let p1 = spaces_end(d, ne);
    let p2 = spaces_end(d, p1 + 1);
    let quoted = p2 < d.len() && d[p2] == 39;
    let e = if quoted {
        until_end(d, p2 + 1, seq![39u8])
    } else {
        until_end(d, p2, seq![59u8, 47u8])
    };
    let raw = if quoted {
        d.subrange(p2 + 1, e)
    } else {
        d.subrange(p2, e)
    };
    let p3 = if quoted {
        e + 1
    } else {
        e
    };
    let value = trim_spaces(raw);
    if ne == p {
        Err(StyleFailure::Plain(Error::UnexpectedEndOfStream))
    } else if p1 >= d.len() {
        Err(StyleFailure::Plain(Error::UnexpectedEndOfStream))
    } else if d[p1] != 58 {
        Err(StyleFailure::Char(seq![d[p1], 58u8], char_pos(d, p1)))
    } else if p2 >= d.len() {
        Err(StyleFailure::Plain(Error::UnexpectedEndOfStream))
    } else if quoted && e >= d.len() {
        Err(StyleFailure::Plain(Error::UnexpectedEndOfStream))
    } else if value.len() == 0 {
        Err(StyleFailure::Plain(Error::UnexpectedEndOfStream))
    } else {
        Ok((d.subrange(p, ne), value, semicolons_end(d, spaces_end(d, p3))))
    }
}

/// What the style parser hands out from `pos` on: comments and declarations whose name
/// starts with `-` are skipped; the result is the next declaration, or the failure that
/// stops it, or nothing at the end; and the position after it, which is the end of the text
/// after a failure.
pub open spec fn style_next(d: Seq<u8>, pos: int) -> (
    Option<Result<(Seq<u8>, Seq<u8>), StyleFailure>>,
    int,
)
    decreases d.len() - pos,
{
    let p = spaces_end(d, pos);
    if p < 0 || p >= d.len() {
        (None, p)
    } else if d[p] == 47 {
        match comment_end(d, p) {
            Err(f) => (Some(Err(f)), d.len() as int),
            Ok(q) => if pos < q <= d.len() {
                style_next(d, q)
            } else {
                (None, q)
            },
        }
    } else if d[p] == 45 {
        match declaration_at(d, p + 1) {
            Err(f) => (Some(Err(f)), d.len() as int),
            Ok((_, _, q)) => if pos < q <= d.len() {
                style_next(d, q)
            } else {
                (None, q)
            },
        }
    } else if spec_is_ident_char(d[p]) {
        match declaration_at(d, p) {
            Err(f) => (Some(Err(f)), d.len() as int),
            Ok((n, v, q)) => (Some(Ok((n, v))), q),
        }
    } else {
        (Some(Err(StyleFailure::Char(seq![d[p], 47u8, 45u8], char_pos(d, p)))), d.len() as int)
    }
}

/// The view of what the style parser hands out.
pub open spec fn declaration_view(r: Option<Result<(&[u8], &[u8]), Error>>, m: Option<
    Result<(Seq<u8>, Seq<u8>), StyleFailure>,
>) -> bool {
    match (r, m) {
        (None, None) => true,
        (Some(Ok((n, v))), Some(Ok((mn, mv)))) => n@ == mn && v@ == mv,
        (Some(Err(e)), Some(Err(f))) => reports(e, f),
        _ => false,
    }
}

/// Removes the spaces at both ends of `t`.
pub fn trim(t: &[u8]) -> (r: &[u8])
    ensures
        r@ == trim_spaces(t@),
{
    let mut s = Stream::from_bytes(t);
    proof {
        lemma_spaces_end(t@, 0);
    }
    s.skip_spaces();
    let a = s.pos();
    let mut e = t.len();
    while e > a && crate::stream::is_space(t[e - 1])
        invariant
            a <= e <= t@.len(),
            a == spaces_end(t@, 0),
            trailing_spaces_start(t@, a as int, e as int) == trailing_spaces_start(
                t@,
                a as int,
                t@.len() as int,
            ),
        decreases e,
    {
        e = e - 1;
    }
    &t[a..e]
}

/// Skips a comment and the spaces after it.
fn skip_comment(s: &mut Stream) -> (r: Result<(), Error>)
    requires
        old(s).wf(),
    ensures
        final(s).wf(),
        final(s).data() == old(s).data(),
        match comment_end(old(s).data(), old(s).cursor()) {
            Ok(q) => r is Ok && final(s).cursor() == q,
            Err(f) => r is Err && reports(r->Err_0, f),
        },
{
    let ghost d = s.data();
    let ghost p = s.cursor();
    let open = ['/' as u8, '*' as u8];
    let close = ['*' as u8, '/' as u8];
    assert(open@ =~= seq![47u8, 42u8]);
    assert(close@ =~= seq![42u8, 47u8]);
    match s.consume_string(&open) {
        Ok(()) => {},
        Err(e) => {
            return Err(e);
        },
    }
    proof {
        lemma_until_end(d, s.cursor(), seq![42u8]);
    }
    let stars = ['*' as u8];
    assert(stars@ =~= seq![42u8]);
    s.skip_until(&stars);
    match s.consume_string(&close) {
        Ok(()) => {},
        Err(e) => {
            return Err(e);
        },
    }
    s.skip_spaces();
    Ok(())
}

/// Reads a declaration `name: value`.
fn parse_declaration<'a>(s: &mut Stream<'a>) -> (r: Result<(&'a [u8], &'a [u8]), Error>)
    requires
        old(s).wf(),
    ensures
        final(s).wf(),
        final(s).data() == old(s).data(),
        match declaration_at(old(s).data(), old(s).cursor()) {
            Ok((n, v, q)) => r is Ok && r->Ok_0.0@ == n && r->Ok_0.1@ == v && final(s).cursor() == q,
            Err(f) => r is Err && reports(r->Err_0, f),
        },
{
    let ghost d = s.data();
    let start = s.pos();
    proof {
        lemma_ident_end(d, start as int);
    }
    while !s.at_end() && is_ident_char(s.curr_byte_unchecked())
        invariant
            s.wf(),
            s.data() == d,
            start <= s.cursor(),
            ident_end(d, s.cursor()) == ident_end(d, start as int),
        decreases d.len() - s.cursor(),
    {
        s.advance(1);
    }
    let name = s.slice_back(start);
    if name.len() == 0 {
        return Err(Error::UnexpectedEndOfStream);
    }
    proof {
        lemma_spaces_end(d, s.cursor());
    }
    s.skip_spaces();
    match s.consume_byte(':' as u8) {
        Ok(()) => {},
        Err(e) => {
            return Err(e);
        },
    }
    proof {
        lemma_spaces_end(d, s.cursor());
    }
    s.skip_spaces();
    let c = match s.curr_byte() {
        Ok(c) => c,
        Err(e) => {
            return Err(e);
        },
    };
    let raw = if c == '\'' as u8 {
        s.advance(1);
        let vs = s.pos();
        proof {
            lemma_until_end(d, vs as int, seq![39u8]);
        }
        let quote = ['\'' as u8];
        assert(quote@ =~= seq![39u8]);
        s.skip_until(&quote);
        let v = s.slice_back(vs);
        match s.consume_byte('\'' as u8) {
            Ok(()) => {},
            Err(e) => {
                return Err(e);
            },
        }
        v
    } else {
        let vs = s.pos();
        proof {
            lemma_until_end(d, vs as int, seq![59u8, 47u8]);
        }
        let stops = [';' as u8, '/' as u8];
        assert(stops@ =~= seq![59u8, 47u8]);
        s.skip_until(&stops);
        s.slice_back(vs)
    };
    let value = trim(raw);
    if value.len() == 0 {
        return Err(Error::UnexpectedEndOfStream);
    }
    proof {
        lemma_spaces_end(d, s.cursor());
    }
    s.skip_spaces();
    while s.is_curr_byte_eq(';' as u8)
        invariant
            s.wf(),
            s.data() == d,
            semicolons_end(d, s.cursor()) == declaration_at(d, start as int)->Ok_0.2,
        decreases d.len() - s.cursor(),
    {
        s.advance(1);
        proof {
            lemma_spaces_end(d, s.cursor());
        }
        s.skip_spaces();
    }
    Ok((name, value))
}

/// A pull-based parser of `style` attribute values: `name: value` declarations separated
/// by `;`.
///
/// Comments are skipped, and so are declarations whose name starts with `-`.
#[derive(Clone, Copy, Debug)]
pub struct StyleParser<'a> {
    stream: Stream<'a>,
}

impl<'a> StyleParser<'a> {
    /// The cursor of the parser.
    pub closed spec fn spec_stream(&self) -> Stream<'a> {
        self.stream
    }

    /// The cursor lies within its text.
    #[verifier::type_invariant]
    spec fn inv(&self) -> bool {
        self.stream.wf()
    }

    /// Creates a parser at the start of `text`.
    pub fn from_str(text: &'a str) -> (r: StyleParser<'a>)
        ensures
            r.spec_stream().wf(),
            r.spec_stream().data() == text.spec_bytes(),
            r.spec_stream().cursor() == 0,
    {
        StyleParser { stream: Stream::from(text) }
    }

    /// Hands out the next declaration as its name and its value; `None` at the end.
    ///
    /// After a failure the parser stands at the end of the text and hands out nothing more.
    pub fn next(&mut self) -> (r: Option<Result<(&'a [u8], &'a [u8]), Error>>)
        ensures
            final(self).spec_stream().wf(),
            final(self).spec_stream().data() == old(self).spec_stream().data(),
            ({
                let (m, q) = style_next(
                    old(self).spec_stream().data(),
                    old(self).spec_stream().cursor(),
                );
                &&& declaration_view(r, m)
                &&& final(self).spec_stream().cursor() == q
            }),
    {
        proof {
            use_type_invariant(&*self);
        }
        let mut stream = self.stream;
        let r = next_declaration(&mut stream);
        *self = StyleParser { stream };
        r
    }
}

/// Skips comments and declarations whose name starts with `-`, and reads the next
/// declaration.
fn next_declaration<'a>(s: &mut Stream<'a>) -> (r: Option<Result<(&'a [u8], &'a [u8]), Error>>)
    requires
        old(s).wf(),
    ensures
        final(s).wf(),
        final(s).data() == old(s).data(),
        ({
            let (m, q) = style_next(old(s).data(), old(s).cursor());
            &&& declaration_view(r, m)
            &&& final(s).cursor() == q
        }),
{
    let ghost d = s.data();
    let ghost start = s.cursor();
    loop
        invariant
            s.wf(),
            s.data() == d,
            d == old(s).data(),
            start == old(s).cursor(),
            style_next(d, s.cursor()) == style_next(d, start),
        decreases d.len() - s.cursor(),
    {
        let ghost pos = s.cursor();
        proof {
            lemma_spaces_end(d, pos);
        }
        s.skip_spaces();
        if s.at_end() {
            return None;
        }
        let c = s.curr_byte_unchecked();
        if c == '/' as u8 {
            proof {
                lemma_comment_progress(d, s.cursor());
            }
            match skip_comment(s) {
                Ok(()) => {},
                Err(e) => {
                    s.jump_to_end();
                    return Some(Err(e));
                },
            }
        } else if c == '-' as u8 {
            s.advance(1);
            proof {
                lemma_declaration_progress(d, s.cursor());
            }
            match parse_declaration(s) {
                Ok(_) => {},
                Err(e) => {
                    s.jump_to_end();
                    return Some(Err(e));
                },
            }
        } else if is_ident_char(c) {
            let r = parse_declaration(s);
            if r.is_err() {
                s.jump_to_end();
            }
            return Some(r);
        } else {
            let p = s.calc_char_pos();
            s.jump_to_end();
            let mut v: Vec<u8> = Vec::new();
            v.push(c);
            v.push('/' as u8);
            v.push('-' as u8);
            assert(v@ =~= seq![c, 47u8, 45u8]);
            return Some(Err(Error::InvalidChar(v, p)));
        }
    }
}

pub proof fn lemma_comment_progress(d: Seq<u8>, p: int)
    requires
        0 <= p <= d.len(),
    ensures
        comment_end(d, p) matches Ok(q) ==> p < q <= d.len(),
{
    let open = seq![47u8, 42u8];
    let close = seq![42u8, 47u8];
    if p < d.len() && keyword_at(d, p, open) {
        lemma_until_end(d, p + 2, seq![42u8]);
        let q = until_end(d, p + 2, seq![42u8]);
        if q < d.len() && keyword_at(d, q, close) {
            lemma_spaces_end(d, q + 2);
        }
    }
}

pub proof fn lemma_declaration_progress(d: Seq<u8>, p: int)
    requires
        0 <= p <= d.len(),
    ensures
        declaration_at(d, p) matches Ok((n, v, q)) ==> p < q <= d.len(),
{
    lemma_ident_end(d, p);
    let ne = ident_end(d, p);
    lemma_spaces_end(d, ne);
    let p1 = spaces_end(d, ne);
    if p1 < d.len() {
        lemma_spaces_end(d, p1 + 1);
        let p2 = spaces_end(d, p1 + 1);
        if p2 < d.len() {
            let quoted = d[p2] == 39;
            let e = if quoted {
                until_end(d, p2 + 1, seq![39u8])
            } else {
                until_end(d, p2, seq![59u8, 47u8])
            };
            if quoted {
                lemma_until_end(d, p2 + 1, seq![39u8]);
            } else {
                lemma_until_end(d, p2, seq![59u8, 47u8]);
            }
            let p3 = if quoted {
                e + 1
            } else {
                e
            };
            if p3 <= d.len() {
                lemma_spaces_end(d, p3);
                lemma_semicolons_end(d, spaces_end(d, p3));
            }
        }
    }
}

pub proof fn lemma_semicolons_end(d: Seq<u8>, p: int)
    requires
        0 <= p <= d.len(),
    ensures
        p <= semicolons_end(d, p) <= d.len(),
    decreases d.len() - p,
{
    if p < d.len() && d[p] == 59 {
        lemma_spaces_end(d, p + 1);
        lemma_semicolons_end(d, spaces_end(d, p + 1));
    }
}

} // verus!
