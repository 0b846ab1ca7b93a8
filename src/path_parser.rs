use vstd::prelude::*;
use vstd::string::StringSliceAdditionalSpecFns;

use crate::error::Error;
use crate::segment::PathSegment;
use crate::stream::{
    char_pos, digits_end, lemma_digits_end, lemma_spaces_end, list_separator_end, number_end,
    spaces_end, spec_is_digit, spec_is_sign, Stream,
};

verus! {

/// A command letter: one of `MmZzLlHhVvCcSsQqTtAa`.
pub open spec fn spec_is_cmd(c: u8) -> bool {
    c == 77 || c == 109 || c == 90 || c == 122 || c == 76 || c == 108 || c == 72 || c == 104 || c
        == 86 || c == 118 || c == 67 || c == 99 || c == 83 || c == 115 || c == 81 || c == 113 || c
        == 84 || c == 116 || c == 65 || c == 97
}

/// A byte that can start a number: a digit, `.`, `-` or `+`.
pub open spec fn spec_is_number_start(c: u8) -> bool {
    spec_is_digit(c) || c == 46 || spec_is_sign(c)
}

/// The lower-case form of an upper-case ASCII letter; other bytes are kept.
pub open spec fn spec_to_relative(c: u8) -> u8 {
    if 65 <= c <= 90 {
        (c + 32) as u8
    } else {
        c
    }
}

/// Upper-case command letters are absolute.
pub open spec fn spec_is_absolute(c: u8) -> bool {
    65 <= c <= 90
}

/// Returns `true` if the byte is a command letter.
pub fn is_cmd(c: u8) -> (r: bool)
    ensures
        r == spec_is_cmd(c),
{
    c == 'M' as u8 || c == 'm' as u8 || c == 'Z' as u8 || c == 'z' as u8 || c == 'L' as u8 || c
        == 'l' as u8 || c == 'H' as u8 || c == 'h' as u8 || c == 'V' as u8 || c == 'v' as u8 || c
        == 'C' as u8 || c == 'c' as u8 || c == 'S' as u8 || c == 's' as u8 || c == 'Q' as u8 || c
        == 'q' as u8 || c == 'T' as u8 || c == 't' as u8 || c == 'A' as u8 || c == 'a' as u8
}

/// Returns `true` if the command letter is absolute (upper case).
pub fn is_absolute(c: u8) -> (r: bool)
    ensures
        r == spec_is_absolute(c),
{
    'A' as u8 <= c && c <= 'Z' as u8
}

/// Converts a command letter into its relative (lower-case) form.
pub fn to_relative(c: u8) -> (r: u8)
    ensures
        r == spec_to_relative(c),
{
    if 'A' as u8 <= c && c <= 'Z' as u8 {
        c + 32
    } else {
        c
    }
}

/// Returns `true` if the byte can start a number.
pub fn is_number_start(c: u8) -> (r: bool)
    ensures
        r == spec_is_number_start(c),
{
    ('0' as u8 <= c && c <= '9' as u8) || c == '.' as u8 || c == '-' as u8 || c == '+' as u8
}

/// The command that the byte `c` starts, given the previous command: the command letter,
/// and whether it is written (`true`) or implied by a bare number (`false`).
///
/// The first command must be a MoveTo. A bare number repeats the previous command, except
/// that after a MoveTo it means a LineTo of the same absoluteness, and that it may not
/// follow a ClosePath.
pub open spec fn command_of(c: u8, prev: Option<u8>) -> Option<(u8, bool)> {
    match prev {
        None => if c == 77 || c == 109 {
            Some((c, true))
        } else {
            None
        },
        Some(p) => if spec_is_cmd(c) {
            Some((c, true))
        } else if spec_is_number_start(c) {
            if p == 90 || p == 122 {
                None
            } else if p == 77 {
                Some((76u8, false))
            } else if p == 109 {
                Some((108u8, false))
            } else {
                Some((p, false))
            }
        } else {
            None
        },
    }
}

/// One number of a list at `p`: its text and the position after its separator.
pub open spec fn list_number_at(d: Seq<u8>, p: int) -> Result<(Seq<u8>, int), Error> {
    if p >= d.len() {
        Err(Error::UnexpectedEndOfStream)
    } else {
        let start = spaces_end(d, p);
        match number_end(d, start) {
            Some(end) => Ok((d.subrange(start, end), list_separator_end(d, end))),
            None => Err(Error::InvalidNumber(char_pos(d, start) as usize)),
        }
    }
}

/// `n` numbers of a list at `p`, and the position after them.
pub open spec fn numbers_at(d: Seq<u8>, p: int, n: nat) -> Result<(Seq<Seq<u8>>, int), Error>
    decreases n,
{
    if n == 0 {
        Ok((seq![], p))
    } else {
        match list_number_at(d, p) {
            Err(e) => Err(e),
            Ok((t, q)) => prepend(seq![t], numbers_at(d, q, (n - 1) as nat)),
        }
    }
}

/// Puts `acc` in front of the numbers of a successful read.
pub open spec fn prepend(acc: Seq<Seq<u8>>, r: Result<(Seq<Seq<u8>>, int), Error>) -> Result<
    (Seq<Seq<u8>>, int),
    Error,
> {
    match r {
        Ok((v, q)) => Ok((acc + v, q)),
        Err(e) => Err(e),
    }
}

/// An arc flag at `p`: a single `0` or `1` after spaces, then an optional comma and spaces.
pub open spec fn flag_at(d: Seq<u8>, p: int) -> Result<(bool, int), Error> {
    let q = spaces_end(d, p);
    if q >= d.len() {
        Err(Error::UnexpectedEndOfStream)
    } else if d[q] == 48 || d[q] == 49 {
        let r = if q + 1 < d.len() && d[q + 1] == 44 {
            q + 2
        } else {
            q + 1
        };
        Ok((d[q] == 49, spaces_end(d, r)))
    } else {
        Err(Error::UnexpectedData(char_pos(d, q) as usize))
    }
}

/// How many numbers a command other than an arc takes.
pub open spec fn arity(lc: u8) -> nat {
    if lc == 109 || lc == 108 || lc == 116 {
        2
    } else if lc == 104 || lc == 118 {
        1
    } else if lc == 99 {
        6
    } else if lc == 115 || lc == 113 {
        4
    } else {
        0
    }
}

/// The segment of the (lower-case) command `lc` with the numbers `v`.
pub open spec fn build_segment<N>(lc: u8, abs: bool, v: Seq<N>) -> PathSegment<N> {
    if lc == 109 {
        PathSegment::MoveTo { abs, x: v[0], y: v[1] }
    } else if lc == 108 {
        PathSegment::LineTo { abs, x: v[0], y: v[1] }
    } else if lc == 104 {
        PathSegment::HorizontalLineTo { abs, x: v[0] }
    } else if lc == 118 {
        PathSegment::VerticalLineTo { abs, y: v[0] }
    } else if lc == 99 {
        PathSegment::CurveTo { abs, x1: v[0], y1: v[1], x2: v[2], y2: v[3], x: v[4], y: v[5] }
    } else if lc == 115 {
        PathSegment::SmoothCurveTo { abs, x2: v[0], y2: v[1], x: v[2], y: v[3] }
    } else if lc == 113 {
        PathSegment::Quadratic { abs, x1: v[0], y1: v[1], x: v[2], y: v[3] }
    } else if lc == 116 {
        PathSegment::SmoothQuadratic { abs, x: v[0], y: v[1] }
    } else {
        PathSegment::ClosePath { abs }
    }
}

/// The segment of the command letter `cmd` whose data starts at `p`, and the position
/// after it.
#[verifier::opaque]
pub open spec fn segment_at(d: Seq<u8>, p: int, cmd: u8) -> Result<
    (PathSegment<Seq<u8>>, int),
    Error,
> {
    let abs = spec_is_absolute(cmd);
    let lc = spec_to_relative(cmd);
    if lc == 122 {
        Ok((PathSegment::ClosePath { abs }, p))
    } else if lc == 97 {
        match numbers_at(d, p, 3) {
            Err(e) => Err(e),
            Ok((a, p1)) => match flag_at(d, p1) {
                Err(e) => Err(e),
                Ok((large_arc, p2)) => match flag_at(d, p2) {
                    Err(e) => Err(e),
                    Ok((sweep, p3)) => match numbers_at(d, p3, 2) {
                        Err(e) => Err(e),
                        Ok((b, p4)) => Ok(
                            (
                                PathSegment::EllipticalArc {
                                    abs,
                                    rx: a[0],
                                    ry: a[1],
                                    x_axis_rotation: a[2],
                                    large_arc,
                                    sweep,
                                    x: b[0],
                                    y: b[1],
                                },
                                p4,
                            ),
                        ),
                    },
                },
            },
        }
    } else {
        match numbers_at(d, p, arity(lc)) {
            Err(e) => Err(e),
            Ok((v, q)) => Ok((build_segment(lc, abs, v), q)),
        }
    }
}

/// One step of the tokenizer on `d` at `pos`, after the command `prev`: the token (none at
/// the end of the text), the position after it, and the command to remember.
///
/// After an error the position is the end of the text.
pub open spec fn parse_step(d: Seq<u8>, pos: int, prev: Option<u8>) -> (
    Option<Result<PathSegment<Seq<u8>>, Error>>,
    int,
    Option<u8>,
) {
    let p0 = spaces_end(d, pos);
    if p0 >= d.len() {
        (None, p0, prev)
    } else {
        match command_of(d[p0], prev) {
            None => (Some(Err(Error::UnexpectedData(char_pos(d, p0) as usize))), d.len() as int, prev),
            Some((cmd, explicit)) => {
                let p1 = if explicit {
                    p0 + 1
                } else {
                    p0
                };
                match segment_at(d, p1, cmd) {
                    Err(e) => (Some(Err(e)), d.len() as int, prev),
                    Ok((seg, q)) => (
                        Some(Ok(seg)),
                        q,
                        Some(
                            if explicit {
                                cmd
                            } else {
                                prev->Some_0
                            },
                        ),
                    ),
                }
            },
        }
    }
}

/// The view of a token handed out by the tokenizer.
pub open spec fn token_view(r: Option<Result<PathSegment<&[u8]>, Error>>) -> Option<
    Result<PathSegment<Seq<u8>>, Error>,
> {
    match r {
        None => None,
        Some(Ok(seg)) => Some(Ok(seg@)),
        Some(Err(e)) => Some(Err(e)),
    }
}

/// A pull-based path data tokenizer.
///
/// Each call of `next` hands out one segment. A bare number after a command repeats it
/// (after a MoveTo, as a LineTo). After the first error the tokenizer stops.
#[derive(Clone, Copy, Debug)]
pub struct PathParser<'a> {
    stream: Stream<'a>,
    prev_cmd: Option<u8>,
}

impl<'a> PathParser<'a> {
    /// The cursor of the tokenizer.
    pub closed spec fn spec_stream(&self) -> Stream<'a> {
        self.stream
    }

    /// The command of the last segment handed out, if any.
    pub closed spec fn spec_prev(&self) -> Option<u8> {
        self.prev_cmd
    }

    /// The cursor lies within its text.
    #[verifier::type_invariant]
    spec fn inv(&self) -> bool {
        self.stream.wf()
    }

    /// Creates a tokenizer at the start of `text`.
    pub fn from_str(text: &'a str) -> (r: PathParser<'a>)
        ensures
            r.spec_stream().wf(),
            r.spec_stream().data() == text.spec_bytes(),
            r.spec_stream().cursor() == 0,
            r.spec_prev() is None,
    {
        PathParser { stream: Stream::from(text), prev_cmd: None }
    }

    /// The character position, counted from 1, that the tokenizer has reached.
    pub fn calc_char_pos(&self) -> (r: usize)
        ensures
            r == char_pos(self.spec_stream().data(), self.spec_stream().cursor()),
    {
        self.stream.calc_char_pos_at(self.stream.pos())
    }

    /// Hands out the next segment; `None` once the text is used up or after an error.
    pub fn next(&mut self) -> (r: Option<Result<PathSegment<&'a [u8]>, Error>>)
        ensures
            final(self).spec_stream().wf(),
            final(self).spec_stream().data() == old(self).spec_stream().data(),
            ({
                let (t, p, prev) = parse_step(
                    old(self).spec_stream().data(),
                    old(self).spec_stream().cursor(),
                    old(self).spec_prev(),
                );
                &&& token_view(r) == t
                &&& final(self).spec_stream().cursor() == p
                &&& final(self).spec_prev() == prev
            }),
    {
        proof {
            use_type_invariant(&*self);
        }
        let mut stream = self.stream;
        let mut prev = self.prev_cmd;
        let r = next_token(&mut stream, &mut prev);
        *self = PathParser { stream, prev_cmd: prev };
        r
    }
}

/// One step of the tokenizer: the next segment from `s` after the command `prev`.
fn next_token<'a>(s: &mut Stream<'a>, prev: &mut Option<u8>) -> (r: Option<
    Result<PathSegment<&'a [u8]>, Error>,
>)
    requires
        old(s).wf(),
    ensures
        final(s).wf(),
        final(s).data() == old(s).data(),
        ({
            let (t, p, pr) = parse_step(old(s).data(), old(s).cursor(), *old(prev));
            &&& token_view(r) == t
            &&& final(s).cursor() == p
            &&& *final(prev) == pr
        }),
{
    let ghost d = s.data();
    proof {
        lemma_spaces_end(d, s.cursor());
    }
    s.skip_spaces();
    if s.at_end() {
        return None;
    }
    let start = s.pos();
    let c = s.curr_byte_unchecked();
    let (cmd, explicit) = match next_command(c, *prev) {
        Some(x) => x,
        None => {
            let pos = s.calc_char_pos_at(start);
            s.jump_to_end();
            return Some(Err(Error::UnexpectedData(pos)));
        },
    };
    if explicit {
        s.advance(1);
    }
    match parse_segment(s, cmd) {
        Ok(seg) => {
            if explicit {
                *prev = Some(cmd);
            }
            Some(Ok(seg))
        },
        Err(e) => {
            s.jump_to_end();
            Some(Err(e))
        },
    }
}

/// Decides which command the byte `c` starts, given the previous command.
fn next_command(c: u8, prev: Option<u8>) -> (r: Option<(u8, bool)>)
    ensures
        r == command_of(c, prev),
{
    match prev {
        None => if c == 'M' as u8 || c == 'm' as u8 {
            Some((c, true))
        } else {
            None
        },
        Some(p) => if is_cmd(c) {
            Some((c, true))
        } else if is_number_start(c) {
            if p == 'Z' as u8 || p == 'z' as u8 {
                None
            } else if p == 'M' as u8 {
                Some(('L' as u8, false))
            } else if p == 'm' as u8 {
                Some(('l' as u8, false))
            } else {
                Some((p, false))
            }
        } else {
            None
        },
    }
}

/// Reads `n` numbers of a list.
fn parse_numbers<'a>(s: &mut Stream<'a>, n: usize) -> (r: Result<Vec<&'a [u8]>, Error>)
    requires
        old(s).wf(),
    ensures
        final(s).wf(),
        final(s).data() == old(s).data(),
        match numbers_at(old(s).data(), old(s).cursor(), n as nat) {
            Ok((v, q)) => r is Ok && r->Ok_0@.map_values(|t: &[u8]| t@) == v && final(s).cursor() == q,
            Err(e) => r == Err::<Vec<&'a [u8]>, Error>(e),
        },
        r is Ok ==> r->Ok_0@.len() == n,
{
    let ghost d = s.data();
    let ghost p0 = s.cursor();
    let mut out: Vec<&'a [u8]> = Vec::new();
    let mut i: usize = 0;
    while i < n
        invariant
            s.wf(),
            s.data() == d,
            d == old(s).data(),
            p0 == old(s).cursor(),
            i <= n,
            out@.len() == i,
            numbers_at(d, p0, n as nat) == prepend(
                out@.map_values(|t: &[u8]| t@),
                numbers_at(d, s.cursor(), (n - i) as nat),
            ),
        decreases n - i,
    {
        let ghost acc = out@.map_values(|t: &[u8]| t@);
        let ghost c = s.cursor();
        let t = s.scan_list_number()?;
        let ghost rest = numbers_at(d, s.cursor(), (n - i - 1) as nat);
        out.push(t);
        proof {
            assert(out@.map_values(|t: &[u8]| t@) =~= acc + seq![t@]);
            match rest {
                Ok((v, q)) => {
                    assert(acc + (seq![t@] + v) =~= (acc + seq![t@]) + v);
                },
                Err(e) => {},
            }
        }
        i = i + 1;
    }
    proof {
        assert(out@.map_values(|t: &[u8]| t@) + seq![] =~= out@.map_values(|t: &[u8]| t@));
    }
    Ok(out)
}

/// Reads an arc flag.
fn parse_flag(s: &mut Stream) -> (r: Result<bool, Error>)
    requires
        old(s).wf(),
    ensures
        final(s).wf(),
        final(s).data() == old(s).data(),
        match flag_at(old(s).data(), old(s).cursor()) {
            Ok((f, q)) => r == Ok::<bool, Error>(f) && final(s).cursor() == q,
            Err(e) => r == Err::<bool, Error>(e),
        },
{
    s.skip_spaces();
    let c = s.curr_byte()?;
    if c == '0' as u8 || c == '1' as u8 {
        s.advance(1);
        if s.is_curr_byte_eq(',' as u8) {
            s.advance(1);
        }
        s.skip_spaces();
        Ok(c == '1' as u8)
    } else {
        Err(Error::UnexpectedData(s.calc_char_pos_at(s.pos())))
    }
}

/// Reads the data of the command `cmd`.
fn parse_segment<'a>(s: &mut Stream<'a>, cmd: u8) -> (r: Result<PathSegment<&'a [u8]>, Error>)
    requires
        old(s).wf(),
    ensures
        final(s).wf(),
        final(s).data() == old(s).data(),
        match segment_at(old(s).data(), old(s).cursor(), cmd) {
            Ok((seg, q)) => r is Ok && r->Ok_0@ == seg && final(s).cursor() == q,
            Err(e) => r == Err::<PathSegment<&'a [u8]>, Error>(e),
        },
{
    proof {
        reveal(segment_at);
    }
    let abs = is_absolute(cmd);
    let lc = to_relative(cmd);
    if lc == 'z' as u8 {
        return Ok(PathSegment::ClosePath { abs });
    }
    if lc == 'a' as u8 {
        let a = parse_numbers(s, 3)?;
        let large_arc = parse_flag(s)?;
        let sweep = parse_flag(s)?;
        let b = parse_numbers(s, 2)?;
        return Ok(
            PathSegment::EllipticalArc {
                abs,
                rx: a[0],
                ry: a[1],
                x_axis_rotation: a[2],
                large_arc,
                sweep,
                x: b[0],
                y: b[1],
            },
        );
    }
    let n: usize = if lc == 'm' as u8 || lc == 'l' as u8 || lc == 't' as u8 {
        2
    } else if lc == 'h' as u8 || lc == 'v' as u8 {
        1
    } else if lc == 'c' as u8 {
        6
    } else if lc == 's' as u8 || lc == 'q' as u8 {
        4
    } else {
        0
    };
    let v = parse_numbers(s, n)?;
    let ghost vv = v@.map_values(|t: &[u8]| t@);
    let seg = if lc == 'm' as u8 {
        PathSegment::MoveTo { abs, x: v[0], y: v[1] }
    } else if lc == 'l' as u8 {
        PathSegment::LineTo { abs, x: v[0], y: v[1] }
    } else if lc == 'h' as u8 {
        PathSegment::HorizontalLineTo { abs, x: v[0] }
    } else if lc == 'v' as u8 {
        PathSegment::VerticalLineTo { abs, y: v[0] }
    } else if lc == 'c' as u8 {
        PathSegment::CurveTo { abs, x1: v[0], y1: v[1], x2: v[2], y2: v[3], x: v[4], y: v[5] }
    } else if lc == 's' as u8 {
        PathSegment::SmoothCurveTo { abs, x2: v[0], y2: v[1], x: v[2], y: v[3] }
    } else if lc == 'q' as u8 {
        PathSegment::Quadratic { abs, x1: v[0], y1: v[1], x: v[2], y: v[3] }
    } else if lc == 't' as u8 {
        PathSegment::SmoothQuadratic { abs, x: v[0], y: v[1] }
    } else {
        PathSegment::ClosePath { abs }
    };
    Ok(seg)
}


/// `prev` is absent or a command letter.
pub open spec fn prev_ok(prev: Option<u8>) -> bool {
    match prev {
        None => true,
        Some(c) => spec_is_cmd(c),
    }
}

/// Every segment of `d` from `pos` on, after the command `prev`, and the error that ended
/// the text early, if any.
pub open spec fn parse_all(d: Seq<u8>, pos: int, prev: Option<u8>) -> (
    Seq<PathSegment<Seq<u8>>>,
    Option<Error>,
)
    decreases d.len() - pos,
{
    let (t, q, pr) = parse_step(d, pos, prev);
    match t {
        None => (seq![], None),
        Some(Err(e)) => (seq![], Some(e)),
        Some(Ok(seg)) => if pos < q <= d.len() {
            let (rest, e) = parse_all(d, q, pr);
            (seq![seg] + rest, e)
        } else {
            (seq![seg], None)
        },
    }
}

pub proof fn lemma_number_end(d: Seq<u8>, start: int)
    requires
        0 <= start <= d.len(),
    ensures
        number_end(d, start) matches Some(e) ==> start < e <= d.len(),
{
    if start < d.len() {
        let s1 = if spec_is_sign(d[start]) {
            start + 1
        } else {
            start
        };
        if s1 < d.len() {
            lemma_digits_end(d, s1);
            let s2 = digits_end(d, s1);
            if s2 < d.len() {
                lemma_digits_end(d, s2 + 1);
            }
            let s3 = if s2 < d.len() && d[s2] == 46 {
                digits_end(d, s2 + 1)
            } else {
                s2
            };
            if s3 + 1 < d.len() {
                lemma_digits_end(d, s3 + 1);
                if s3 + 2 <= d.len() {
                    lemma_digits_end(d, s3 + 2);
                }
            }
        }
    }
}

pub proof fn lemma_list_number_at(d: Seq<u8>, p: int)
    requires
        0 <= p <= d.len(),
    ensures
        list_number_at(d, p) matches Ok((t, q)) ==> p < q <= d.len(),
{
    if p < d.len() {
        lemma_spaces_end(d, p);
        let start = spaces_end(d, p);
        lemma_number_end(d, start);
        if let Some(end) = number_end(d, start) {
            lemma_spaces_end(d, end);
        }
    }
}

pub proof fn lemma_numbers_at(d: Seq<u8>, p: int, n: nat)
    requires
        0 <= p <= d.len(),
    ensures
        numbers_at(d, p, n) matches Ok((v, q)) ==> p <= q <= d.len() && (n > 0 ==> p < q),
    decreases n,
{
    if n > 0 {
        lemma_list_number_at(d, p);
        if let Ok((t, q)) = list_number_at(d, p) {
            lemma_numbers_at(d, q, (n - 1) as nat);
        }
    }
}

pub proof fn lemma_flag_at(d: Seq<u8>, p: int)
    requires
        0 <= p <= d.len(),
    ensures
        flag_at(d, p) matches Ok((f, q)) ==> p < q <= d.len(),
{
    lemma_spaces_end(d, p);
    let q = spaces_end(d, p);
    if q < d.len() {
        let r = if q + 1 < d.len() && d[q + 1] == 44 {
            q + 2
        } else {
            q + 1
        };
        lemma_spaces_end(d, r);
    }
}

pub proof fn lemma_segment_at(d: Seq<u8>, p: int, cmd: u8)
    requires
        0 <= p <= d.len(),
        spec_is_cmd(cmd),
    ensures
        segment_at(d, p, cmd) matches Ok((seg, q)) ==> p <= q <= d.len() && (spec_to_relative(cmd)
            != 122 ==> p < q),
{
    reveal(segment_at);
    let lc = spec_to_relative(cmd);
    if lc == 97 {
        lemma_numbers_at(d, p, 3);
        if let Ok((a, p1)) = numbers_at(d, p, 3) {
            lemma_flag_at(d, p1);
            if let Ok((f1, p2)) = flag_at(d, p1) {
                lemma_flag_at(d, p2);
                if let Ok((f2, p3)) = flag_at(d, p2) {
                    lemma_numbers_at(d, p3, 2);
                }
            }
        }
    } else if lc != 122 {
        lemma_numbers_at(d, p, arity(lc));
    }
}

/// A successful step of the tokenizer moves forward and remembers a command letter.
pub proof fn lemma_parse_step(d: Seq<u8>, pos: int, prev: Option<u8>)
    requires
        0 <= pos <= d.len(),
        prev_ok(prev),
    ensures
        parse_step(d, pos, prev).0 matches Some(Ok(seg)) ==> pos < parse_step(d, pos, prev).1
            <= d.len() && prev_ok(parse_step(d, pos, prev).2),
        parse_step(d, pos, prev).0 is None ==> parse_step(d, pos, prev).1 == d.len(),
        0 <= parse_step(d, pos, prev).1 <= d.len(),
{
    lemma_spaces_end(d, pos);
    let p0 = spaces_end(d, pos);
    if p0 < d.len() {
        if let Some((cmd, explicit)) = command_of(d[p0], prev) {
            let p1 = if explicit {
                p0 + 1
            } else {
                p0
            };
            lemma_segment_at(d, p1, cmd);
        }
    }
}

/// Parses a whole path: the segments before the first error, and that error, if any.
pub fn parse_path<'a>(text: &'a str) -> (r: (Vec<PathSegment<&'a [u8]>>, Option<Error>))
    ensures
        r.0@.map_values(|s: PathSegment<&'a [u8]>| s@) == parse_all(text.spec_bytes(), 0, None).0,
        r.1 == parse_all(text.spec_bytes(), 0, None).1,
{
    let mut p = PathParser::from_str(text);
    let ghost d = text.spec_bytes();
    let mut out: Vec<PathSegment<&'a [u8]>> = Vec::new();
    let mut err: Option<Error> = None;
    loop
        invariant_except_break
            err is None,
            parse_all(d, 0, None) == (
                out@.map_values(|s: PathSegment<&'a [u8]>| s@) + parse_all(
                    d,
                    p.spec_stream().cursor(),
                    p.spec_prev(),
                ).0,
                parse_all(d, p.spec_stream().cursor(), p.spec_prev()).1,
            ),
        invariant
            p.spec_stream().wf(),
            p.spec_stream().data() == d,
            prev_ok(p.spec_prev()),
        ensures
            out@.map_values(|s: PathSegment<&'a [u8]>| s@) == parse_all(d, 0, None).0,
            err == parse_all(d, 0, None).1,
        decreases d.len() - p.spec_stream().cursor(),
    {
        let ghost pos = p.spec_stream().cursor();
        let ghost prev = p.spec_prev();
        let ghost before = out@.map_values(|s: PathSegment<&'a [u8]>| s@);
        proof {
            lemma_parse_step(d, pos, prev);
        }
        match p.next() {
            None => {
                assert(before + seq![] =~= before);
                break;
            },
            Some(Ok(seg)) => {
                out.push(seg);
                proof {
                    let rest = parse_all(d, p.spec_stream().cursor(), p.spec_prev());
                    assert(out@.map_values(|s: PathSegment<&'a [u8]>| s@) =~= before + seq![seg@]);
                    assert(before + (seq![seg@] + rest.0) =~= (before + seq![seg@]) + rest.0);
                }
            },
            Some(Err(e)) => {
                err = Some(e);
                assert(before + seq![] =~= before);
                break;
            },
        }
    }
    (out, err)
}

} // verus!
