use vstd::prelude::*;

use crate::options::WriteOptions;
use crate::path_parser::{
    arity, build_segment, command_of, flag_at, lemma_parse_step, list_number_at, numbers_at,
    parse_all, parse_step, prev_ok, segment_at, spec_is_absolute, spec_is_cmd,
    spec_to_relative,
};
use crate::path_writer::{
    body_part, cmd_letter, cmd_part, coords_of, coords_part, flag_byte, flags_part, written_path,
    written_prefix, PrevCmd,
};
use crate::segment::{PathCommand, PathSegment};
use crate::stream::{
    digits_end, lemma_digits_end, lemma_spaces_end, number_end, spaces_end,
    spec_is_digit, spec_is_sign, spec_is_space,
};

verus! {

/// `t` is the complete text of one number.
pub open spec fn is_number_text(t: Seq<u8>) -> bool {
    number_end(t, 0) == Some(t.len() as int)
}

proof fn lemma_digits_local(d: Seq<u8>, s: int, t: Seq<u8>, k: int)
    requires
        0 <= s,
        s + t.len() <= d.len(),
        d.subrange(s, s + t.len()) == t,
        s + t.len() == d.len() || !spec_is_digit(d[s + t.len()]),
        0 <= k <= t.len(),
    ensures
        digits_end(d, s + k) == s + digits_end(t, k),
    decreases t.len() - k,
{
    if k < t.len() {
        assert(d[s + k] == t[k]) by {
            assert(d.subrange(s, s + t.len())[k] == t[k]);
        }
        if spec_is_digit(t[k]) {
            lemma_digits_local(d, s, t, k + 1);
        }
    }
}

/// A number whose text is followed by a space, or by the end, reads as that text.
pub proof fn lemma_number_local(d: Seq<u8>, s: int, t: Seq<u8>)
    requires
        is_number_text(t),
        0 <= s,
        s + t.len() <= d.len(),
        d.subrange(s, s + t.len()) == t,
        s + t.len() == d.len() || d[s + t.len()] == 32,
    ensures
        number_end(d, s) == Some(s + t.len()),
{
    let n = t.len() as int;
    assert forall|k: int| 0 <= k < n implies d[s + k] == t[k] by {
        assert(d.subrange(s, s + n)[k] == t[k]);
    }
    assert(n > 0);
    let s1 = if spec_is_sign(t[0]) {
        1int
    } else {
        0int
    };
    if s1 <= n {
        lemma_digits_local(d, s, t, s1);
        lemma_digits_end(t, s1);
        let s2 = digits_end(t, s1);
        if s2 + 1 <= n {
            lemma_digits_local(d, s, t, s2 + 1);
            lemma_digits_end(t, s2 + 1);
        }
        let s3 = if s2 < n && t[s2] == 46 {
            digits_end(t, s2 + 1)
        } else {
            s2
        };
        if s3 + 2 <= n {
            lemma_digits_local(d, s, t, s3 + 1);
            lemma_digits_local(d, s, t, s3 + 2);
        } else if s3 + 1 <= n {
            lemma_digits_local(d, s, t, s3 + 1);
        }
    }
}

/// The text of a number that the tokenizer reads is itself the complete text of a number.
#[verifier::rlimit(80)]
pub proof fn lemma_number_text(d: Seq<u8>, s: int)
    requires
        0 <= s <= d.len(),
        number_end(d, s) is Some,
    ensures
        s < number_end(d, s)->Some_0 <= d.len(),
        is_number_text(d.subrange(s, number_end(d, s)->Some_0)),
{
    let e = number_end(d, s)->Some_0;
    crate::path_parser::lemma_number_end(d, s);
    let t = d.subrange(s, e);
    let n = e - s;
    let s1 = if spec_is_sign(d[s]) {
        s + 1
    } else {
        s
    };
    lemma_digits_end(d, s1);
    let s2 = digits_end(d, s1);
    if s2 < d.len() {
        lemma_digits_end(d, s2 + 1);
    }
    let s3 = if s2 < d.len() && d[s2] == 46 {
        digits_end(d, s2 + 1)
    } else {
        s2
    };
    if s3 + 1 < d.len() {
        lemma_digits_end(d, s3 + 1);
        lemma_digits_end(d, s3 + 2);
    }
    assert(e == d.len() || !spec_is_digit(d[e]));
    assert(t.subrange(0, t.len() as int) =~= t);
    assert(d.subrange(s, s + t.len()) == t);
    if s1 - s <= n {
        lemma_digits_local(d, s, t, s1 - s);
    }
    if s2 + 1 - s <= n {
        lemma_digits_local(d, s, t, s2 + 1 - s);
    }
    if s3 + 1 - s <= n {
        lemma_digits_local(d, s, t, s3 + 1 - s);
    }
    if s3 + 2 - s <= n {
        lemma_digits_local(d, s, t, s3 + 2 - s);
    }
}


/// Items each followed by a space.
pub open spec fn spaced(ts: Seq<Seq<u8>>) -> Seq<u8>
    decreases ts.len(),
{
    if ts.len() == 0 {
        seq![]
    } else {
        ts[0] + seq![32u8] + spaced(ts.drop_first())
    }
}

/// The tokens that follow the letter of a segment: its numbers, and an arc's flags.
pub open spec fn seg_tokens(s: PathSegment<Seq<u8>>) -> Seq<Seq<u8>> {
    match s {
        PathSegment::EllipticalArc { rx, ry, x_axis_rotation, large_arc, sweep, x, y, .. } => seq![
            rx,
            ry,
            x_axis_rotation,
            seq![flag_byte(large_arc)],
            seq![flag_byte(sweep)],
            x,
            y,
        ],
        _ => coords_of(s),
    }
}

/// The text of a segment under the default options: its letter, then each token, each
/// followed by a space.
pub open spec fn seg_text(s: PathSegment<Seq<u8>>) -> Seq<u8> {
    seq![cmd_letter(s.spec_cmd(), s.spec_abs()), 32u8] + spaced(seg_tokens(s))
}

/// The texts of all segments, one after the other.
pub open spec fn all_texts(segs: Seq<PathSegment<Seq<u8>>>) -> Seq<u8>
    decreases segs.len(),
{
    if segs.len() == 0 {
        seq![]
    } else {
        seg_text(segs[0]) + all_texts(segs.drop_first())
    }
}

/// Every number of the segment is the complete text of a number.
pub open spec fn valid_seg(s: PathSegment<Seq<u8>>) -> bool {
    match s {
        PathSegment::EllipticalArc { rx, ry, x_axis_rotation, x, y, .. } => is_number_text(rx)
            && is_number_text(ry) && is_number_text(x_axis_rotation) && is_number_text(x)
            && is_number_text(y),
        _ => forall|i: int| 0 <= i < coords_of(s).len() ==> is_number_text(#[trigger] coords_of(s)[i]),
    }
}

proof fn lemma_spaced_last(ts: Seq<Seq<u8>>)
    requires
        ts.len() > 0,
    ensures
        spaced(ts) == spaced(ts.drop_last()) + ts.last() + seq![32u8],
    decreases ts.len(),
{
    if ts.len() == 1 {
        assert(ts.drop_last() =~= Seq::<Seq<u8>>::empty());
        assert(ts.drop_first() =~= Seq::<Seq<u8>>::empty());
        assert(spaced(ts) =~= spaced(ts.drop_last()) + ts.last() + seq![32u8]);
    } else {
        lemma_spaced_last(ts.drop_first());
        assert(ts.drop_first().drop_last() =~= ts.drop_last().drop_first());
        assert(ts.drop_last()[0] == ts[0]);
        assert(spaced(ts) =~= spaced(ts.drop_last()) + ts.last() + seq![32u8]);
    }
}

proof fn lemma_spaced_concat(a: Seq<Seq<u8>>, b: Seq<Seq<u8>>)
    ensures
        spaced(a + b) == spaced(a) + spaced(b),
    decreases a.len(),
{
    if a.len() == 0 {
        assert(a + b =~= b);
        assert(spaced(a) + spaced(b) =~= spaced(b));
    } else {
        lemma_spaced_concat(a.drop_first(), b);
        assert((a + b).drop_first() =~= a.drop_first() + b);
        assert((a + b)[0] == a[0]);
        assert(spaced(a + b) =~= spaced(a) + spaced(b));
    }
}

proof fn lemma_coords_default(cs: Seq<Seq<u8>>, explicit: bool, dot: bool)
    ensures
        coords_part(cs, explicit, dot, WriteOptions::spec_default()) == (spaced(cs), dot),
    decreases cs.len(),
{
    if cs.len() > 0 {
        lemma_coords_default(cs.drop_last(), explicit, dot);
        lemma_spaced_last(cs);
    }
}

proof fn lemma_segment_default(s: PathSegment<Seq<u8>>, prev: Option<PrevCmd>, dot: bool)
    ensures
        ({
            let opt = WriteOptions::spec_default();
            let (c, printed, p2) = cmd_part(s, prev, opt);
            c + body_part(s, printed, dot, opt).0 == seg_text(s)
        }),
{
    let opt = WriteOptions::spec_default();
    let (c, printed, p2) = cmd_part(s, prev, opt);
    match s {
        PathSegment::EllipticalArc { rx, ry, x_axis_rotation, large_arc, sweep, x, y, .. } => {
            lemma_coords_default(seq![rx, ry, x_axis_rotation], printed, dot);
            lemma_coords_default(seq![x, y], true, false);
            let a = seq![rx, ry, x_axis_rotation];
            let f = seq![seq![flag_byte(large_arc)], seq![flag_byte(sweep)]];
            let b = seq![x, y];
            lemma_spaced_concat(a, f);
            lemma_spaced_concat(a + f, b);
            assert(a + f + b =~= seg_tokens(s));
            assert(spaced(f) =~= flags_part(large_arc, sweep, opt)) by {
                reveal_with_fuel(spaced, 3);
                assert(f.drop_first().drop_first() =~= Seq::<Seq<u8>>::empty());
                assert(f.drop_first()[0] == seq![flag_byte(sweep)]);
            }
            assert(c + body_part(s, printed, dot, opt).0 =~= seg_text(s));
        },
        PathSegment::ClosePath { .. } => {
            assert(c + body_part(s, printed, dot, opt).0 =~= seg_text(s));
        },
        _ => {
            lemma_coords_default(coords_of(s), printed, dot);
            assert(c + body_part(s, printed, dot, opt).0 =~= seg_text(s));
        },
    }
}

proof fn lemma_all_texts_push(segs: Seq<PathSegment<Seq<u8>>>, s: PathSegment<Seq<u8>>)
    ensures
        all_texts(segs.push(s)) == all_texts(segs) + seg_text(s),
    decreases segs.len(),
{
    if segs.len() == 0 {
        reveal_with_fuel(all_texts, 2);
        assert(segs.push(s).drop_first() =~= Seq::<PathSegment<Seq<u8>>>::empty());
        assert(all_texts(segs.push(s)) =~= all_texts(segs) + seg_text(s));
    } else {
        lemma_all_texts_push(segs.drop_first(), s);
        assert(segs.push(s).drop_first() =~= segs.drop_first().push(s));
        assert(all_texts(segs.push(s)) =~= all_texts(segs) + seg_text(s));
    }
}

proof fn lemma_written_default(segs: Seq<PathSegment<Seq<u8>>>, n: nat)
    requires
        n <= segs.len(),
    ensures
        written_prefix(segs, n, WriteOptions::spec_default()).0 == all_texts(segs.subrange(0, n as int)),
    decreases n,
{
    if n == 0 {
        assert(segs.subrange(0, 0) =~= Seq::<PathSegment<Seq<u8>>>::empty());
    } else {
        lemma_written_default(segs, (n - 1) as nat);
        let opt = WriteOptions::spec_default();
        let (b, prev, dot) = written_prefix(segs, (n - 1) as nat, opt);
        lemma_segment_default(segs[n - 1], prev, dot);
        lemma_all_texts_push(segs.subrange(0, n - 1), segs[n - 1]);
        assert(segs.subrange(0, n - 1).push(segs[n - 1]) =~= segs.subrange(0, n as int));
        let (c, printed, p2) = cmd_part(segs[n - 1], prev, opt);
        assert(written_prefix(segs, n, opt).0 =~= b + c + body_part(segs[n - 1], printed, dot, opt).0);
    }
}


/// `b`, which ends with a space, stands in `d` at `s0`; only its final space may be cut off
/// by the end of `d`. What follows it is neither a space nor a comma.
pub open spec fn laid_out(d: Seq<u8>, s0: int, b: Seq<u8>) -> bool {
    let z = s0 + b.len();
    &&& b.len() > 0
    &&& b.last() == 32
    &&& 0 <= s0
    &&& z - 1 <= d.len()
    &&& d.subrange(s0, z - 1) == b.drop_last()
    &&& z - 1 < d.len() ==> (d[z - 1] == 32 && (z == d.len() || (!spec_is_space(d[z]) && d[z]
        != 44)))
}

/// Nothing, or a text of at least two bytes that starts with neither a space nor a comma.
pub open spec fn good_rest(rest: Seq<u8>) -> bool {
    rest.len() == 0 || (rest.len() >= 2 && !spec_is_space(rest[0]) && rest[0] != 44)
}

proof fn lemma_spaces_to(d: Seq<u8>, p: int, s0: int)
    requires
        0 <= p <= s0 <= d.len(),
        forall|k: int| p <= k < s0 ==> d[k] == 32,
        s0 == d.len() || !spec_is_space(d[s0]),
    ensures
        spaces_end(d, p) == s0,
    decreases s0 - p,
{
    if p < s0 {
        lemma_spaces_to(d, p + 1, s0);
    }
}

proof fn lemma_number_first(t: Seq<u8>)
    requires
        is_number_text(t),
    ensures
        t.len() > 0,
        !spec_is_space(t[0]),
        t[0] != 44,
{
}

proof fn lemma_laid_out_suffix(d: Seq<u8>, s0: int, b: Seq<u8>, m: int)
    requires
        laid_out(d, s0, b),
        0 < m < b.len(),
    ensures
        laid_out(d, s0 + m, b.subrange(m, b.len() as int)),
{
    let c = b.subrange(m, b.len() as int);
    let z = s0 + b.len();
    assert(c.drop_last() =~= b.drop_last().subrange(m, b.len() - 1));
    assert(d.subrange(s0 + m, z - 1) =~= d.subrange(s0, z - 1).subrange(m, b.len() - 1));
}

proof fn lemma_token_at(d: Seq<u8>, s0: int, t: Seq<u8>, rest: Seq<u8>)
    requires
        laid_out(d, s0, t + seq![32u8] + rest),
        t.len() > 0,
        good_rest(rest),
    ensures
        s0 + t.len() <= d.len(),
        d.subrange(s0, s0 + t.len()) == t,
        s0 + t.len() == d.len() || d[s0 + t.len()] == 32,
        s0 + t.len() < d.len() ==> (s0 + t.len() + 1 == d.len() || (!spec_is_space(
            d[s0 + t.len() + 1],
        ) && d[s0 + t.len() + 1] != 44)),
        s0 + t.len() == d.len() ==> rest.len() == 0,
        rest.len() > 0 ==> laid_out(d, s0 + t.len() + 1, rest),
{
    let b = t + seq![32u8] + rest;
    let n = t.len() as int;
    let z = s0 + b.len();
    assert(d.subrange(s0, s0 + n) =~= d.subrange(s0, z - 1).subrange(0, n));
    assert(b.drop_last().subrange(0, n) =~= t);
    if rest.len() > 0 {
        assert(b.subrange(n + 1, b.len() as int) =~= rest);
        lemma_laid_out_suffix(d, s0, b, n + 1);
        assert(d[s0 + n] == d.subrange(s0, z - 1)[n]);
        assert(d[s0 + n + 1] == d.subrange(s0, z - 1)[n + 1]);
    }
}

proof fn lemma_list_number_layout(d: Seq<u8>, p: int, s0: int, t: Seq<u8>, rest: Seq<u8>)
    requires
        0 <= p <= s0,
        forall|k: int| p <= k < s0 ==> d[k] == 32,
        is_number_text(t),
        laid_out(d, s0, t + seq![32u8] + rest),
        good_rest(rest),
    ensures
        list_number_at(d, p) == Ok::<(Seq<u8>, int), crate::error::Error>(
            (t, if s0 + t.len() + 1 <= d.len() {
                s0 + t.len() + 1
            } else {
                d.len() as int
            }),
        ),
{
    lemma_number_first(t);
    lemma_token_at(d, s0, t, rest);
    let e = s0 + t.len();
    assert(d[s0] == t[0]) by {
        assert(d.subrange(s0, e)[0] == t[0]);
    }
    lemma_spaces_to(d, p, s0);
    lemma_number_local(d, s0, t);
    if e < d.len() {
        lemma_spaces_to(d, e, e + 1);
    }
}

proof fn lemma_numbers_layout(d: Seq<u8>, p: int, s0: int, ts: Seq<Seq<u8>>, more: Seq<u8>)
    requires
        ts.len() > 0,
        forall|i: int| 0 <= i < ts.len() ==> is_number_text(#[trigger] ts[i]),
        0 <= p <= s0,
        forall|k: int| p <= k < s0 ==> d[k] == 32,
        laid_out(d, s0, spaced(ts) + more),
        good_rest(more),
    ensures
        numbers_at(d, p, ts.len()) == Ok::<(Seq<Seq<u8>>, int), crate::error::Error>(
            (ts, if s0 + spaced(ts).len() <= d.len() {
                s0 + spaced(ts).len()
            } else {
                d.len() as int
            }),
        ),
    decreases ts.len(),
{
    let t0 = ts[0];
    let tail = ts.drop_first();
    let rest = spaced(tail) + more;
    assert(spaced(ts) + more =~= t0 + seq![32u8] + rest);
    if tail.len() > 0 {
        lemma_number_first(tail[0]);
        assert(rest[0] == tail[0][0]);
    } else {
        assert(rest =~= more);
    }
    lemma_list_number_layout(d, p, s0, t0, rest);
    lemma_token_at(d, s0, t0, rest);
    let q = s0 + t0.len() + 1;
    if tail.len() == 0 {
        assert(seq![t0] + Seq::<Seq<u8>>::empty() =~= ts);
    } else {
        assert forall|i: int| 0 <= i < tail.len() implies is_number_text(#[trigger] tail[i]) by {
            assert(tail[i] == ts[i + 1]);
        }
        assert(spaced(tail) + more =~= rest);
        lemma_numbers_layout(d, q, q, tail, more);
        assert(seq![t0] + tail =~= ts);
    }
}

proof fn lemma_flag_layout(d: Seq<u8>, p: int, s0: int, f: bool, rest: Seq<u8>)
    requires
        0 <= p <= s0,
        forall|k: int| p <= k < s0 ==> d[k] == 32,
        laid_out(d, s0, seq![flag_byte(f)] + seq![32u8] + rest),
        good_rest(rest),
    ensures
        flag_at(d, p) == Ok::<(bool, int), crate::error::Error>(
            (f, if s0 + 2 <= d.len() {
                s0 + 2
            } else {
                d.len() as int
            }),
        ),
{
    let t = seq![flag_byte(f)];
    lemma_token_at(d, s0, t, rest);
    assert(d[s0] == flag_byte(f)) by {
        assert(d.subrange(s0, s0 + 1)[0] == t[0]);
    }
    lemma_spaces_to(d, p, s0);
    if s0 + 1 < d.len() {
        lemma_spaces_to(d, s0 + 1, s0 + 2);
    }
}


proof fn lemma_letter(c: PathCommand, abs: bool)
    ensures
        spec_is_cmd(cmd_letter(c, abs)),
        spec_is_absolute(cmd_letter(c, abs)) == abs,
        spec_to_relative(cmd_letter(c, abs)) == cmd_letter(c, false),
        !spec_is_space(cmd_letter(c, abs)),
        cmd_letter(c, abs) != 44,
{
}

/// The data of an arc reads back from its text under the default options.
#[verifier::rlimit(100)]
proof fn lemma_arc_layout(d: Seq<u8>, a: int, s: PathSegment<Seq<u8>>, more: Seq<u8>)
    requires
        a >= 0,
        s is EllipticalArc,
        valid_seg(s),
        laid_out(d, a + 2, spaced(seg_tokens(s)) + more),
        d[a + 1] == 32,
        good_rest(more),
    ensures
        ({
            let end = a + 2 + spaced(seg_tokens(s)).len();
            numbers_at(d, a + 1, 3) matches Ok((v, q1)) && flag_at(d, q1) matches Ok((f1, q2))
                && flag_at(d, q2) matches Ok((f2, q3)) && numbers_at(d, q3, 2) matches Ok((w, q4))
                && v == seq![
                s->EllipticalArc_rx,
                s->EllipticalArc_ry,
                s->EllipticalArc_x_axis_rotation,
            ] && f1 == s->EllipticalArc_large_arc && f2 == s->EllipticalArc_sweep && w == seq![
                s->EllipticalArc_x,
                s->EllipticalArc_y,
            ] && q4 == if end <= d.len() {
                end
            } else {
                d.len() as int
            }
        }),
{
    let toks = seg_tokens(s);
    let rest = spaced(toks) + more;
    match s {
        PathSegment::EllipticalArc { abs, rx, ry, x_axis_rotation, large_arc, sweep, x, y } => {
            let head = seq![rx, ry, x_axis_rotation];
            let f1 = seq![flag_byte(large_arc)];
            let f2 = seq![flag_byte(sweep)];
            let tail = seq![x, y];
            let flags_tail = seq![f1, f2, x, y];
            lemma_spaced_concat(head, flags_tail);
            assert(head + flags_tail =~= toks);
            let more1 = spaced(flags_tail) + more;
            assert(rest =~= spaced(head) + more1);
            assert(more1[0] == flag_byte(large_arc));
            assert forall|i: int| 0 <= i < head.len() implies is_number_text(#[trigger] head[i]) by {}
            lemma_numbers_layout(d, a + 1, a + 2, head, more1);
            let q1 = a + 2 + spaced(head).len();
            let r1 = spaced(seq![f2, x, y]) + more;
            assert(flags_tail.drop_first() =~= seq![f2, x, y]);
            assert(more1 =~= f1 + seq![32u8] + r1);
            lemma_laid_out_suffix(d, a + 2, spaced(head) + more1, spaced(head).len() as int);
            assert((spaced(head) + more1).subrange(
                spaced(head).len() as int,
                (spaced(head) + more1).len() as int,
            ) =~= more1);
            assert(r1[0] == flag_byte(sweep));
            lemma_flag_layout(d, q1, q1, large_arc, r1);
            let r2 = spaced(tail) + more;
            assert(seq![f2, x, y].drop_first() =~= tail);
            assert(r1 =~= f2 + seq![32u8] + r2);
            lemma_laid_out_suffix(d, q1, more1, 2);
            assert(more1.subrange(2, more1.len() as int) =~= r1);
            lemma_number_first(x);
            assert(r2[0] == x[0]);
            lemma_flag_layout(d, q1 + 2, q1 + 2, sweep, r2);
            lemma_laid_out_suffix(d, q1 + 2, r1, 2);
            assert(r1.subrange(2, r1.len() as int) =~= r2);
            assert forall|i: int| 0 <= i < tail.len() implies is_number_text(#[trigger] tail[i]) by {}
            lemma_numbers_layout(d, q1 + 4, q1 + 4, tail, more);
            assert(spaced(flags_tail).len() == 4 + spaced(tail).len()) by {
                reveal_with_fuel(spaced, 3);
            }
        },
        _ => {},
    }
}

/// A segment reads back from its text under the default options.
#[verifier::rlimit(100)]
proof fn lemma_segment_layout(d: Seq<u8>, a: int, s: PathSegment<Seq<u8>>, more: Seq<u8>)
    requires
        valid_seg(s),
        laid_out(d, a, seg_text(s) + more),
        good_rest(more),
    ensures
        segment_at(d, a + 1, cmd_letter(s.spec_cmd(), s.spec_abs())) == Ok::<
            (PathSegment<Seq<u8>>, int),
            crate::error::Error,
        >(
            (s, if s.spec_cmd() == PathCommand::ClosePath {
                a + 1
            } else if a + seg_text(s).len() <= d.len() {
                a + seg_text(s).len()
            } else {
                d.len() as int
            }),
        ),
{
    reveal(segment_at);
    lemma_letter(s.spec_cmd(), s.spec_abs());
    let toks = seg_tokens(s);
    let b = seg_text(s) + more;
    let z = a + b.len();
    let rest = spaced(toks) + more;
    assert(b.subrange(2, b.len() as int) =~= rest);
    if s.spec_cmd() != PathCommand::ClosePath {
        assert(toks.len() > 0);
        assert(d[a + 1] == 32) by {
            assert(spaced(toks).len() > 0);
            assert(d.subrange(a, z - 1)[1] == b.drop_last()[1]);
        }
        lemma_laid_out_suffix(d, a, b, 2);
        if s is EllipticalArc {
            lemma_arc_layout(d, a, s, more);
        } else {
            let cs = coords_of(s);
            assert(cs =~= toks);
            lemma_number_first(cs[0]);
            lemma_numbers_layout(d, a + 1, a + 2, cs, more);
            assert(arity(cmd_letter(s.spec_cmd(), false)) == cs.len());
            assert(build_segment(cmd_letter(s.spec_cmd(), false), s.spec_abs(), cs) == s);
        }
    }
}

/// The tokenizer reads back one segment from its text under the default options.
proof fn lemma_step_layout(
    d: Seq<u8>,
    p: int,
    a: int,
    s: PathSegment<Seq<u8>>,
    more: Seq<u8>,
    prev: Option<u8>,
)
    requires
        0 <= p <= a,
        forall|k: int| p <= k < a ==> d[k] == 32,
        valid_seg(s),
        prev_ok(prev),
        prev is None ==> s.spec_cmd() == PathCommand::MoveTo,
        laid_out(d, a, seg_text(s) + more),
        good_rest(more),
    ensures
        parse_step(d, p, prev) == (
            Some(Ok::<PathSegment<Seq<u8>>, crate::error::Error>(s)),
            if s.spec_cmd() == PathCommand::ClosePath {
                a + 1
            } else if a + seg_text(s).len() <= d.len() {
                a + seg_text(s).len()
            } else {
                d.len() as int
            },
            Some(cmd_letter(s.spec_cmd(), s.spec_abs())),
        ),
{
    let l = cmd_letter(s.spec_cmd(), s.spec_abs());
    lemma_letter(s.spec_cmd(), s.spec_abs());
    let b = seg_text(s) + more;
    let z = a + b.len();
    assert(b[0] == l);
    assert(d[a] == l) by {
        assert(d.subrange(a, z - 1)[0] == b.drop_last()[0]);
    }
    lemma_spaces_to(d, p, a);
    lemma_segment_layout(d, a, s, more);
}

/// The tokenizer reads back every segment from the text of a sequence of segments under the
/// default options.
proof fn lemma_parse_texts(pre: Seq<u8>, segs: Seq<PathSegment<Seq<u8>>>, prev: Option<u8>, p: int)
    requires
        segs.len() > 0,
        forall|i: int| 0 <= i < segs.len() ==> valid_seg(#[trigger] segs[i]),
        prev_ok(prev),
        prev is None ==> segs[0].spec_cmd() == PathCommand::MoveTo,
        0 <= p <= pre.len(),
        forall|k: int| p <= k < pre.len() ==> pre[k] == 32,
    ensures
        parse_all((pre + all_texts(segs)).drop_last(), p, prev) == (
            segs,
            None::<crate::error::Error>,
        ),
    decreases segs.len(),
{
    let d = (pre + all_texts(segs)).drop_last();
    let s = segs[0];
    let tail = segs.drop_first();
    let more = all_texts(tail);
    let st = seg_text(s);
    let a = pre.len() as int;
    assert(all_texts(segs) == st + more);
    assert(st.len() >= 2);
    assert((st + more).last() == 32) by {
        if more.len() > 0 {
            assert(tail.len() > 0);
            lemma_all_texts_last(tail);
        } else {
            if spaced(seg_tokens(s)).len() > 0 {
                lemma_spaced_last(seg_tokens(s));
            }
        }
    }
    assert(d.subrange(a, a + (st + more).len() - 1) =~= (st + more).drop_last());
    assert forall|k: int| p <= k < a implies d[k] == 32 by {
        assert(d[k] == pre[k]);
    }
    if more.len() > 0 {
        lemma_all_texts_first(tail);
    }
    lemma_step_layout(d, p, a, s, more, prev);
    let l = cmd_letter(s.spec_cmd(), s.spec_abs());
    lemma_letter(s.spec_cmd(), s.spec_abs());
    let q = if s.spec_cmd() == PathCommand::ClosePath {
        a + 1
    } else if a + st.len() <= d.len() {
        a + st.len()
    } else {
        d.len() as int
    };
    if tail.len() == 0 {
        assert(more.len() == 0);
        assert(q == d.len());
        assert(parse_all(d, q, Some(l)) == (Seq::<PathSegment<Seq<u8>>>::empty(), None::<crate::error::Error>));
        assert(seq![s] + Seq::<PathSegment<Seq<u8>>>::empty() =~= segs);
    } else {
        let pre2 = pre + st;
        assert(pre + all_texts(segs) =~= pre2 + all_texts(tail));
        assert forall|k: int| q <= k < pre2.len() implies pre2[k] == 32 by {
            assert(pre2[k] == st[k - a]);
        }
        assert forall|i: int| 0 <= i < tail.len() implies valid_seg(#[trigger] tail[i]) by {
            assert(tail[i] == segs[i + 1]);
        }
        lemma_parse_texts(pre2, tail, Some(l), q);
        assert(seq![s] + tail =~= segs);
    }
}

proof fn lemma_all_texts_last(segs: Seq<PathSegment<Seq<u8>>>)
    requires
        segs.len() > 0,
    ensures
        all_texts(segs).len() >= 2,
        all_texts(segs).last() == 32,
    decreases segs.len(),
{
    let st = seg_text(segs[0]);
    if segs.len() > 1 {
        lemma_all_texts_last(segs.drop_first());
    } else {
        reveal_with_fuel(all_texts, 2);
        if spaced(seg_tokens(segs[0])).len() > 0 {
            lemma_spaced_last(seg_tokens(segs[0]));
        }
    }
}

proof fn lemma_all_texts_first(segs: Seq<PathSegment<Seq<u8>>>)
    requires
        segs.len() > 0,
    ensures
        good_rest(all_texts(segs)),
{
    lemma_letter(segs[0].spec_cmd(), segs[0].spec_abs());
}


proof fn lemma_numbers_valid(d: Seq<u8>, p: int, n: nat)
    requires
        0 <= p <= d.len(),
    ensures
        numbers_at(d, p, n) matches Ok((v, q)) ==> forall|i: int|
            0 <= i < v.len() ==> is_number_text(#[trigger] v[i]),
        numbers_at(d, p, n) matches Ok((v, q)) ==> v.len() == n,
    decreases n,
{
    if n > 0 {
        crate::path_parser::lemma_list_number_at(d, p);
        if let Ok((t, q)) = list_number_at(d, p) {
            let start = spaces_end(d, p);
            lemma_spaces_end(d, p);
            lemma_number_text(d, start);
            lemma_numbers_valid(d, q, (n - 1) as nat);
            if let Ok((v, r)) = numbers_at(d, q, (n - 1) as nat) {
                assert forall|i: int| 0 <= i < v.len() + 1 implies is_number_text(
                    #[trigger] (seq![t] + v)[i],
                ) by {
                    if i > 0 {
                        assert((seq![t] + v)[i] == v[i - 1]);
                    }
                }
            }
        }
    }
}

proof fn lemma_segment_valid(d: Seq<u8>, p: int, cmd: u8)
    requires
        0 <= p <= d.len(),
    ensures
        segment_at(d, p, cmd) matches Ok((s, q)) ==> valid_seg(s) && (spec_to_relative(cmd)
            == 109 ==> s.spec_cmd() == PathCommand::MoveTo),
{
    reveal(segment_at);
    let lc = spec_to_relative(cmd);
    if lc == 97 {
        lemma_numbers_valid(d, p, 3);
        crate::path_parser::lemma_numbers_at(d, p, 3);
        if let Ok((a, p1)) = numbers_at(d, p, 3) {
            crate::path_parser::lemma_flag_at(d, p1);
            if let Ok((f1, p2)) = flag_at(d, p1) {
                crate::path_parser::lemma_flag_at(d, p2);
                if let Ok((f2, p3)) = flag_at(d, p2) {
                    lemma_numbers_valid(d, p3, 2);
                }
            }
        }
    } else if lc != 122 {
        lemma_numbers_valid(d, p, arity(lc));
        if let Ok((v, q)) = numbers_at(d, p, arity(lc)) {
            let s = build_segment(lc, spec_is_absolute(cmd), v);
            assert forall|i: int| 0 <= i < coords_of(s).len() implies is_number_text(
                #[trigger] coords_of(s)[i],
            ) by {
                assert(coords_of(s)[i] == v[i]);
            }
        }
    }
}

proof fn lemma_parse_all_valid(d: Seq<u8>, pos: int, prev: Option<u8>)
    requires
        0 <= pos <= d.len(),
        prev_ok(prev),
    ensures
        forall|i: int|
            0 <= i < parse_all(d, pos, prev).0.len() ==> valid_seg(
                #[trigger] parse_all(d, pos, prev).0[i],
            ),
        prev is None && parse_all(d, pos, prev).0.len() > 0 ==> parse_all(d, pos, prev).0[0].spec_cmd()
            == PathCommand::MoveTo,
    decreases d.len() - pos,
{
    lemma_parse_step(d, pos, prev);
    lemma_spaces_end(d, pos);
    let p0 = spaces_end(d, pos);
    let (t, q, pr) = parse_step(d, pos, prev);
    if p0 < d.len() {
        if let Some((cmd, explicit)) = command_of(d[p0], prev) {
            let p1 = if explicit {
                p0 + 1
            } else {
                p0
            };
            lemma_segment_valid(d, p1, cmd);
            if let Some(Ok(seg)) = t {
                lemma_parse_all_valid(d, q, pr);
                let rest = parse_all(d, q, pr).0;
                assert forall|i: int| 0 <= i < rest.len() + 1 implies valid_seg(
                    #[trigger] (seq![seg] + rest)[i],
                ) by {
                    if i > 0 {
                        assert((seq![seg] + rest)[i] == rest[i - 1]);
                    }
                }
            }
        }
    }
}

/// Writing with the default options what the tokenizer read from a text without errors, and
/// reading it again, gives the same segments and no error.
pub proof fn lemma_round_trip(text: Seq<u8>)
    requires
        parse_all(text, 0, None).1 is None,
    ensures
        parse_all(written_path(parse_all(text, 0, None).0, WriteOptions::spec_default()), 0, None)
            == (parse_all(text, 0, None).0, None::<crate::error::Error>),
{
    let segs = parse_all(text, 0, None).0;
    let opt = WriteOptions::spec_default();
    lemma_written_default(segs, segs.len());
    assert(segs.subrange(0, segs.len() as int) =~= segs);
    if segs.len() == 0 {
        assert(written_path(segs, opt) =~= Seq::<u8>::empty());
        lemma_spaces_end(Seq::<u8>::empty(), 0);
    } else {
        lemma_parse_all_valid(text, 0, None);
        lemma_all_texts_last(segs);
        assert(Seq::<u8>::empty() + all_texts(segs) =~= all_texts(segs));
        lemma_parse_texts(Seq::<u8>::empty(), segs, None, 0);
    }
}

} // verus!
