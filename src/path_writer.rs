use vstd::prelude::*;

use vstd::string::StringSliceAdditionalSpecFns;

use crate::error::{copy_bytes, push_bytes};
use crate::path_parser::{parse_all, parse_path};
use crate::options::WriteOptions;
use crate::segment::{PathCommand, PathSegment};
use crate::stream::{is_digit, is_sign, spec_is_digit, spec_is_sign};

verus! {

/// The text of a number with the zero before its decimal point removed: `0.5` becomes
/// `.5` and `-0.5` becomes `-.5`. Other texts are kept.
pub open spec fn spec_trim_leading_zero(t: Seq<u8>) -> Seq<u8> {
    if t.len() >= 3 && t[0] == 48 && t[1] == 46 && spec_is_digit(t[2]) {
        t.subrange(1, t.len() as int)
    } else if t.len() >= 4 && spec_is_sign(t[0]) && t[1] == 48 && t[2] == 46 && spec_is_digit(
        t[3],
    ) {
        seq![t[0]] + t.subrange(2, t.len() as int)
    } else {
        t
    }
}

/// The text that the writer prints for the number text `t`.
pub open spec fn number_text(t: Seq<u8>, opt: WriteOptions) -> Seq<u8> {
    if opt.remove_leading_zero {
        spec_trim_leading_zero(t)
    } else {
        t
    }
}

/// Removes the zero before the decimal point of a number text, as `spec_trim_leading_zero`
/// describes.
pub fn trim_leading_zero(t: &[u8]) -> (r: Vec<u8>)
    ensures
        r@ == spec_trim_leading_zero(t@),
{
    let mut out: Vec<u8> = Vec::new();
    if t.len() >= 3 && t[0] == '0' as u8 && t[1] == '.' as u8 && is_digit(t[2]) {
        push_bytes(&mut out, &t[1..t.len()]);
    } else if t.len() >= 4 && is_sign(t[0]) && t[1] == '0' as u8 && t[2] == '.' as u8 && is_digit(
        t[3],
    ) {
        out.push(t[0]);
        push_bytes(&mut out, &t[2..t.len()]);
    } else {
        push_bytes(&mut out, t);
    }
    out
}

/// The letter of a command.
pub open spec fn cmd_letter(cmd: PathCommand, abs: bool) -> u8 {
    let upper: u8 = match cmd {
        PathCommand::MoveTo => 77,
        PathCommand::LineTo => 76,
        PathCommand::HorizontalLineTo => 72,
        PathCommand::VerticalLineTo => 86,
        PathCommand::CurveTo => 67,
        PathCommand::SmoothCurveTo => 83,
        PathCommand::Quadratic => 81,
        PathCommand::SmoothQuadratic => 84,
        PathCommand::EllipticalArc => 65,
        PathCommand::ClosePath => 90,
    };
    if abs {
        upper
    } else {
        (upper + 32) as u8
    }
}

/// What the writer remembers of the previous segment: its kind, its absolute flag, and
/// whether its letter was left out as an implicit LineTo.
pub type PrevCmd = (PathCommand, bool, bool);

/// The letter that starts `seg` (if it is printed), whether it is printed, and what to
/// remember of it.
pub open spec fn cmd_part(seg: PathSegment<Seq<u8>>, prev: Option<PrevCmd>, opt: WriteOptions) -> (
    Seq<u8>,
    bool,
    Option<PrevCmd>,
) {
    let dup = opt.remove_duplicated_path_commands && prev is Some && prev->Some_0.0
        != PathCommand::MoveTo && seg.spec_cmd() == prev->Some_0.0 && seg.spec_abs()
        == prev->Some_0.1;
    let implicit = opt.use_implicit_lineto_commands && prev is Some && seg.spec_abs()
        == prev->Some_0.1 && seg.spec_cmd() == PathCommand::LineTo && (prev->Some_0.2
        || prev->Some_0.0 == PathCommand::MoveTo);
    let print = !dup && !implicit;
    let out = if print {
        seq![cmd_letter(seg.spec_cmd(), seg.spec_abs())] + if !(seg.spec_cmd()
            == PathCommand::ClosePath || opt.use_compact_path_notation) {
            seq![32u8]
        } else {
            Seq::<u8>::empty()
        }
    } else {
        Seq::<u8>::empty()
    };
    (out, print, Some((seg.spec_cmd(), seg.spec_abs(), implicit)))
}

/// The numbers `cs` as the writer prints them, and whether the last one printed holds a
/// decimal point.
///
/// In compact notation a number gets a space before it only where it would otherwise fuse
/// with the previous token: when it starts with a digit, or with a decimal point while the
/// previous number has none. The first number after a printed letter never needs one.
pub open spec fn coords_part(cs: Seq<Seq<u8>>, explicit: bool, dot: bool, opt: WriteOptions) -> (
    Seq<u8>,
    bool,
)
    decreases cs.len(),
{
    if cs.len() == 0 {
        (seq![], dot)
    } else {
        let (b, d1) = coords_part(cs.drop_last(), explicit, dot, opt);
        let t = number_text(cs.last(), opt);
        if opt.use_compact_path_notation {
            let first = cs.len() == 1 && explicit;
            let c = if t.len() > 0 {
                t[0]
            } else {
                0u8
            };
            let space = if !d1 && c == 46 {
                !first
            } else if first {
                false
            } else {
                spec_is_digit(c)
            };
            (b + (if space {
                seq![32u8]
            } else {
                Seq::<u8>::empty()
            }) + t, t.contains(46u8))
        } else {
            (b + t + seq![32u8], d1)
        }
    }
}

/// The numbers of a segment other than an arc, in order.
pub open spec fn coords_of(seg: PathSegment<Seq<u8>>) -> Seq<Seq<u8>> {
    match seg {
        PathSegment::MoveTo { x, y, .. } => seq![x, y],
        PathSegment::LineTo { x, y, .. } => seq![x, y],
        PathSegment::SmoothQuadratic { x, y, .. } => seq![x, y],
        PathSegment::HorizontalLineTo { x, .. } => seq![x],
        PathSegment::VerticalLineTo { y, .. } => seq![y],
        PathSegment::CurveTo { x1, y1, x2, y2, x, y, .. } => seq![x1, y1, x2, y2, x, y],
        PathSegment::SmoothCurveTo { x2, y2, x, y, .. } => seq![x2, y2, x, y],
        PathSegment::Quadratic { x1, y1, x, y, .. } => seq![x1, y1, x, y],
        _ => seq![],
    }
}

/// `1` or `0`.
pub open spec fn flag_byte(f: bool) -> u8 {
    if f {
        49
    } else {
        48
    }
}

/// The two flags of an arc as the writer prints them.
pub open spec fn flags_part(large_arc: bool, sweep: bool, opt: WriteOptions) -> Seq<u8> {
    let sep = if !opt.join_arc_to_flags {
        seq![32u8]
    } else {
        Seq::<u8>::empty()
    };
    let lead = if opt.use_compact_path_notation {
        seq![32u8]
    } else {
        Seq::<u8>::empty()
    };
    lead + seq![flag_byte(large_arc)] + sep + seq![flag_byte(sweep)] + sep
}

/// The data of `seg` as the writer prints it, and whether the last number printed holds a
/// decimal point.
pub open spec fn body_part(seg: PathSegment<Seq<u8>>, written: bool, dot: bool, opt: WriteOptions) -> (
    Seq<u8>,
    bool,
) {
    match seg {
        PathSegment::EllipticalArc { rx, ry, x_axis_rotation, large_arc, sweep, x, y, .. } => {
            let (b1, d1) = coords_part(seq![rx, ry, x_axis_rotation], written, dot, opt);
            let b2 = flags_part(large_arc, sweep, opt);
            let (b3, d3) = coords_part(seq![x, y], true, false, opt);
            (b1 + b2 + b3, d3)
        },
        PathSegment::ClosePath { .. } => (
            if !opt.use_compact_path_notation {
                seq![32u8]
            } else {
                Seq::<u8>::empty()
            },
            dot,
        ),
        _ => coords_part(coords_of(seg), written, dot, opt),
    }
}

/// The text of the first `n` segments, and the writer's state after them.
pub open spec fn written_prefix(segs: Seq<PathSegment<Seq<u8>>>, n: nat, opt: WriteOptions) -> (
    Seq<u8>,
    Option<PrevCmd>,
    bool,
)
    decreases n,
{
    if n == 0 || n > segs.len() {
        (seq![], None, false)
    } else {
        let (b, prev, dot) = written_prefix(segs, (n - 1) as nat, opt);
        let (c, printed, prev2) = cmd_part(segs[n - 1], prev, opt);
        let (body, dot2) = body_part(segs[n - 1], printed, dot, opt);
        (b + c + body, prev2, dot2)
    }
}

/// The text of a whole path. Outside compact notation every token is followed by a space,
/// and the last such space is dropped.
pub open spec fn written_path(segs: Seq<PathSegment<Seq<u8>>>, opt: WriteOptions) -> Seq<u8> {
    let b = written_prefix(segs, segs.len(), opt).0;
    if !opt.use_compact_path_notation && b.len() > 0 {
        b.drop_last()
    } else {
        b
    }
}

/// Writes the letter of `seg` to `out`.
pub fn write_cmd_char<N>(seg: &PathSegment<N>, out: &mut Vec<u8>)
    ensures
        final(out)@ == old(out)@.push(cmd_letter(seg.spec_cmd(), seg.spec_abs())),
{
    let upper: u8 = match seg.cmd() {
        PathCommand::MoveTo => 'M' as u8,
        PathCommand::LineTo => 'L' as u8,
        PathCommand::HorizontalLineTo => 'H' as u8,
        PathCommand::VerticalLineTo => 'V' as u8,
        PathCommand::CurveTo => 'C' as u8,
        PathCommand::SmoothCurveTo => 'S' as u8,
        PathCommand::Quadratic => 'Q' as u8,
        PathCommand::SmoothQuadratic => 'T' as u8,
        PathCommand::EllipticalArc => 'A' as u8,
        PathCommand::ClosePath => 'Z' as u8,
    };
    if seg.is_absolute() {
        out.push(upper);
    } else {
        out.push(upper + 32);
    }
}

/// Writes the letter of `seg` unless the options let it be left out, and updates what is
/// remembered of the previous segment. Returns whether the letter was written.
fn write_cmd(seg: &PathSegment<Vec<u8>>, prev: &mut Option<PrevCmd>, opt: &WriteOptions, out: &mut Vec<u8>) -> (r: bool)
    ensures
        ({
            let (c, printed, p2) = cmd_part(seg@, *old(prev), *opt);
            &&& final(out)@ == old(out)@ + c
            &&& r == printed
            &&& *final(prev) == p2
        }),
{
    let cmd = seg.cmd();
    let abs = seg.is_absolute();
    let mut print = true;
    if opt.remove_duplicated_path_commands {
        if let Some(pc) = *prev {
            if pc.0 != PathCommand::MoveTo && cmd == pc.0 && abs == pc.1 {
                print = false;
            }
        }
    }
    let mut implicit = false;
    if opt.use_implicit_lineto_commands {
        if let Some(pc) = *prev {
            if abs == pc.1 && cmd == PathCommand::LineTo && (pc.2 || pc.0 == PathCommand::MoveTo) {
                implicit = true;
                print = false;
            }
        }
    }
    *prev = Some((cmd, abs, implicit));
    if !print {
        assert(out@ =~= old(out)@ + Seq::<u8>::empty());
        return false;
    }
    write_cmd_char(seg, out);
    if !(cmd == PathCommand::ClosePath || opt.use_compact_path_notation) {
        out.push(' ' as u8);
    }
    assert(out@ =~= old(out)@ + cmd_part(seg@, *old(prev), *opt).0);
    true
}

/// Checks whether a text holds a decimal point.
fn has_dot(t: &[u8]) -> (r: bool)
    ensures
        r == t@.contains(46u8),
{
    let mut i: usize = 0;
    while i < t.len()
        invariant
            i <= t@.len(),
            forall|k: int| 0 <= k < i ==> t@[k] != 46u8,
        decreases t@.len() - i,
    {
        if t[i] == '.' as u8 {
            return true;
        }
        i = i + 1;
    }
    false
}

/// Writes numbers as `coords_part` describes.
fn write_coords(
    cs: &Vec<&Vec<u8>>,
    explicit: bool,
    dot: &mut bool,
    opt: &WriteOptions,
    out: &mut Vec<u8>,
)
    ensures
        ({
            let (b, d) = coords_part(cs@.map_values(|t: &Vec<u8>| t@), explicit, *old(dot), *opt);
            &&& final(out)@ == old(out)@ + b
            &&& *final(dot) == d
        }),
{
    let ghost all = cs@.map_values(|t: &Vec<u8>| t@);
    let mut i: usize = 0;
    while i < cs.len()
        invariant
            i <= cs@.len(),
            all == cs@.map_values(|t: &Vec<u8>| t@),
            ({
                let (b, d) = coords_part(all.subrange(0, i as int), explicit, *old(dot), *opt);
                &&& out@ == old(out)@ + b
                &&& *dot == d
            }),
        decreases cs@.len() - i,
    {
        let ghost before = out@;
        let ghost sub = all.subrange(0, i + 1);
        assert(sub.drop_last() =~= all.subrange(0, i as int));
        let t = if opt.remove_leading_zero {
            trim_leading_zero(cs[i].as_slice())
        } else {
            let mut v: Vec<u8> = Vec::new();
            push_bytes(&mut v, cs[i].as_slice());
            v
        };
        if opt.use_compact_path_notation {
            let first = i == 0 && explicit;
            let c: u8 = if t.len() > 0 {
                t[0]
            } else {
                0
            };
            let space = if !*dot && c == '.' as u8 {
                !first
            } else if first {
                false
            } else {
                is_digit(c)
            };
            if space {
                out.push(' ' as u8);
            }
            push_bytes(out, t.as_slice());
            *dot = has_dot(t.as_slice());
            proof {
                if space {
                    assert(out@ =~= before + seq![32u8] + t@);
                } else {
                    assert(out@ =~= before + Seq::<u8>::empty() + t@);
                }
            }
        } else {
            push_bytes(out, t.as_slice());
            out.push(' ' as u8);
            assert(out@ =~= before + t@ + seq![32u8]);
        }
        i = i + 1;
    }
    assert(all.subrange(0, cs@.len() as int) =~= all);
}

/// Writes `1` or `0`.
fn write_flag(f: bool, out: &mut Vec<u8>)
    ensures
        final(out)@ == old(out)@.push(flag_byte(f)),
{
    out.push(if f {
        '1' as u8
    } else {
        '0' as u8
    });
}

/// The numbers of a segment other than an arc, in order.
fn coords_vec(seg: &PathSegment<Vec<u8>>) -> (r: Vec<&Vec<u8>>)
    ensures
        r@.map_values(|t: &Vec<u8>| t@) == coords_of(seg@),
{
    let r = match seg {
        PathSegment::MoveTo { x, y, .. } => vec![x, y],
        PathSegment::LineTo { x, y, .. } => vec![x, y],
        PathSegment::SmoothQuadratic { x, y, .. } => vec![x, y],
        PathSegment::HorizontalLineTo { x, .. } => vec![x],
        PathSegment::VerticalLineTo { y, .. } => vec![y],
        PathSegment::CurveTo { x1, y1, x2, y2, x, y, .. } => vec![x1, y1, x2, y2, x, y],
        PathSegment::SmoothCurveTo { x2, y2, x, y, .. } => vec![x2, y2, x, y],
        PathSegment::Quadratic { x1, y1, x, y, .. } => vec![x1, y1, x, y],
        _ => Vec::new(),
    };
    assert(r@.map_values(|t: &Vec<u8>| t@) =~= coords_of(seg@));
    r
}

/// Writes the two flags of an arc.
fn write_flags(large_arc: bool, sweep: bool, opt: &WriteOptions, out: &mut Vec<u8>)
    ensures
        final(out)@ == old(out)@ + flags_part(large_arc, sweep, *opt),
{
    if opt.use_compact_path_notation {
        out.push(' ' as u8);
    }
    write_flag(large_arc, out);
    if !opt.join_arc_to_flags {
        out.push(' ' as u8);
    }
    write_flag(sweep, out);
    if !opt.join_arc_to_flags {
        out.push(' ' as u8);
    }
    assert(out@ =~= old(out)@ + flags_part(large_arc, sweep, *opt));
}

/// Writes the data of an arc as `body_part` describes.
fn write_arc(
    rx: &Vec<u8>,
    ry: &Vec<u8>,
    x_axis_rotation: &Vec<u8>,
    large_arc: bool,
    sweep: bool,
    x: &Vec<u8>,
    y: &Vec<u8>,
    is_written: bool,
    dot: &mut bool,
    opt: &WriteOptions,
    out: &mut Vec<u8>,
)
    ensures
        final(out)@ == old(out)@ + (coords_part(
            seq![rx@, ry@, x_axis_rotation@],
            is_written,
            *old(dot),
            *opt,
        ).0 + flags_part(large_arc, sweep, *opt) + coords_part(seq![x@, y@], true, false, *opt).0),
        *final(dot) == coords_part(seq![x@, y@], true, false, *opt).1,
{
    let ghost before = out@;
    let head = vec![rx, ry, x_axis_rotation];
    assert(head@.map_values(|t: &Vec<u8>| t@) =~= seq![rx@, ry@, x_axis_rotation@]);
    write_coords(&head, is_written, dot, opt, out);
    let ghost b1 = out@;
    write_flags(large_arc, sweep, opt, out);
    let ghost b2 = out@;
    *dot = false;
    let tail = vec![x, y];
    assert(tail@.map_values(|t: &Vec<u8>| t@) =~= seq![x@, y@]);
    write_coords(&tail, true, dot, opt, out);
    assert(out@ =~= before + (coords_part(
        seq![rx@, ry@, x_axis_rotation@],
        is_written,
        *old(dot),
        *opt,
    ).0 + flags_part(large_arc, sweep, *opt) + coords_part(seq![x@, y@], true, false, *opt).0));
}

/// Writes the data of a segment as `body_part` describes.
pub fn write_segment(
    seg: &PathSegment<Vec<u8>>,
    is_written: bool,
    prev_coord_has_dot: &mut bool,
    opt: &WriteOptions,
    out: &mut Vec<u8>,
)
    ensures
        ({
            let (b, d) = body_part(seg@, is_written, *old(prev_coord_has_dot), *opt);
            &&& final(out)@ == old(out)@ + b
            &&& *final(prev_coord_has_dot) == d
        }),
{
    match seg {
        PathSegment::EllipticalArc { rx, ry, x_axis_rotation, large_arc, sweep, x, y, .. } => {
            write_arc(
                rx,
                ry,
                x_axis_rotation,
                *large_arc,
                *sweep,
                x,
                y,
                is_written,
                prev_coord_has_dot,
                opt,
                out,
            );
        },
        PathSegment::ClosePath { .. } => {
            let ghost before = out@;
            if !opt.use_compact_path_notation {
                out.push(' ' as u8);
            }
            assert(out@ =~= before + body_part(seg@, is_written, *old(prev_coord_has_dot), *opt).0);
        },
        _ => {
            let cs = coords_vec(seg);
            write_coords(&cs, is_written, prev_coord_has_dot, opt, out);
        },
    }
}

/// Writes a path whose numbers are given as text.
///
/// The text of each number is printed as it is, but for the leading zero that
/// `remove_leading_zero` drops.
pub fn write_path(segs: &[PathSegment<Vec<u8>>], opt: &WriteOptions) -> (r: Vec<u8>)
    ensures
        r@ == written_path(segs@.map_values(|s: PathSegment<Vec<u8>>| s@), *opt),
{
    let ghost all = segs@.map_values(|s: PathSegment<Vec<u8>>| s@);
    let mut out: Vec<u8> = Vec::new();
    let mut prev: Option<PrevCmd> = None;
    let mut dot = false;
    let mut i: usize = 0;
    while i < segs.len()
        invariant
            i <= segs@.len(),
            all == segs@.map_values(|s: PathSegment<Vec<u8>>| s@),
            written_prefix(all, i as nat, *opt) == (out@, prev, dot),
        decreases segs@.len() - i,
    {
        let ghost before = out@;
        let written = write_cmd(&segs[i], &mut prev, opt, &mut out);
        let ghost mid = out@;
        write_segment(&segs[i], written, &mut dot, opt, &mut out);
        i = i + 1;
        proof {
            assert(all[i - 1] == segs@[i - 1]@);
            let (c, printed, p2) = cmd_part(all[i - 1], written_prefix(all, (i - 1) as nat, *opt).1, *opt);
            assert(out@ =~= before + c + body_part(all[i - 1], printed, written_prefix(all, (i - 1) as nat, *opt).2, *opt).0);
        }
    }
    if !opt.use_compact_path_notation && out.len() > 0 {
        out.pop();
        assert(out@ =~= written_prefix(all, all.len(), *opt).0.drop_last());
    }
    out
}


/// A copy of a segment whose numbers are borrowed text, with the text owned.
pub fn owned_segment(seg: &PathSegment<&[u8]>) -> (r: PathSegment<Vec<u8>>)
    ensures
        r@ == seg@,
{
    match seg {
        PathSegment::MoveTo { abs, x, y } => PathSegment::MoveTo {
            abs: *abs,
            x: copy_bytes(x),
            y: copy_bytes(y),
        },
        PathSegment::LineTo { abs, x, y } => PathSegment::LineTo {
            abs: *abs,
            x: copy_bytes(x),
            y: copy_bytes(y),
        },
        PathSegment::HorizontalLineTo { abs, x } => PathSegment::HorizontalLineTo {
            abs: *abs,
            x: copy_bytes(x),
        },
        PathSegment::VerticalLineTo { abs, y } => PathSegment::VerticalLineTo {
            abs: *abs,
            y: copy_bytes(y),
        },
        PathSegment::CurveTo { abs, x1, y1, x2, y2, x, y } => PathSegment::CurveTo {
            abs: *abs,
            x1: copy_bytes(x1),
            y1: copy_bytes(y1),
            x2: copy_bytes(x2),
            y2: copy_bytes(y2),
            x: copy_bytes(x),
            y: copy_bytes(y),
        },
        PathSegment::SmoothCurveTo { abs, x2, y2, x, y } => PathSegment::SmoothCurveTo {
            abs: *abs,
            x2: copy_bytes(x2),
            y2: copy_bytes(y2),
            x: copy_bytes(x),
            y: copy_bytes(y),
        },
        PathSegment::Quadratic { abs, x1, y1, x, y } => PathSegment::Quadratic {
            abs: *abs,
            x1: copy_bytes(x1),
            y1: copy_bytes(y1),
            x: copy_bytes(x),
            y: copy_bytes(y),
        },
        PathSegment::SmoothQuadratic { abs, x, y } => PathSegment::SmoothQuadratic {
            abs: *abs,
            x: copy_bytes(x),
            y: copy_bytes(y),
        },
        PathSegment::EllipticalArc { abs, rx, ry, x_axis_rotation, large_arc, sweep, x, y } => {
            PathSegment::EllipticalArc {
                abs: *abs,
                rx: copy_bytes(rx),
                ry: copy_bytes(ry),
                x_axis_rotation: copy_bytes(x_axis_rotation),
                large_arc: *large_arc,
                sweep: *sweep,
                x: copy_bytes(x),
                y: copy_bytes(y),
            }
        },
        PathSegment::ClosePath { abs } => PathSegment::ClosePath { abs: *abs },
    }
}

/// Parses a path and writes it out again with `opt`, stopping at the first error.
pub fn rewrite_path(text: &str, opt: &WriteOptions) -> (r: Vec<u8>)
    ensures
        r@ == written_path(parse_all(text.spec_bytes(), 0, None).0, *opt),
{
    let (segs, _) = parse_path(text);
    let mut owned: Vec<PathSegment<Vec<u8>>> = Vec::new();
    let mut i: usize = 0;
    while i < segs.len()
        invariant
            i <= segs@.len(),
            owned@.len() == i,
            forall|k: int| 0 <= k < i ==> #[trigger] owned@[k]@ == segs@[k]@,
        decreases segs@.len() - i,
    {
        owned.push(owned_segment(&segs[i]));
        i = i + 1;
    }
    assert(owned@.map_values(|s: PathSegment<Vec<u8>>| s@) =~= segs@.map_values(
        |s: PathSegment<&[u8]>| s@,
    ));
    write_path(owned.as_slice(), opt)
}

} // verus!
