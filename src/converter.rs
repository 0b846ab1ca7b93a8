use vstd::prelude::*;

use crate::segment::{PathCommand, PathSegment};

verus! {

/// Every segment of `segs` is absolute.
pub open spec fn all_absolute<N>(segs: Seq<PathSegment<N>>) -> bool {
    forall|i: int| 0 <= i < segs.len() ==> #[trigger] segs[i].spec_abs()
}

/// Every segment of `segs` is relative.
pub open spec fn all_relative<N>(segs: Seq<PathSegment<N>>) -> bool {
    forall|i: int| 0 <= i < segs.len() ==> !#[trigger] segs[i].spec_abs()
}

/// Both sequences hold segments of the same kinds, in the same order.
pub open spec fn same_kinds<N>(a: Seq<PathSegment<N>>, b: Seq<PathSegment<N>>) -> bool {
    &&& a.len() == b.len()
    &&& forall|i: int| 0 <= i < a.len() ==> #[trigger] a[i].spec_cmd() == b[i].spec_cmd()
}

/// The current point and the start of the current subpath, `(x, y, mx, my)`, after the
/// absolute segments `out`, starting from `zero`.
pub open spec fn abs_state<N>(out: Seq<PathSegment<N>>, zero: N) -> (N, N, N, N)
    decreases out.len(),
{
    if out.len() == 0 {
        (zero, zero, zero, zero)
    } else {
        let (x, y, mx, my) = abs_state(out.drop_last(), zero);
        let s = out.last();
        if s.spec_cmd() == PathCommand::ClosePath {
            (mx, my, mx, my)
        } else {
            let ex = match s.spec_x() {
                Some(v) => v,
                None => x,
            };
            let ey = match s.spec_y() {
                Some(v) => v,
                None => y,
            };
            if s.spec_cmd() == PathCommand::MoveTo {
                (ex, ey, ex, ey)
            } else {
                (ex, ey, mx, my)
            }
        }
    }
}

/// `nst` is the current point and subpath start `(x, y, mx, my)` after the segment `s` of a
/// path, when they were `st` before it: a ClosePath returns to the subpath start; an absolute
/// segment goes to its end point; a relative one goes to its end point added to the current
/// point by `plus`; a MoveTo starts a new subpath where it goes.
pub open spec fn next_state<N, F: Fn(N, N) -> N>(
    s: PathSegment<N>,
    st: (N, N, N, N),
    nst: (N, N, N, N),
    plus: F,
) -> bool {
    let (x, y, mx, my) = st;
    if s.spec_cmd() == PathCommand::ClosePath {
        nst == (mx, my, mx, my)
    } else {
        let x_ok = match s.spec_x() {
            None => nst.0 == x,
            Some(v) => if s.spec_abs() {
                nst.0 == v
            } else {
                plus.ensures((v, x), nst.0)
            },
        };
        let y_ok = match s.spec_y() {
            None => nst.1 == y,
            Some(v) => if s.spec_abs() {
                nst.1 == v
            } else {
                plus.ensures((v, y), nst.1)
            },
        };
        &&& x_ok
        &&& y_ok
        &&& if s.spec_cmd() == PathCommand::MoveTo {
            nst.2 == nst.0 && nst.3 == nst.1
        } else {
            nst.2 == mx && nst.3 == my
        }
    }
}

/// `states[k]` is the current point and subpath start of `segs` before segment `k`, for
/// every `k` up to `n`, starting from `zero`.
pub open spec fn tracks<N, F: Fn(N, N) -> N>(
    segs: Seq<PathSegment<N>>,
    states: Seq<(N, N, N, N)>,
    n: int,
    zero: N,
    plus: F,
) -> bool {
    &&& 0 <= n <= segs.len()
    &&& states.len() == n + 1
    &&& states[0] == (zero, zero, zero, zero)
    &&& forall|k: int| 0 <= k < n ==> next_state(segs[k], #[trigger] states[k], states[k + 1], plus)
}

/// `r` is `s` moved by `(ox, oy)`: each x coordinate `c` of `s` became a result of
/// `shift(c, ox)` in `r`, each y coordinate one of `shift(c, oy)`; radii, rotation and flags
/// stayed. The absolute flags are not compared.
pub open spec fn shifted<N, F: Fn(N, N) -> N>(
    s: PathSegment<N>,
    r: PathSegment<N>,
    ox: N,
    oy: N,
    shift: F,
) -> bool {
    match (s, r) {
        (PathSegment::MoveTo { x, y, .. }, PathSegment::MoveTo { x: x2, y: y2, .. }) => shift.ensures(
            (x, ox),
            x2,
        ) && shift.ensures((y, oy), y2),
        (PathSegment::LineTo { x, y, .. }, PathSegment::LineTo { x: x2, y: y2, .. }) => shift.ensures(
            (x, ox),
            x2,
        ) && shift.ensures((y, oy), y2),
        (
            PathSegment::HorizontalLineTo { x, .. },
            PathSegment::HorizontalLineTo { x: x2, .. },
        ) => shift.ensures((x, ox), x2),
        (PathSegment::VerticalLineTo { y, .. }, PathSegment::VerticalLineTo { y: y2, .. }) => shift.ensures(
            (y, oy),
            y2,
        ),
        (
            PathSegment::CurveTo { x1, y1, x2, y2, x, y, .. },
            PathSegment::CurveTo { x1: a1, y1: b1, x2: a2, y2: b2, x: a, y: b, .. },
        ) => shift.ensures((x1, ox), a1) && shift.ensures((y1, oy), b1) && shift.ensures(
            (x2, ox),
            a2,
        ) && shift.ensures((y2, oy), b2) && shift.ensures((x, ox), a) && shift.ensures((y, oy), b),
        (
            PathSegment::SmoothCurveTo { x2, y2, x, y, .. },
            PathSegment::SmoothCurveTo { x2: a2, y2: b2, x: a, y: b, .. },
        ) => shift.ensures((x2, ox), a2) && shift.ensures((y2, oy), b2) && shift.ensures(
            (x, ox),
            a,
        ) && shift.ensures((y, oy), b),
        (
            PathSegment::Quadratic { x1, y1, x, y, .. },
            PathSegment::Quadratic { x1: a1, y1: b1, x: a, y: b, .. },
        ) => shift.ensures((x1, ox), a1) && shift.ensures((y1, oy), b1) && shift.ensures(
            (x, ox),
            a,
        ) && shift.ensures((y, oy), b),
        (
            PathSegment::SmoothQuadratic { x, y, .. },
            PathSegment::SmoothQuadratic { x: a, y: b, .. },
        ) => shift.ensures((x, ox), a) && shift.ensures((y, oy), b),
        (
            PathSegment::EllipticalArc { rx, ry, x_axis_rotation, large_arc, sweep, x, y, .. },
            PathSegment::EllipticalArc {
                rx: rx2,
                ry: ry2,
                x_axis_rotation: rot2,
                large_arc: l2,
                sweep: s2,
                x: a,
                y: b,
                ..
            },
        ) => rx2 == rx && ry2 == ry && rot2 == x_axis_rotation && l2 == large_arc && s2 == sweep
            && shift.ensures((x, ox), a) && shift.ensures((y, oy), b),
        (PathSegment::ClosePath { .. }, PathSegment::ClosePath { .. }) => true,
        _ => false,
    }
}

/// `seg` with `shift` applied to each coordinate: `shift(c, ox)` to x coordinates and
/// `shift(c, oy)` to y coordinates. Radii, rotation and flags are kept.
fn shift_segment<N: Copy, F: Fn(N, N) -> N>(seg: PathSegment<N>, ox: N, oy: N, shift: &F) -> (r:
    PathSegment<N>)
    requires
        forall|a: N, b: N| shift.requires((a, b)),
    ensures
        r.spec_cmd() == seg.spec_cmd(),
        r.spec_abs() == seg.spec_abs(),
        shifted(seg, r, ox, oy, *shift),
{
    match seg {
        PathSegment::MoveTo { abs, x, y } => PathSegment::MoveTo { abs, x: shift(x, ox), y: shift(y, oy) },
        PathSegment::LineTo { abs, x, y } => PathSegment::LineTo { abs, x: shift(x, ox), y: shift(y, oy) },
        PathSegment::HorizontalLineTo { abs, x } => PathSegment::HorizontalLineTo { abs, x: shift(x, ox) },
        PathSegment::VerticalLineTo { abs, y } => PathSegment::VerticalLineTo { abs, y: shift(y, oy) },
        PathSegment::CurveTo { abs, x1, y1, x2, y2, x, y } => PathSegment::CurveTo {
            abs,
            x1: shift(x1, ox),
            y1: shift(y1, oy),
            x2: shift(x2, ox),
            y2: shift(y2, oy),
            x: shift(x, ox),
            y: shift(y, oy),
        },
        PathSegment::SmoothCurveTo { abs, x2, y2, x, y } => PathSegment::SmoothCurveTo {
            abs,
            x2: shift(x2, ox),
            y2: shift(y2, oy),
            x: shift(x, ox),
            y: shift(y, oy),
        },
        PathSegment::Quadratic { abs, x1, y1, x, y } => PathSegment::Quadratic {
            abs,
            x1: shift(x1, ox),
            y1: shift(y1, oy),
            x: shift(x, ox),
            y: shift(y, oy),
        },
        PathSegment::SmoothQuadratic { abs, x, y } => PathSegment::SmoothQuadratic {
            abs,
            x: shift(x, ox),
            y: shift(y, oy),
        },
        PathSegment::EllipticalArc { abs, rx, ry, x_axis_rotation, large_arc, sweep, x, y } => {
            PathSegment::EllipticalArc {
                abs,
                rx,
                ry,
                x_axis_rotation,
                large_arc,
                sweep,
                x: shift(x, ox),
                y: shift(y, oy),
            }
        },
        PathSegment::ClosePath { abs } => PathSegment::ClosePath { abs },
    }
}

/// The end point of a segment, where `HorizontalLineTo` keeps `y` and `VerticalLineTo`
/// keeps `x`.
fn end_point<N: Copy>(seg: &PathSegment<N>, x: N, y: N) -> (r: (N, N))
    ensures
        r.0 == (match seg.spec_x() {
            Some(v) => v,
            None => x,
        }),
        r.1 == (match seg.spec_y() {
            Some(v) => v,
            None => y,
        }),
{
    let nx = match seg.x() {
        Some(v) => *v,
        None => x,
    };
    let ny = match seg.y() {
        Some(v) => *v,
        None => y,
    };
    (nx, ny)
}

/// Rewrites every segment as absolute, keeping the geometry.
///
/// A relative segment is moved by the current point, except a relative MoveTo right after
/// a ClosePath, which is moved by the start of the closed subpath (the two agree, since a
/// ClosePath returns to that start). The current point is that of the original path, as
/// `tracks` follows it. Segments that are already absolute are kept as they are, so
/// converting twice changes nothing more. `plus` adds two coordinates; `zero` is
/// the origin.
pub fn conv_to_absolute<N: Copy, F: Fn(N, N) -> N>(segs: &mut Vec<PathSegment<N>>, zero: N, plus: F)
    requires
        forall|a: N, b: N| plus.requires((a, b)),
    ensures
        same_kinds(final(segs)@, old(segs)@),
        all_absolute(final(segs)@),
        forall|i: int|
            0 <= i < old(segs)@.len() && (#[trigger] old(segs)@[i]).spec_abs() ==> final(segs)@[i]
                == old(segs)@[i],
        forall|i: int|
            0 <= i < old(segs)@.len() && !(#[trigger] old(segs)@[i]).spec_abs() ==> shifted(
                old(segs)@[i],
                final(segs)@[i],
                abs_state(final(segs)@.subrange(0, i), zero).0,
                abs_state(final(segs)@.subrange(0, i), zero).1,
                plus,
            ),
        exists|states: Seq<(N, N, N, N)>|
            #[trigger] tracks(old(segs)@, states, old(segs)@.len() as int, zero, plus) && forall|
                i: int,
            |
                0 <= i < old(segs)@.len() && !(#[trigger] old(segs)@[i]).spec_abs() ==> shifted(
                    old(segs)@[i],
                    final(segs)@[i],
                    states[i].0,
                    states[i].1,
                    plus,
                ),
{
    let ghost mut states: Seq<(N, N, N, N)> = seq![(zero, zero, zero, zero)];
    let mut prev_x = zero;
    let mut prev_y = zero;
    let mut prev_mx = zero;
    let mut prev_my = zero;
    let mut prev_cmd = PathCommand::MoveTo;
    let mut i: usize = 0;
    while i < segs.len()
        invariant
            forall|a: N, b: N| plus.requires((a, b)),
            i <= segs@.len(),
            same_kinds(segs@, old(segs)@),
            forall|k: int| 0 <= k < i ==> (#[trigger] segs@[k]).spec_abs(),
            forall|k: int| i <= k < segs@.len() ==> #[trigger] segs@[k] == old(segs)@[k],
            forall|k: int|
                0 <= k < i && (#[trigger] old(segs)@[k]).spec_abs() ==> segs@[k] == old(segs)@[k],
            (prev_x, prev_y, prev_mx, prev_my) == abs_state(segs@.subrange(0, i as int), zero),
            prev_cmd == PathCommand::ClosePath ==> prev_x == prev_mx && prev_y == prev_my,
            forall|k: int|
                0 <= k < i && !(#[trigger] old(segs)@[k]).spec_abs() ==> shifted(
                    old(segs)@[k],
                    segs@[k],
                    abs_state(segs@.subrange(0, k), zero).0,
                    abs_state(segs@.subrange(0, k), zero).1,
                    plus,
                ),
            tracks(old(segs)@, states, i as int, zero, plus),
            states[i as int] == (prev_x, prev_y, prev_mx, prev_my),
            forall|k: int|
                0 <= k < i && !(#[trigger] old(segs)@[k]).spec_abs() ==> shifted(
                    old(segs)@[k],
                    segs@[k],
                    states[k].0,
                    states[k].1,
                    plus,
                ),
        decreases segs@.len() - i,
    {
        let ghost before = segs@;
        let ghost st = states[i as int];
        let mut seg = segs[i];
        let cmd = seg.cmd();
        if cmd == PathCommand::ClosePath {
            prev_x = prev_mx;
            prev_y = prev_my;
            prev_cmd = cmd;
            seg.set_absolute(true);
            segs.set(i, seg);
        } else {
            if seg.is_relative() {
                let (ox, oy) = if cmd == PathCommand::MoveTo && prev_cmd == PathCommand::ClosePath {
                    (prev_mx, prev_my)
                } else {
                    (prev_x, prev_y)
                };
                seg = shift_segment(seg, ox, oy, &plus);
            }
            if cmd == PathCommand::MoveTo {
                let (mx, my) = end_point(&seg, prev_mx, prev_my);
                prev_mx = mx;
                prev_my = my;
            }
            seg.set_absolute(true);
            let (nx, ny) = end_point(&seg, prev_x, prev_y);
            prev_x = nx;
            prev_y = ny;
            prev_cmd = cmd;
            segs.set(i, seg);
        }
        proof {
            assert forall|k: int| 0 <= k <= i implies #[trigger] segs@.subrange(0, k) == before.subrange(
                0,
                k,
            ) by {
                assert(segs@.subrange(0, k) =~= before.subrange(0, k));
            }
            assert(segs@.subrange(0, i + 1).drop_last() =~= before.subrange(0, i as int));
            let old_states = states;
            states = states.push((prev_x, prev_y, prev_mx, prev_my));
            assert(next_state(old(segs)@[i as int], st, states[i + 1], plus));
            assert forall|k: int| 0 <= k < i + 1 implies next_state(
                old(segs)@[k],
                #[trigger] states[k],
                states[k + 1],
                plus,
            ) by {
                if k < i {
                    assert(states[k] == old_states[k]);
                    assert(states[k + 1] == old_states[k + 1]);
                }
            }
        }
        i = i + 1;
    }
    proof {
        assert(segs@.subrange(0, segs@.len() as int) =~= segs@);
        assert(tracks(old(segs)@, states, old(segs)@.len() as int, zero, plus));
    }
}

/// Rewrites every segment as relative, keeping the geometry.
///
/// The path may mix absolute and relative segments. Each absolute segment is moved back by
/// the current point of the original path before it, which is taken from each segment before
/// it is rewritten (a relative segment advances it by `plus`, a ClosePath returns it to the
/// subpath start, a MoveTo starts a new subpath where it goes). A MoveTo right after a
/// ClosePath is made relative to the start of the closed subpath. Segments that
/// are already relative are kept as they are, so converting twice changes nothing more.
/// `plus` adds two coordinates, `minus` subtracts the second from the first; `zero` is the
/// origin.
pub fn conv_to_relative<N: Copy, F: Fn(N, N) -> N, G: Fn(N, N) -> N>(
    segs: &mut Vec<PathSegment<N>>,
    zero: N,
    plus: F,
    minus: G,
)
    requires
        forall|a: N, b: N| plus.requires((a, b)),
        forall|a: N, b: N| minus.requires((a, b)),
    ensures
        same_kinds(final(segs)@, old(segs)@),
        all_relative(final(segs)@),
        forall|i: int|
            0 <= i < old(segs)@.len() && !(#[trigger] old(segs)@[i]).spec_abs() ==> final(segs)@[i]
                == old(segs)@[i],
        exists|states: Seq<(N, N, N, N)>|
            #[trigger] tracks(old(segs)@, states, old(segs)@.len() as int, zero, plus) && forall|
                i: int,
            |
                0 <= i < old(segs)@.len() && (#[trigger] old(segs)@[i]).spec_abs() ==> shifted(
                    old(segs)@[i],
                    final(segs)@[i],
                    states[i].0,
                    states[i].1,
                    minus,
                ),
{
    let ghost mut states: Seq<(N, N, N, N)> = seq![(zero, zero, zero, zero)];
    let mut prev_x = zero;
    let mut prev_y = zero;
    let mut prev_mx = zero;
    let mut prev_my = zero;
    let mut prev_cmd = PathCommand::MoveTo;
    let mut i: usize = 0;
    while i < segs.len()
        invariant
            forall|a: N, b: N| plus.requires((a, b)),
            forall|a: N, b: N| minus.requires((a, b)),
            prev_cmd == PathCommand::ClosePath ==> prev_x == prev_mx && prev_y == prev_my,
            tracks(old(segs)@, states, i as int, zero, plus),
            states[i as int] == (prev_x, prev_y, prev_mx, prev_my),
            forall|k: int|
                0 <= k < i && (#[trigger] old(segs)@[k]).spec_abs() ==> shifted(
                    old(segs)@[k],
                    segs@[k],
                    states[k].0,
                    states[k].1,
                    minus,
                ),
            i <= segs@.len(),
            same_kinds(segs@, old(segs)@),
            forall|k: int| 0 <= k < i ==> !(#[trigger] segs@[k]).spec_abs(),
            forall|k: int| i <= k < segs@.len() ==> #[trigger] segs@[k] == old(segs)@[k],
            forall|k: int|
                0 <= k < i && !(#[trigger] old(segs)@[k]).spec_abs() ==> segs@[k] == old(segs)@[k],
        decreases segs@.len() - i,
    {
        let ghost st = states[i as int];
        let mut seg = segs[i];
        let cmd = seg.cmd();
        if cmd == PathCommand::ClosePath {
            prev_x = prev_mx;
            prev_y = prev_my;
            prev_cmd = cmd;
            seg.set_absolute(false);
            segs.set(i, seg);
        } else {
            let absolute = seg.is_absolute();
            let (ox, oy) = if absolute && cmd == PathCommand::MoveTo && prev_cmd
                == PathCommand::ClosePath {
                (prev_mx, prev_my)
            } else {
                (prev_x, prev_y)
            };
            // The current point is read before the segment is rewritten.
            let (ex, ey) = end_point(&seg, prev_x, prev_y);
            if absolute {
                prev_x = ex;
                prev_y = ey;
            } else {
                match seg.x() {
                    Some(v) => {
                        prev_x = plus(*v, prev_x);
                    },
                    None => {},
                }
                match seg.y() {
                    Some(v) => {
                        prev_y = plus(*v, prev_y);
                    },
                    None => {},
                }
            }
            // A MoveTo starts a subpath at its target, which is now the current point.
            if cmd == PathCommand::MoveTo {
                prev_mx = prev_x;
                prev_my = prev_y;
            }
            if absolute {
                seg = shift_segment(seg, ox, oy, &minus);
            }
            seg.set_absolute(false);
            prev_cmd = cmd;
            segs.set(i, seg);
        }
        proof {
            let old_states = states;
            states = states.push((prev_x, prev_y, prev_mx, prev_my));
            assert(next_state(old(segs)@[i as int], st, states[i + 1], plus));
            assert forall|k: int| 0 <= k < i + 1 implies next_state(
                old(segs)@[k],
                #[trigger] states[k],
                states[k + 1],
                plus,
            ) by {
                if k < i {
                    assert(states[k] == old_states[k]);
                    assert(states[k + 1] == old_states[k + 1]);
                }
            }
        }
        i = i + 1;
    }
    proof {
        assert(tracks(old(segs)@, states, old(segs)@.len() as int, zero, plus));
    }
}


/// Converting to absolute twice gives what converting once gives: `twice` is what
/// `conv_to_absolute` makes of `once`, which is itself a result of `conv_to_absolute`.
pub proof fn lemma_to_absolute_idempotent<N>(once: Seq<PathSegment<N>>, twice: Seq<PathSegment<N>>)
    requires
        all_absolute(once),
        same_kinds(twice, once),
        all_absolute(twice),
        forall|i: int| 0 <= i < once.len() && (#[trigger] once[i]).spec_abs() ==> twice[i] == once[i],
    ensures
        twice == once,
{
    assert(twice =~= once);
}

/// Converting to relative twice gives what converting once gives: `twice` is what
/// `conv_to_relative` makes of `once`, which is itself a result of `conv_to_relative`.
pub proof fn lemma_to_relative_idempotent<N>(once: Seq<PathSegment<N>>, twice: Seq<PathSegment<N>>)
    requires
        all_relative(once),
        same_kinds(twice, once),
        all_relative(twice),
        forall|i: int| 0 <= i < once.len() && !(#[trigger] once[i]).spec_abs() ==> twice[i] == once[i],
    ensures
        twice == once,
{
    assert(twice =~= once);
}

} // verus!
