use vstd::prelude::*;

verus! {

/// The ten kinds of path commands.
#[derive(Clone, Copy, PartialEq, Eq, Debug, Structural)]
pub enum PathCommand {
    MoveTo,
    LineTo,
    HorizontalLineTo,
    VerticalLineTo,
    CurveTo,
    SmoothCurveTo,
    Quadratic,
    SmoothQuadratic,
    EllipticalArc,
    ClosePath,
}

/// One path command with its absolute flag and its coordinates.
///
/// The coordinate type `N` is left open: the tokenizer hands out the text of each
/// number, the writer takes the text it should print, and a caller may keep numeric
/// values. The kind of a segment never changes; its flag and its coordinates may.
#[derive(Clone, Copy, PartialEq, Debug)]
pub enum PathSegment<N> {
    MoveTo { abs: bool, x: N, y: N },
    LineTo { abs: bool, x: N, y: N },
    HorizontalLineTo { abs: bool, x: N },
    VerticalLineTo { abs: bool, y: N },
    CurveTo { abs: bool, x1: N, y1: N, x2: N, y2: N, x: N, y: N },
    SmoothCurveTo { abs: bool, x2: N, y2: N, x: N, y: N },
    Quadratic { abs: bool, x1: N, y1: N, x: N, y: N },
    SmoothQuadratic { abs: bool, x: N, y: N },
    EllipticalArc {
        abs: bool,
        rx: N,
        ry: N,
        x_axis_rotation: N,
        large_arc: bool,
        sweep: bool,
        x: N,
        y: N,
    },
    ClosePath { abs: bool },
}

impl<N: View> View for PathSegment<N> {
    type V = PathSegment<N::V>;

    open spec fn view(&self) -> PathSegment<N::V> {
        match self {
            PathSegment::MoveTo { abs, x, y } => PathSegment::MoveTo { abs: *abs, x: x@, y: y@ },
            PathSegment::LineTo { abs, x, y } => PathSegment::LineTo { abs: *abs, x: x@, y: y@ },
            PathSegment::HorizontalLineTo { abs, x } => PathSegment::HorizontalLineTo {
                abs: *abs,
                x: x@,
            },
            PathSegment::VerticalLineTo { abs, y } => PathSegment::VerticalLineTo {
                abs: *abs,
                y: y@,
            },
            PathSegment::CurveTo { abs, x1, y1, x2, y2, x, y } => PathSegment::CurveTo {
                abs: *abs,
                x1: x1@,
                y1: y1@,
                x2: x2@,
                y2: y2@,
                x: x@,
                y: y@,
            },
            PathSegment::SmoothCurveTo { abs, x2, y2, x, y } => PathSegment::SmoothCurveTo {
                abs: *abs,
                x2: x2@,
                y2: y2@,
                x: x@,
                y: y@,
            },
            PathSegment::Quadratic { abs, x1, y1, x, y } => PathSegment::Quadratic {
                abs: *abs,
                x1: x1@,
                y1: y1@,
                x: x@,
                y: y@,
            },
            PathSegment::SmoothQuadratic { abs, x, y } => PathSegment::SmoothQuadratic {
                abs: *abs,
                x: x@,
                y: y@,
            },
            PathSegment::EllipticalArc {
                abs,
                rx,
                ry,
                x_axis_rotation,
                large_arc,
                sweep,
                x,
                y,
            } => PathSegment::EllipticalArc {
                abs: *abs,
                rx: rx@,
                ry: ry@,
                x_axis_rotation: x_axis_rotation@,
                large_arc: *large_arc,
                sweep: *sweep,
                x: x@,
                y: y@,
            },
            PathSegment::ClosePath { abs } => PathSegment::ClosePath { abs: *abs },
        }
    }
}

impl<N> PathSegment<N> {
    /// The kind of the segment.
    pub open spec fn spec_cmd(&self) -> PathCommand {
        match self {
            PathSegment::MoveTo { .. } => PathCommand::MoveTo,
            PathSegment::LineTo { .. } => PathCommand::LineTo,
            PathSegment::HorizontalLineTo { .. } => PathCommand::HorizontalLineTo,
            PathSegment::VerticalLineTo { .. } => PathCommand::VerticalLineTo,
            PathSegment::CurveTo { .. } => PathCommand::CurveTo,
            PathSegment::SmoothCurveTo { .. } => PathCommand::SmoothCurveTo,
            PathSegment::Quadratic { .. } => PathCommand::Quadratic,
            PathSegment::SmoothQuadratic { .. } => PathCommand::SmoothQuadratic,
            PathSegment::EllipticalArc { .. } => PathCommand::EllipticalArc,
            PathSegment::ClosePath { .. } => PathCommand::ClosePath,
        }
    }

    /// The absolute flag of the segment.
    pub open spec fn spec_abs(&self) -> bool {
        match self {
            PathSegment::MoveTo { abs, .. } => *abs,
            PathSegment::LineTo { abs, .. } => *abs,
            PathSegment::HorizontalLineTo { abs, .. } => *abs,
            PathSegment::VerticalLineTo { abs, .. } => *abs,
            PathSegment::CurveTo { abs, .. } => *abs,
            PathSegment::SmoothCurveTo { abs, .. } => *abs,
            PathSegment::Quadratic { abs, .. } => *abs,
            PathSegment::SmoothQuadratic { abs, .. } => *abs,
            PathSegment::EllipticalArc { abs, .. } => *abs,
            PathSegment::ClosePath { abs } => *abs,
        }
    }

    /// The same segment with its absolute flag set to `a`.
    pub open spec fn with_abs(self, a: bool) -> PathSegment<N> {
        match self {
            PathSegment::MoveTo { x, y, .. } => PathSegment::MoveTo { abs: a, x, y },
            PathSegment::LineTo { x, y, .. } => PathSegment::LineTo { abs: a, x, y },
            PathSegment::HorizontalLineTo { x, .. } => PathSegment::HorizontalLineTo { abs: a, x },
            PathSegment::VerticalLineTo { y, .. } => PathSegment::VerticalLineTo { abs: a, y },
            PathSegment::CurveTo { x1, y1, x2, y2, x, y, .. } => PathSegment::CurveTo {
                abs: a,
                x1,
                y1,
                x2,
                y2,
                x,
                y,
            },
            PathSegment::SmoothCurveTo { x2, y2, x, y, .. } => PathSegment::SmoothCurveTo {
                abs: a,
                x2,
                y2,
                x,
                y,
            },
            PathSegment::Quadratic { x1, y1, x, y, .. } => PathSegment::Quadratic {
                abs: a,
                x1,
                y1,
                x,
                y,
            },
            PathSegment::SmoothQuadratic { x, y, .. } => PathSegment::SmoothQuadratic {
                abs: a,
                x,
                y,
            },
            PathSegment::EllipticalArc {
                rx,
                ry,
                x_axis_rotation,
                large_arc,
                sweep,
                x,
                y,
                ..
            } => PathSegment::EllipticalArc {
                abs: a,
                rx,
                ry,
                x_axis_rotation,
                large_arc,
                sweep,
                x,
                y,
            },
            PathSegment::ClosePath { .. } => PathSegment::ClosePath { abs: a },
        }
    }

    /// The x coordinate of the end point, where the segment has one.
    pub open spec fn spec_x(&self) -> Option<N> {
        match self {
            PathSegment::MoveTo { x, .. } => Some(*x),
            PathSegment::LineTo { x, .. } => Some(*x),
            PathSegment::HorizontalLineTo { x, .. } => Some(*x),
            PathSegment::CurveTo { x, .. } => Some(*x),
            PathSegment::SmoothCurveTo { x, .. } => Some(*x),
            PathSegment::Quadratic { x, .. } => Some(*x),
            PathSegment::SmoothQuadratic { x, .. } => Some(*x),
            PathSegment::EllipticalArc { x, .. } => Some(*x),
            _ => None,
        }
    }

    /// The y coordinate of the end point, where the segment has one.
    pub open spec fn spec_y(&self) -> Option<N> {
        match self {
            PathSegment::MoveTo { y, .. } => Some(*y),
            PathSegment::LineTo { y, .. } => Some(*y),
            PathSegment::VerticalLineTo { y, .. } => Some(*y),
            PathSegment::CurveTo { y, .. } => Some(*y),
            PathSegment::SmoothCurveTo { y, .. } => Some(*y),
            PathSegment::Quadratic { y, .. } => Some(*y),
            PathSegment::SmoothQuadratic { y, .. } => Some(*y),
            PathSegment::EllipticalArc { y, .. } => Some(*y),
            _ => None,
        }
    }

    /// Returns the kind of the segment.
    pub fn cmd(&self) -> (r: PathCommand)
        ensures
            r == self.spec_cmd(),
    {
        match self {
            PathSegment::MoveTo { .. } => PathCommand::MoveTo,
            PathSegment::LineTo { .. } => PathCommand::LineTo,
            PathSegment::HorizontalLineTo { .. } => PathCommand::HorizontalLineTo,
            PathSegment::VerticalLineTo { .. } => PathCommand::VerticalLineTo,
            PathSegment::CurveTo { .. } => PathCommand::CurveTo,
            PathSegment::SmoothCurveTo { .. } => PathCommand::SmoothCurveTo,
            PathSegment::Quadratic { .. } => PathCommand::Quadratic,
            PathSegment::SmoothQuadratic { .. } => PathCommand::SmoothQuadratic,
            PathSegment::EllipticalArc { .. } => PathCommand::EllipticalArc,
            PathSegment::ClosePath { .. } => PathCommand::ClosePath,
        }
    }

    /// Checks that the segment is absolute.
    pub fn is_absolute(&self) -> (r: bool)
        ensures
            r == self.spec_abs(),
    {
        match self {
            PathSegment::MoveTo { abs, .. } => *abs,
            PathSegment::LineTo { abs, .. } => *abs,
            PathSegment::HorizontalLineTo { abs, .. } => *abs,
            PathSegment::VerticalLineTo { abs, .. } => *abs,
            PathSegment::CurveTo { abs, .. } => *abs,
            PathSegment::SmoothCurveTo { abs, .. } => *abs,
            PathSegment::Quadratic { abs, .. } => *abs,
            PathSegment::SmoothQuadratic { abs, .. } => *abs,
            PathSegment::EllipticalArc { abs, .. } => *abs,
            PathSegment::ClosePath { abs } => *abs,
        }
    }

    /// Checks that the segment is relative.
    pub fn is_relative(&self) -> (r: bool)
        ensures
            r == !self.spec_abs(),
    {
        !self.is_absolute()
    }

    /// Sets the absolute flag, keeping the kind and the coordinates.
    pub fn set_absolute(&mut self, new_abs: bool)
        ensures
            *final(self) == old(self).with_abs(new_abs),
    {
        match self {
            PathSegment::MoveTo { abs, .. } => *abs = new_abs,
            PathSegment::LineTo { abs, .. } => *abs = new_abs,
            PathSegment::HorizontalLineTo { abs, .. } => *abs = new_abs,
            PathSegment::VerticalLineTo { abs, .. } => *abs = new_abs,
            PathSegment::CurveTo { abs, .. } => *abs = new_abs,
            PathSegment::SmoothCurveTo { abs, .. } => *abs = new_abs,
            PathSegment::Quadratic { abs, .. } => *abs = new_abs,
            PathSegment::SmoothQuadratic { abs, .. } => *abs = new_abs,
            PathSegment::EllipticalArc { abs, .. } => *abs = new_abs,
            PathSegment::ClosePath { abs } => *abs = new_abs,
        }
    }

    /// The x coordinate of the end point; `None` for `VerticalLineTo` and `ClosePath`.
    pub fn x(&self) -> (r: Option<&N>)
        ensures
            r is Some <==> self.spec_x() is Some,
            r is Some ==> *r->Some_0 == self.spec_x()->Some_0,
    {
        match self {
            PathSegment::MoveTo { x, .. } => Some(x),
            PathSegment::LineTo { x, .. } => Some(x),
            PathSegment::HorizontalLineTo { x, .. } => Some(x),
            PathSegment::CurveTo { x, .. } => Some(x),
            PathSegment::SmoothCurveTo { x, .. } => Some(x),
            PathSegment::Quadratic { x, .. } => Some(x),
            PathSegment::SmoothQuadratic { x, .. } => Some(x),
            PathSegment::EllipticalArc { x, .. } => Some(x),
            _ => None,
        }
    }

    /// The y coordinate of the end point; `None` for `HorizontalLineTo` and `ClosePath`.
    pub fn y(&self) -> (r: Option<&N>)
        ensures
            r is Some <==> self.spec_y() is Some,
            r is Some ==> *r->Some_0 == self.spec_y()->Some_0,
    {
        match self {
            PathSegment::MoveTo { y, .. } => Some(y),
            PathSegment::LineTo { y, .. } => Some(y),
            PathSegment::VerticalLineTo { y, .. } => Some(y),
            PathSegment::CurveTo { y, .. } => Some(y),
            PathSegment::SmoothCurveTo { y, .. } => Some(y),
            PathSegment::Quadratic { y, .. } => Some(y),
            PathSegment::SmoothQuadratic { y, .. } => Some(y),
            PathSegment::EllipticalArc { y, .. } => Some(y),
            _ => None,
        }
    }
}


/// Every number of a segment, in order: radii and rotation included.
pub open spec fn numbers_of<N>(s: PathSegment<N>) -> Seq<N> {
    match s {
        PathSegment::MoveTo { x, y, .. } => seq![x, y],
        PathSegment::LineTo { x, y, .. } => seq![x, y],
        PathSegment::HorizontalLineTo { x, .. } => seq![x],
        PathSegment::VerticalLineTo { y, .. } => seq![y],
        PathSegment::CurveTo { x1, y1, x2, y2, x, y, .. } => seq![x1, y1, x2, y2, x, y],
        PathSegment::SmoothCurveTo { x2, y2, x, y, .. } => seq![x2, y2, x, y],
        PathSegment::Quadratic { x1, y1, x, y, .. } => seq![x1, y1, x, y],
        PathSegment::SmoothQuadratic { x, y, .. } => seq![x, y],
        PathSegment::EllipticalArc { rx, ry, x_axis_rotation, x, y, .. } => seq![
            rx,
            ry,
            x_axis_rotation,
            x,
            y,
        ],
        PathSegment::ClosePath { .. } => seq![],
    }
}

/// The two segments have the same kind, absolute flag and arc flags.
pub open spec fn same_shape<N>(a: PathSegment<N>, b: PathSegment<N>) -> bool {
    &&& a.spec_cmd() == b.spec_cmd()
    &&& a.spec_abs() == b.spec_abs()
    &&& match (a, b) {
        (
            PathSegment::EllipticalArc { large_arc, sweep, .. },
            PathSegment::EllipticalArc { large_arc: l2, sweep: s2, .. },
        ) => large_arc == l2 && sweep == s2,
        _ => true,
    }
}

/// The numbers of a segment, borrowed, in the order of `numbers_of`.
fn number_refs<N>(s: &PathSegment<N>) -> (r: Vec<&N>)
    ensures
        r@.len() == numbers_of(*s).len(),
        forall|i: int| 0 <= i < r@.len() ==> *#[trigger] r@[i] == numbers_of(*s)[i],
{
    let r = match s {
        PathSegment::MoveTo { x, y, .. } => vec![x, y],
        PathSegment::LineTo { x, y, .. } => vec![x, y],
        PathSegment::HorizontalLineTo { x, .. } => vec![x],
        PathSegment::VerticalLineTo { y, .. } => vec![y],
        PathSegment::CurveTo { x1, y1, x2, y2, x, y, .. } => vec![x1, y1, x2, y2, x, y],
        PathSegment::SmoothCurveTo { x2, y2, x, y, .. } => vec![x2, y2, x, y],
        PathSegment::Quadratic { x1, y1, x, y, .. } => vec![x1, y1, x, y],
        PathSegment::SmoothQuadratic { x, y, .. } => vec![x, y],
        PathSegment::EllipticalArc { rx, ry, x_axis_rotation, x, y, .. } => vec![
            rx,
            ry,
            x_axis_rotation,
            x,
            y,
        ],
        PathSegment::ClosePath { .. } => Vec::new(),
    };
    r
}

/// Compares two segments: the same kind, absolute flag and arc flags, and every pair of
/// numbers accepted by `eq`.
pub fn segments_match<N, F: Fn(&N, &N) -> bool>(a: &PathSegment<N>, b: &PathSegment<N>, eq: F) -> (r:
    bool)
    requires
        forall|x: &N, y: &N| eq.requires((x, y)),
    ensures
        r ==> same_shape(*a, *b) && forall|i: int|
            0 <= i < numbers_of(*a).len() ==> eq.ensures(
                (&numbers_of(*a)[i], &numbers_of(*b)[i]),
                true,
            ),
        !r ==> !same_shape(*a, *b) || exists|i: int|
            0 <= i < numbers_of(*a).len() && eq.ensures(
                (&numbers_of(*a)[i], &numbers_of(*b)[i]),
                false,
            ),
{
    let shape = a.cmd() == b.cmd() && a.is_absolute() == b.is_absolute() && match (a, b) {
        (
            PathSegment::EllipticalArc { large_arc, sweep, .. },
            PathSegment::EllipticalArc { large_arc: l2, sweep: s2, .. },
        ) => *large_arc == *l2 && *sweep == *s2,
        _ => true,
    };
    if !shape {
        return false;
    }
    let na = number_refs(a);
    let nb = number_refs(b);
    assert(numbers_of(*a).len() == numbers_of(*b).len());
    let mut i: usize = 0;
    while i < na.len()
        invariant
            forall|x: &N, y: &N| eq.requires((x, y)),
            na@.len() == numbers_of(*a).len(),
            nb@.len() == numbers_of(*b).len(),
            na@.len() == nb@.len(),
            forall|k: int| 0 <= k < na@.len() ==> *#[trigger] na@[k] == numbers_of(*a)[k],
            forall|k: int| 0 <= k < nb@.len() ==> *#[trigger] nb@[k] == numbers_of(*b)[k],
            i <= na@.len(),
            forall|k: int|
                0 <= k < i ==> eq.ensures((&numbers_of(*a)[k], &numbers_of(*b)[k]), true),
        decreases na@.len() - i,
    {
        let x = na[i];
        let y = nb[i];
        if !eq(x, y) {
            assert(*na@[i as int] == numbers_of(*a)[i as int]);
            assert(*nb@[i as int] == numbers_of(*b)[i as int]);
            return false;
        }
        i = i + 1;
    }
    true
}

} // verus!
