use svgtypes::converter::{conv_to_absolute, conv_to_relative};
use svgtypes::PathSegment;

type Seg = PathSegment<i64>;

fn add(a: i64, b: i64) -> i64 {
    a + b
}

fn sub(a: i64, b: i64) -> i64 {
    a - b
}

fn mixed() -> Vec<Seg> {
    vec![
        PathSegment::MoveTo { abs: false, x: 10, y: 20 },
        PathSegment::LineTo { abs: false, x: 5, y: 5 },
        PathSegment::HorizontalLineTo { abs: false, x: 10 },
        PathSegment::VerticalLineTo { abs: true, y: 100 },
        PathSegment::ClosePath { abs: false },
        PathSegment::MoveTo { abs: false, x: 1, y: 1 },
        PathSegment::EllipticalArc {
            abs: false,
            rx: 3,
            ry: 4,
            x_axis_rotation: 30,
            large_arc: true,
            sweep: false,
            x: 2,
            y: 2,
        },
    ]
}

#[test]
fn to_absolute_moves_by_the_current_point() {
    let mut p = mixed();
    conv_to_absolute(&mut p, 0, add);
    assert_eq!(
        p,
        vec![
            PathSegment::MoveTo { abs: true, x: 10, y: 20 },
            PathSegment::LineTo { abs: true, x: 15, y: 25 },
            PathSegment::HorizontalLineTo { abs: true, x: 25 },
            PathSegment::VerticalLineTo { abs: true, y: 100 },
            PathSegment::ClosePath { abs: true },
            PathSegment::MoveTo { abs: true, x: 11, y: 21 },
            PathSegment::EllipticalArc {
                abs: true,
                rx: 3,
                ry: 4,
                x_axis_rotation: 30,
                large_arc: true,
                sweep: false,
                x: 13,
                y: 23,
            },
        ]
    );
}

#[test]
fn to_absolute_twice_changes_nothing_more() {
    let mut once = mixed();
    conv_to_absolute(&mut once, 0, add);
    let mut twice = once.clone();
    conv_to_absolute(&mut twice, 0, add);
    assert_eq!(once, twice);
}

#[test]
fn to_relative_reads_before_rewriting() {
    let mut p = mixed();
    conv_to_absolute(&mut p, 0, add);
    conv_to_relative(&mut p, 0, add, sub);
    assert_eq!(
        p,
        vec![
            PathSegment::MoveTo { abs: false, x: 10, y: 20 },
            PathSegment::LineTo { abs: false, x: 5, y: 5 },
            PathSegment::HorizontalLineTo { abs: false, x: 10 },
            PathSegment::VerticalLineTo { abs: false, y: 75 },
            PathSegment::ClosePath { abs: false },
            PathSegment::MoveTo { abs: false, x: 1, y: 1 },
            PathSegment::EllipticalArc {
                abs: false,
                rx: 3,
                ry: 4,
                x_axis_rotation: 30,
                large_arc: true,
                sweep: false,
                x: 2,
                y: 2,
            },
        ]
    );
    let mut again = p.clone();
    conv_to_relative(&mut again, 0, add, sub);
    assert_eq!(p, again);
}

#[test]
fn float_coordinates() {
    let mut p: Vec<PathSegment<f64>> = vec![
        PathSegment::MoveTo { abs: true, x: 0.5, y: 0.5 },
        PathSegment::LineTo { abs: false, x: 0.25, y: -0.5 },
    ];
    conv_to_absolute(&mut p, 0.0, |a: f64, b: f64| a + b);
    assert_eq!(p[1], PathSegment::LineTo { abs: true, x: 0.75, y: 0.0 });
}

#[test]
fn relative_move_to_starts_its_subpath_at_its_target() {
    let mut p: Vec<Seg> = vec![
        PathSegment::MoveTo { abs: true, x: 0, y: 0 },
        PathSegment::LineTo { abs: true, x: 10, y: 10 },
        PathSegment::MoveTo { abs: false, x: 5, y: 5 },
        PathSegment::ClosePath { abs: true },
        PathSegment::LineTo { abs: true, x: 20, y: 20 },
    ];
    conv_to_relative(&mut p, 0, add, sub);
    assert_eq!(p[2], PathSegment::MoveTo { abs: false, x: 5, y: 5 });
    assert_eq!(p[3], PathSegment::ClosePath { abs: false });
    assert_eq!(p[4], PathSegment::LineTo { abs: false, x: 5, y: 5 });
}

#[test]
fn to_relative_on_a_mixed_path() {
    let arc = |abs: bool, r: i64, sweep: bool, x: i64, y: i64| PathSegment::EllipticalArc {
        abs,
        rx: r,
        ry: r,
        x_axis_rotation: 0,
        large_arc: false,
        sweep,
        x,
        y,
    };
    let mut p: Vec<Seg> = vec![
        PathSegment::MoveTo { abs: true, x: 30, y: 150 },
        arc(false, 40, true, 65, 50),
        PathSegment::ClosePath { abs: true },
        PathSegment::MoveTo { abs: false, x: 30, y: 30 },
        arc(true, 20, false, 125, 230),
        PathSegment::ClosePath { abs: true },
        PathSegment::MoveTo { abs: false, x: 40, y: 24 },
        arc(false, 20, true, 65, 50),
        PathSegment::ClosePath { abs: false },
    ];
    conv_to_relative(&mut p, 0, add, sub);
    assert_eq!(
        p,
        vec![
            PathSegment::MoveTo { abs: false, x: 30, y: 150 },
            arc(false, 40, true, 65, 50),
            PathSegment::ClosePath { abs: false },
            PathSegment::MoveTo { abs: false, x: 30, y: 30 },
            arc(false, 20, false, 65, 50),
            PathSegment::ClosePath { abs: false },
            PathSegment::MoveTo { abs: false, x: 40, y: 24 },
            arc(false, 20, true, 65, 50),
            PathSegment::ClosePath { abs: false },
        ]
    );
}

#[test]
fn to_relative_after_a_relative_move_to() {
    let mut p: Vec<Seg> = vec![
        PathSegment::MoveTo { abs: true, x: 10, y: 20 },
        PathSegment::LineTo { abs: true, x: 30, y: 40 },
        PathSegment::MoveTo { abs: false, x: 5, y: 5 },
        PathSegment::ClosePath { abs: false },
        PathSegment::LineTo { abs: true, x: 0, y: 0 },
    ];
    conv_to_relative(&mut p, 0, add, sub);
    assert_eq!(p[4], PathSegment::LineTo { abs: false, x: -35, y: -45 });
}
