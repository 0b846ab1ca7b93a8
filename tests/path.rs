use svgtypes::path_parser::parse_path;
use svgtypes::segment::segments_match;
use svgtypes::path_writer::{rewrite_path, trim_leading_zero, write_path};
use svgtypes::{Error, PathCommand, PathParser, PathSegment, WriteOptions};

fn seg_text(v: &[PathSegment<&[u8]>]) -> Vec<PathSegment<String>> {
    v.iter().map(|s| convert(s)).collect()
}

fn t(b: &[u8]) -> String {
    String::from_utf8(b.to_vec()).unwrap()
}

fn convert(s: &PathSegment<&[u8]>) -> PathSegment<String> {
    match *s {
        PathSegment::MoveTo { abs, x, y } => PathSegment::MoveTo { abs, x: t(x), y: t(y) },
        PathSegment::LineTo { abs, x, y } => PathSegment::LineTo { abs, x: t(x), y: t(y) },
        PathSegment::HorizontalLineTo { abs, x } => PathSegment::HorizontalLineTo { abs, x: t(x) },
        PathSegment::VerticalLineTo { abs, y } => PathSegment::VerticalLineTo { abs, y: t(y) },
        PathSegment::CurveTo { abs, x1, y1, x2, y2, x, y } => PathSegment::CurveTo {
            abs,
            x1: t(x1),
            y1: t(y1),
            x2: t(x2),
            y2: t(y2),
            x: t(x),
            y: t(y),
        },
        PathSegment::SmoothCurveTo { abs, x2, y2, x, y } => PathSegment::SmoothCurveTo {
            abs,
            x2: t(x2),
            y2: t(y2),
            x: t(x),
            y: t(y),
        },
        PathSegment::Quadratic { abs, x1, y1, x, y } => PathSegment::Quadratic {
            abs,
            x1: t(x1),
            y1: t(y1),
            x: t(x),
            y: t(y),
        },
        PathSegment::SmoothQuadratic { abs, x, y } => PathSegment::SmoothQuadratic { abs, x: t(x), y: t(y) },
        PathSegment::EllipticalArc { abs, rx, ry, x_axis_rotation, large_arc, sweep, x, y } => {
            PathSegment::EllipticalArc {
                abs,
                rx: t(rx),
                ry: t(ry),
                x_axis_rotation: t(x_axis_rotation),
                large_arc,
                sweep,
                x: t(x),
                y: t(y),
            }
        }
        PathSegment::ClosePath { abs } => PathSegment::ClosePath { abs },
    }
}

fn mv(abs: bool, x: &str, y: &str) -> PathSegment<String> {
    PathSegment::MoveTo { abs, x: x.to_string(), y: y.to_string() }
}

fn ln(abs: bool, x: &str, y: &str) -> PathSegment<String> {
    PathSegment::LineTo { abs, x: x.to_string(), y: y.to_string() }
}

fn num(s: &str) -> Vec<u8> {
    s.as_bytes().to_vec()
}

fn rewrite(text: &str, opt: &WriteOptions) -> String {
    String::from_utf8(rewrite_path(text, opt)).unwrap()
}

fn with(f: impl Fn(&mut WriteOptions)) -> WriteOptions {
    let mut opt = WriteOptions::default();
    f(&mut opt);
    opt
}

#[test]
fn implicit_line_to_after_move_to() {
    let (segs, err) = parse_path("M 10 20 30 40 50 60");
    assert!(err.is_none());
    assert_eq!(seg_text(&segs), vec![mv(true, "10", "20"), ln(true, "30", "40"), ln(true, "50", "60")]);
    let (segs, _) = parse_path("m 10 20 30 40");
    assert_eq!(seg_text(&segs), vec![mv(false, "10", "20"), ln(false, "30", "40")]);
}

#[test]
fn close_path_then_number() {
    let (segs, err) = parse_path("M 0 0 Z 2");
    assert_eq!(seg_text(&segs), vec![mv(true, "0", "0"), PathSegment::ClosePath { abs: true }]);
    assert_eq!(err, Some(Error::UnexpectedData(9)));
}

#[test]
fn packed_arc_and_numbers() {
    let (segs, err) = parse_path("M10-20l30.1.5.1-20z");
    assert!(err.is_none());
    assert_eq!(
        seg_text(&segs),
        vec![mv(true, "10", "-20"), ln(false, "30.1", ".5"), ln(false, ".1", "-20"), PathSegment::ClosePath { abs: false }]
    );
    let (segs, err) = parse_path("M10-20A5.5.3-4 110-.1");
    assert!(err.is_none());
    assert_eq!(
        seg_text(&segs)[1],
        PathSegment::EllipticalArc {
            abs: true,
            rx: "5.5".to_string(),
            ry: ".3".to_string(),
            x_axis_rotation: "-4".to_string(),
            large_arc: true,
            sweep: true,
            x: "0".to_string(),
            y: "-.1".to_string(),
        }
    );
}

#[test]
fn first_segment_must_be_move_to() {
    let (segs, err) = parse_path("L 10 20");
    assert!(segs.is_empty());
    assert_eq!(err, Some(Error::UnexpectedData(1)));
    let (segs, err) = parse_path("");
    assert!(segs.is_empty() && err.is_none());
}

#[test]
fn errors_keep_the_prefix() {
    let (segs, err) = parse_path("M 10 20 L 30 x");
    assert_eq!(seg_text(&segs), vec![mv(true, "10", "20")]);
    assert_eq!(err, Some(Error::InvalidNumber(14)));
    let (_, err) = parse_path("M 10 20 A 1 1 0 2 1 1 1");
    assert_eq!(err, Some(Error::UnexpectedData(17)));
    let (_, err) = parse_path("M 10");
    assert_eq!(err, Some(Error::UnexpectedEndOfStream));
}

#[test]
fn pull_parser_stops_after_error() {
    let mut p = PathParser::from_str("M 1 2 q 3");
    assert!(p.next().unwrap().is_ok());
    assert!(p.next().unwrap().is_err());
    assert!(p.next().is_none());
}

#[test]
fn segment_accessors() {
    let mut s = PathSegment::LineTo { abs: false, x: 1, y: 2 };
    assert_eq!(s.cmd(), PathCommand::LineTo);
    assert!(s.is_relative());
    s.set_absolute(true);
    assert!(s.is_absolute());
    assert_eq!(s.x(), Some(&1));
    assert_eq!(s.y(), Some(&2));
    let h: PathSegment<i32> = PathSegment::HorizontalLineTo { abs: true, x: 5 };
    assert_eq!(h.y(), None);
}

#[test]
fn writer_write_1() {
    let segs = vec![
        PathSegment::MoveTo { abs: true, x: num("10"), y: num("20") },
        PathSegment::LineTo { abs: true, x: num("10"), y: num("20") },
    ];
    assert_eq!(String::from_utf8(write_path(&segs, &WriteOptions::default())).unwrap(), "M 10 20 L 10 20");
}

#[test]
fn writer_write_2() {
    assert_eq!(rewrite("M 10 20 l 10 20", &WriteOptions::default()), "M 10 20 l 10 20");
}

#[test]
fn writer_write_3() {
    let text = "M 10 20 L 30 40 H 50 V 60 C 70 80 90 100 110 120 \
                S 130 140 150 160 Q 170 180 190 200 T 210 220 \
                A 50 50 30 1 1 230 240 Z";
    assert_eq!(rewrite(text, &WriteOptions::default()), text);
}

#[test]
fn write_4() {
    let text = "m 10 20 l 30 40 h 50 v 60 c 70 80 90 100 110 120 \
                s 130 140 150 160 q 170 180 190 200 t 210 220 \
                a 50 50 30 1 1 230 240 z";
    assert_eq!(rewrite(text, &WriteOptions::default()), text);
}

#[test]
fn write_5() {
    assert_eq!(rewrite("", &WriteOptions::default()), "");
}

#[test]
fn write_options_single_flags() {
    let dup = with(|o| o.remove_duplicated_path_commands = true);
    assert_eq!(rewrite("M 10 20 L 30 40 L 50 60 l 70 80", &dup), "M 10 20 L 30 40 50 60 l 70 80");
    assert_eq!(rewrite("M 10 20 30 40 50 60", &dup), "M 10 20 L 30 40 50 60");
    assert_eq!(rewrite("M 10 20 M 30 40 M 50 60 L 30 40", &dup), "M 10 20 M 30 40 M 50 60 L 30 40");
    let compact = with(|o| o.use_compact_path_notation = true);
    assert_eq!(rewrite("M 10 20 L 30 40", &compact), "M10 20L30 40");
    assert_eq!(rewrite("M 10 20 V 30 H 40 V 50 H 60 Z", &compact), "M10 20V30H40V50H60Z");
    assert_eq!(rewrite("M 10-10 a 1 1 0 1 1 -1 1", &compact), "M10-10a1 1 0 1 1 -1 1");
    assert_eq!(rewrite("M 10-10 a 1 1 0 1 1 0.1 1", &compact), "M10-10a1 1 0 1 1 0.1 1");
    let implicit = with(|o| o.use_implicit_lineto_commands = true);
    assert_eq!(rewrite("M 10 20 L 30 40 L 50 60 H 10", &implicit), "M 10 20 30 40 50 60 H 10");
    assert_eq!(rewrite("M 10 20 l 30 40 L 50 60", &implicit), "M 10 20 l 30 40 L 50 60");
    assert_eq!(rewrite("M 10 20 L 30 40 l 50 60 L 50 60", &implicit), "M 10 20 30 40 l 50 60 L 50 60");
    assert_eq!(rewrite("M 10 20 L 30 40 l 50 60", &implicit), "M 10 20 30 40 l 50 60");
    assert_eq!(
        rewrite("M 10 20 L 30 40 L 50 60 M 10 20 L 30 40 L 50 60", &implicit),
        "M 10 20 30 40 50 60 M 10 20 30 40 50 60"
    );
}

#[test]
fn write_10() {
    let opt = with(|o| {
        o.use_compact_path_notation = true;
        o.join_arc_to_flags = true;
        o.remove_leading_zero = true;
    });
    assert_eq!(rewrite("M 10 -20 A 5.5 0.3 -4 1 1 0 -0.1", &opt), "M10-20A5.5.3-4 110-.1");
}

#[test]
fn arc_flags_joined() {
    let opt = with(|o| {
        o.use_compact_path_notation = true;
        o.join_arc_to_flags = true;
        o.remove_leading_zero = true;
    });
    let segs = vec![
        PathSegment::MoveTo { abs: true, x: num("10"), y: num("-20") },
        PathSegment::EllipticalArc {
            abs: true,
            rx: num("5.5"),
            ry: num("0.3"),
            x_axis_rotation: num("-4"),
            large_arc: false,
            sweep: true,
            x: num("0"),
            y: num("-0.1"),
        },
    ];
    assert_eq!(String::from_utf8(write_path(&segs, &opt)).unwrap(), "M10-20A5.5.3-4 010-.1");
}

#[test]
fn write_18() {
    let opt = with(|o| {
        o.use_implicit_lineto_commands = true;
        o.remove_duplicated_path_commands = true;
    });
    assert_eq!(
        rewrite("M 10 20 L 30 40 L 50 60 M 10 20 L 30 40 L 50 60", &opt),
        "M 10 20 30 40 50 60 M 10 20 30 40 50 60"
    );
}

#[test]
fn write_19() {
    let opt = with(|o| {
        o.use_compact_path_notation = true;
        o.remove_duplicated_path_commands = true;
        o.remove_leading_zero = true;
    });
    assert_eq!(
        rewrite("m10 20 A 10 10 0 1 0 0 0 A 2 2 0 1 0 2 0", &opt),
        "m10 20A10 10 0 1 0 0 0 2 2 0 1 0 2 0"
    );
}

#[test]
fn write_20() {
    let opt = with(|o| {
        o.use_compact_path_notation = true;
        o.remove_duplicated_path_commands = true;
        o.remove_leading_zero = true;
    });
    assert_eq!(rewrite("M 0.1 0.1 L 1 0.1 2 -0.1", &opt), "M.1.1L1 .1 2-.1");
}

#[test]
fn compact_disambiguation() {
    let opt = with(|o| {
        o.use_compact_path_notation = true;
        o.remove_leading_zero = true;
    });
    let segs = vec![
        PathSegment::MoveTo { abs: true, x: num("0.1"), y: num("0.1") },
        PathSegment::LineTo { abs: true, x: num("1"), y: num("0.1") },
        PathSegment::LineTo { abs: true, x: num("2"), y: num("-0.1") },
    ];
    assert_eq!(String::from_utf8(write_path(&segs, &opt)).unwrap(), "M.1.1L1 .1L2-.1");
}

#[test]
fn leading_zero_trimming() {
    assert_eq!(trim_leading_zero(b"-0.1"), b"-.1".to_vec());
    assert_eq!(trim_leading_zero(b"0.5"), b".5".to_vec());
    assert_eq!(trim_leading_zero(b"+0.25"), b"+.25".to_vec());
    assert_eq!(trim_leading_zero(b"10.5"), b"10.5".to_vec());
    assert_eq!(trim_leading_zero(b"0"), b"0".to_vec());
    assert_eq!(trim_leading_zero(b"0."), b"0.".to_vec());
}

#[test]
fn round_trip_with_default_options() {
    let text = "M10-20A5.5.3-4 110-.1 c 1 2 3 4 5 6z m1 1 2 2";
    let (first, err) = parse_path(text);
    assert!(err.is_none());
    let written = rewrite(text, &WriteOptions::default());
    let (second, err) = parse_path(&written);
    assert!(err.is_none());
    assert_eq!(seg_text(&first), seg_text(&second));
}

#[test]
fn segment_comparison() {
    let a: PathSegment<i32> = PathSegment::CurveTo { abs: true, x1: 1, y1: 2, x2: 3, y2: 4, x: 5, y: 6 };
    let b: PathSegment<i32> = PathSegment::CurveTo { abs: true, x1: 1, y1: 2, x2: 3, y2: 4, x: 5, y: 7 };
    let near = |p: &i32, q: &i32| (p - q).abs() <= 1;
    let exact = |p: &i32, q: &i32| p == q;
    assert!(segments_match(&a, &b, near));
    assert!(!segments_match(&a, &b, exact));
    let c: PathSegment<i32> = PathSegment::CurveTo { abs: false, x1: 1, y1: 2, x2: 3, y2: 4, x: 5, y: 6 };
    assert!(!segments_match(&a, &c, exact));
    let arc = |large_arc: bool| PathSegment::EllipticalArc {
        abs: true,
        rx: 1,
        ry: 1,
        x_axis_rotation: 0,
        large_arc,
        sweep: false,
        x: 2,
        y: 2,
    };
    assert!(!segments_match(&arc(true), &arc(false), exact));
    assert!(segments_match(&arc(true), &arc(true), exact));
}
