use svgtypes::{Color, LineCap, LineJoin, WriteOptions};

fn text(c: Color, trim: bool) -> String {
    let mut opt = WriteOptions::default();
    opt.trim_hex_colors = trim;
    String::from_utf8(c.to_text(&opt)).unwrap()
}

#[test]
fn color_writing() {
    assert_eq!(text(Color::new_rgb(255, 0, 0), false), "#ff0000");
    assert_eq!(text(Color::new_rgb(255, 127, 5), false), "#ff7f05");
    assert_eq!(text(Color::new_rgb(255, 0, 0), true), "#f00");
    assert_eq!(text(Color::new_rgb(255, 127, 5), true), "#ff7f05");
}

#[test]
fn named_colors() {
    assert_eq!(Color::black(), Color::new_rgba(0, 0, 0, 255));
    assert_eq!(Color::white(), Color::new_rgb(255, 255, 255));
    assert_eq!(text(Color::gray(), false), "#808080");
    assert_eq!(text(Color::red(), true), "#f00");
    assert_eq!(text(Color::green(), false), "#008000");
    assert_eq!(text(Color::blue(), true), "#00f");
}

#[test]
fn line_caps_and_joins() {
    assert_eq!(LineCap::from_str("butt").unwrap(), LineCap::Butt);
    assert_eq!(LineCap::from_str("  round").unwrap(), LineCap::Round);
    assert_eq!(LineCap::from_str(" square ").unwrap(), LineCap::Square);
    assert!(LineCap::from_str("squares").is_err());
    assert_eq!(LineJoin::from_str("   bevel").unwrap(), LineJoin::Bevel);
    assert_eq!(LineJoin::from_str("miter   ").unwrap(), LineJoin::Miter);
    assert_eq!(LineJoin::from_str(" miterclip").unwrap(), LineJoin::MiterClip);
    assert_eq!(LineJoin::from_str("   round").unwrap(), LineJoin::Round);
    assert!(LineJoin::from_str("").is_err());
}
