use svgtypes::{RelativePosition, Stream};

#[test]
fn parse_6() {
    let mut s = Stream::from("left,");
    assert_eq!(s.parse_relative_position().unwrap(), RelativePosition::Left);
}

#[test]
fn parse_7() {
    let mut s = Stream::from("left ,");
    assert_eq!(s.parse_relative_position().unwrap(), RelativePosition::Left);
}

#[test]
fn parse_16() {
    let mut s = Stream::from("left center");
    assert_eq!(s.parse_relative_position().unwrap(), RelativePosition::Left);
}

#[test]
fn relative_position_err_1() {
    let mut s = Stream::from("something");
    assert_eq!(
        String::from_utf8(s.parse_relative_position().unwrap_err().message()).unwrap(),
        "expected 'left', 'right', 'top', 'bottom', 'center' not 'something' at position 1"
    );
}

#[test]
fn whole_keywords() {
    assert_eq!(RelativePosition::from_str("left").unwrap(), RelativePosition::Left);
    assert_eq!(RelativePosition::from_str("right").unwrap(), RelativePosition::Right);
    assert_eq!(RelativePosition::from_str("center").unwrap(), RelativePosition::Center);
    assert_eq!(RelativePosition::from_str("top").unwrap(), RelativePosition::Top);
    assert_eq!(RelativePosition::from_str("bottom").unwrap(), RelativePosition::Bottom);
    assert_eq!(
        String::from_utf8(RelativePosition::from_str("left x").unwrap_err().message()).unwrap(),
        "unexpected data at position 5"
    );
}
