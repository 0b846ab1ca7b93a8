use svgtypes::{Align, AspectRatio};

#[test]
fn aspect_ratio_write_1() {
    assert_eq!(String::from_utf8(AspectRatio::default().to_text()).unwrap(), "xMidYMid");
}

#[test]
fn aspect_ratio_write_2() {
    assert_eq!(
        String::from_utf8(AspectRatio { defer: true, align: Align::NoAlign, slice: true }.to_text())
            .unwrap(),
        "defer none slice"
    );
}
