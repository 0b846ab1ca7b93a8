use svgtypes::StyleParser;

fn message(s: &mut StyleParser) -> String {
    String::from_utf8(s.next().unwrap().unwrap_err().message()).unwrap()
}

fn declarations(text: &str) -> Vec<(String, String)> {
    let mut s = StyleParser::from_str(text);
    let mut out = Vec::new();
    while let Some(r) = s.next() {
        let (n, v) = r.unwrap();
        out.push((String::from_utf8(n.to_vec()).unwrap(), String::from_utf8(v.to_vec()).unwrap()));
    }
    out
}

fn pairs(v: &[(&str, &str)]) -> Vec<(String, String)> {
    v.iter().map(|(a, b)| (a.to_string(), b.to_string())).collect()
}

#[test]
fn parse_err_1() {
    let mut s = StyleParser::from_str(":");
    assert_eq!(message(&mut s), "expected '/', '-' not ':' at position 1");
}

#[test]
fn parser_parse_err_2() {
    let mut s = StyleParser::from_str("name:'");
    assert_eq!(message(&mut s), "unexpected end of stream");
}

#[test]
fn parse_err_3() {
    let mut s = StyleParser::from_str("&\x0a96M*9");
    assert_eq!(message(&mut s), "expected '/', '-' not '&' at position 1");
}

#[test]
fn parser_parse_err_4() {
    let mut s = StyleParser::from_str("/*/**/");
    assert_eq!(s.next().unwrap().is_err(), true);
}

#[test]
fn parser_parse_err_5() {
    let mut s = StyleParser::from_str("&#x4B2ƿ  ;");
    assert_eq!(message(&mut s), "expected '/', '-' not '&' at position 1");
}

#[test]
fn parse_err_6() {
    let mut s = StyleParser::from_str("{");
    assert_eq!(message(&mut s), "expected '/', '-' not '{' at position 1");
}

#[test]
fn parse_err_7() {
    let mut s = StyleParser::from_str("fill:красный;&");
    s.next();
    assert_eq!(message(&mut s), "expected '/', '-' not '&' at position 14");
}

#[test]
fn style_declarations() {
    assert_eq!(
        declarations("fill:none; color:cyan; stroke-width:4.00"),
        pairs(&[("fill", "none"), ("color", "cyan"), ("stroke-width", "4.00")])
    );
    assert_eq!(declarations("fill:none;"), pairs(&[("fill", "none")]));
    assert_eq!(
        declarations("font-size:24px;font-family:'Arial Bold'"),
        pairs(&[("font-size", "24px"), ("font-family", "Arial Bold")])
    );
    assert_eq!(
        declarations("font-size:24px; /* comment */ font-style:normal;"),
        pairs(&[("font-size", "24px"), ("font-style", "normal")])
    );
    assert_eq!(
        declarations("font-size:24px;-font-style:normal;font-stretch:normal;"),
        pairs(&[("font-size", "24px"), ("font-stretch", "normal")])
    );
    assert_eq!(declarations("fill:none;-webkit:hi"), pairs(&[("fill", "none")]));
    assert_eq!(declarations("  fill  :  none  "), pairs(&[("fill", "none")]));
    assert_eq!(declarations("/**/"), pairs(&[]));
    assert_eq!(
        declarations("font-family:Neue Frutiger 65"),
        pairs(&[("font-family", "Neue Frutiger 65")])
    );
    assert_eq!(declarations("/*text*/fill:green/*text*/"), pairs(&[("fill", "green")]));
    assert_eq!(declarations("  /*text*/ fill:green  /*text*/ "), pairs(&[("fill", "green")]));
}

#[test]
fn style_parser_stops_after_a_failure() {
    let mut s = StyleParser::from_str("/* open fill:red");
    assert!(s.next().unwrap().is_err());
    assert!(s.next().is_none());
    let mut s = StyleParser::from_str("a: ; b:c");
    assert!(s.next().unwrap().is_err());
    assert!(s.next().is_none());
}
