use bulk_cp::template::{parse_destination, Template, TemplateError};

fn compile(s: &str) -> Template {
    match parse_destination(s) {
        Ok(t) => t,
        Err(e) => panic!("template {:?} refused: {:?}", s, e),
    }
}

fn caps(groups: &[Option<&str>]) -> Vec<Option<String>> {
    groups.iter().map(|g| g.map(|s| s.to_string())).collect()
}

#[test]
fn plain_template_renders_to_itself() {
    let t = compile("hello world.txt");
    assert_eq!(t.render(&caps(&[Some("zzz")])), Ok("hello world.txt".to_string()));
    assert_eq!(t.render(&Vec::new()), Ok("hello world.txt".to_string()));
}

#[test]
fn empty_template_renders_empty() {
    let t = compile("");
    assert_eq!(t.render(&Vec::new()), Ok(String::new()));
}

#[test]
fn non_ascii_literal_round_trips() {
    let t = compile("résumé_ß.txt");
    assert_eq!(t.render(&Vec::new()), Ok("résumé_ß.txt".to_string()));
}

#[test]
fn captures_interleave_with_literals() {
    let t = compile("dest_%1.dat");
    assert_eq!(t.render(&caps(&[Some("a1.txt"), Some("1")])), Ok("dest_1.dat".to_string()));
    let t = compile("%2-%1/%0");
    assert_eq!(t.render(&caps(&[Some("ab"), Some("a"), Some("b")])), Ok("b-a/ab".to_string()));
}

#[test]
fn double_percent_is_a_literal_percent() {
    assert_eq!(compile("%%").render(&Vec::new()), Ok("%".to_string()));
    assert_eq!(compile("a%%b").render(&Vec::new()), Ok("a%b".to_string()));
    assert_eq!(compile("100%%").render(&Vec::new()), Ok("100%".to_string()));
    assert_eq!(compile("%%%1").render(&caps(&[Some("x7"), Some("7")])), Ok("%7".to_string()));
    assert_eq!(compile("%%1").render(&Vec::new()), Ok("%1".to_string()));
}

#[test]
fn missing_group_is_reported() {
    let t = compile("x%2y");
    assert_eq!(t.render(&caps(&[Some("ab"), Some("a")])), Err(2));
    let t = compile("%1%3");
    assert_eq!(t.render(&caps(&[Some("ab"), None, Some("b"), None])), Err(1));
}

#[test]
fn unknown_escape_is_refused() {
    match parse_destination("ab%x") {
        Err(e) => assert_eq!(e, TemplateError::UnknownEscape { ch: 'x', pos: 3 }),
        Ok(_) => panic!("accepted"),
    }
}

#[test]
fn trailing_percent_is_refused() {
    match parse_destination("ab%") {
        Err(e) => assert_eq!(e, TemplateError::TrailingPercent { pos: 2 }),
        Ok(_) => panic!("accepted"),
    }
}
