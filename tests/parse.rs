use message_format::{arg, icu, Context, FormatError, ParseError, Value};

#[test]
fn parse_it_works() {
    let ctx = Context::default();
    match icu::parse("{name} is from {city}.") {
        Ok(m) => {
            assert_eq!(
                ctx.format(&m, Some(&arg("name", "Hendrik").arg("city", "Berlin"))).unwrap(),
                "Hendrik is from Berlin."
            );
        }
        Err(e) => panic!("Parse failed: {:?}", e),
    }
}

#[test]
fn incomplete_fails() {
    match icu::parse("{name") {
        Err(ParseError::Incomplete) => {}
        Err(e) => panic!("Expected incomplete failure: Got {:?}", e),
        Ok(_) => panic!("Expected incomplete failure, but succeeded."),
    }
}

#[test]
fn all_text_works() {
    match icu::parse("Hello, world!") {
        Ok(_) => {}
        _ => panic!("Expected successful parse."),
    }
}

#[test]
fn plural_format_works() {
    match icu::parse("{count,plural}") {
        Ok(_) => {}
        _ => panic!("Expected successful parse."),
    }
}

#[test]
fn select_format_works() {
    match icu::parse("{type,select}") {
        Ok(_) => {}
        _ => panic!("Expected successful parse."),
    }
}

#[test]
fn format_without_args() {
    let ctx = Context::default();
    let m = icu::parse("Hello!").unwrap();
    let s = ctx.format(&m, None).unwrap();
    assert_eq!(s, "Hello!");
}

#[test]
fn format_single_arg() {
    let ctx = Context::default();
    let m = icu::parse("{name}").unwrap();
    let name = "John";
    let s = ctx.format(&m, Some(&arg("name", name))).unwrap();
    assert_eq!(s, "John");
}

#[test]
fn format_single_named_arg() {
    let ctx = Context::default();
    let m = icu::parse("{name}").unwrap();
    let s = ctx.format(&m, Some(&arg("name", "John"))).unwrap();
    assert_eq!(s, "John");
}

#[test]
fn format_two_args() {
    let ctx = Context::default();
    let m = icu::parse("{a}{b}").unwrap();
    let b = "2";
    let s = ctx.format(&m, Some(&arg("a", "1").arg("b", b))).unwrap();
    assert_eq!(s, "12");
}

#[test]
fn format_three_args() {
    let ctx = Context::default();
    let m = icu::parse("{a}{c}{b}").unwrap();
    let s = ctx
        .format(&m, Some(&arg("a", "1").arg("b", "2").arg("c", "3")))
        .unwrap();
    assert_eq!(s, "132");
}

#[test]
fn write_without_args() {
    let ctx = Context::default();
    let m = icu::parse("Hello!").unwrap();
    let mut stream = String::new();
    ctx.write(&m, &mut stream, None).unwrap();
    assert_eq!(stream, "Hello!");
}

#[test]
fn write_single_arg() {
    let ctx = Context::default();
    let m = icu::parse("{name}").unwrap();
    let mut stream = String::new();
    ctx.write(&m, &mut stream, Some(&arg("name", "John"))).unwrap();
    assert_eq!(stream, "John");
}

#[test]
fn text_without_braces_renders_unchanged_with_any_args() {
    let ctx = Context::default();
    let text = "Plain text, with commas } and closing braces.";
    let m = icu::parse(text).unwrap();
    assert_eq!(ctx.format(&m, None).unwrap(), text);
    assert_eq!(ctx.format(&m, Some(&arg("x", 1).arg("y", "z"))).unwrap(), text);
}

#[test]
fn empty_template_parses_and_renders_empty() {
    let ctx = Context::default();
    let m = icu::parse("").unwrap();
    assert_eq!(ctx.format(&m, None).unwrap(), "");
}

#[test]
fn single_reference_renders_argument_exactly() {
    let ctx = Context::default();
    let m = icu::parse("{name}").unwrap();
    let s = "Zoë, née Müller";
    assert_eq!(ctx.format(&m, Some(&arg("name", s))).unwrap(), s);
}

#[test]
fn supplied_arguments_never_fail() {
    let ctx = Context::default();
    let m = icu::parse("{a} and {b}, then {a, plural } again").unwrap();
    let out = ctx.format(&m, Some(&arg("a", 4).arg("b", "x"))).unwrap();
    assert_eq!(out, "4 and x, then 4 again");
}

#[test]
fn missing_argument_is_reported() {
    let ctx = Context::default();
    let m = icu::parse("{name}").unwrap();
    assert_eq!(ctx.format(&m, None), Err(FormatError::MissingArgument));
    assert_eq!(
        ctx.format(&m, Some(&arg("other", "x"))),
        Err(FormatError::MissingArgument)
    );
}

#[test]
fn keyword_forms_accept_whitespace() {
    let ctx = Context::default();
    let m = icu::parse("{kind,\n select\t}").unwrap();
    assert_eq!(ctx.format(&m, Some(&arg("kind", "box"))).unwrap(), "box");
}

#[test]
fn malformed_formats_are_invalid() {
    assert!(matches!(icu::parse("{}"), Err(ParseError::Invalid)));
    assert!(matches!(icu::parse("{a,b}"), Err(ParseError::Invalid)));
    assert!(matches!(icu::parse("{a, plural x}"), Err(ParseError::Invalid)));
    assert!(matches!(icu::parse("ok {a, plural"), Err(ParseError::Incomplete)));
}

#[test]
fn numbers_render_in_decimal() {
    let ctx = Context::default();
    let m = icu::parse("{n}").unwrap();
    assert_eq!(ctx.format(&m, Some(&arg("n", -1205))).unwrap(), "-1205");
    assert_eq!(
        ctx.format(&m, Some(&arg("n", Value::Number(0).to_string()))).unwrap(),
        "0"
    );
}
