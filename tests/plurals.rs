use message_format::{arg, icu, Classifier, Context, Format, Message, PluralFormat};

#[test]
fn plural_template_renders_one_and_other_branches() {
    let ctx = Context::default();
    let parsed = icu::parse("{count,plural}").unwrap();
    assert_eq!(ctx.format(&parsed, Some(&arg("count", 1))).unwrap(), "1");

    let mut fmt = PluralFormat::new("count", icu::parse("Other").unwrap());
    fmt.one(icu::parse("One item").unwrap());
    let msg = Message::new(vec![Format::PluralFormat(fmt)]);
    assert_eq!(ctx.format(&msg, Some(&arg("count", 1))).unwrap(), "One item");
    assert_eq!(ctx.format(&msg, Some(&arg("count", 5))).unwrap(), "Other");
}

#[test]
fn unset_category_branch_falls_back_to_other() {
    let ctx = Context::default();
    let mut fmt = PluralFormat::new("count", icu::parse("Other").unwrap());
    fmt.zero(icu::parse("Zero").unwrap());
    fmt.two(icu::parse("Two").unwrap());
    fmt.many(icu::parse("Many").unwrap());
    fmt.classifier(Classifier::EnglishCardinal);
    let msg = Message::new(vec![Format::PluralFormat(fmt)]);
    assert_eq!(ctx.format(&msg, Some(&arg("count", 1))).unwrap(), "Other");
    assert_eq!(ctx.format(&msg, Some(&arg("count", 0))).unwrap(), "Other");
}

#[test]
fn nested_plural_inside_select_sees_its_own_value() {
    let ctx = Context::default();
    let inner_other = icu::parse("many").unwrap();
    let mut inner = PluralFormat::new("n", inner_other);
    inner.one(icu::parse("one").unwrap());
    let branch = Message::new(vec![
        Format::PlainText(message_format::PlainText::new("she has ")),
        Format::PluralFormat(inner),
    ]);
    let mut sel = message_format::SelectFormat::new("who", icu::parse("?").unwrap());
    sel.map("her", branch);
    let msg = Message::new(vec![Format::SelectFormat(sel)]);
    let args = arg("who", "her").arg("n", 1);
    assert_eq!(ctx.format(&msg, Some(&args)).unwrap(), "she has one");
}

#[test]
fn parsed_plural_branches_render() {
    let ctx = Context::default();
    let m = icu::parse("{count, plural, one {One item} other {Other}}").unwrap();
    assert_eq!(ctx.format(&m, Some(&arg("count", 1))).unwrap(), "One item");
    assert_eq!(ctx.format(&m, Some(&arg("count", 5))).unwrap(), "Other");
}

#[test]
fn parsed_hash_renders_offset_value() {
    let ctx = Context::default();
    let m = icu::parse("You and {n, plural, offset:1 =0 {nobody} one {# other} other {# others}}.")
        .unwrap();
    assert_eq!(ctx.format(&m, Some(&arg("n", 1))).unwrap(), "You and nobody.");
    assert_eq!(ctx.format(&m, Some(&arg("n", 2))).unwrap(), "You and 1 other.");
    assert_eq!(ctx.format(&m, Some(&arg("n", 4))).unwrap(), "You and 3 others.");
}

#[test]
fn parsed_literal_beats_category() {
    let ctx = Context::default();
    let m = icu::parse("{n, plural, =1 {exactly one} one {one} other {more}}").unwrap();
    assert_eq!(ctx.format(&m, Some(&arg("n", 1))).unwrap(), "exactly one");
    let m = icu::parse("{n, plural, =-3 {minus three} other {#}}").unwrap();
    assert_eq!(ctx.format(&m, Some(&arg("n", -3))).unwrap(), "minus three");
    assert_eq!(ctx.format(&m, Some(&arg("n", -4))).unwrap(), "-4");
}

#[test]
fn parsed_select_with_nested_plural() {
    let ctx = Context::default();
    let m = icu::parse(
        "{who, select, her {She has {n, plural, one {# cat} other {# cats}}} other {They have #{n}}}",
    )
    .unwrap();
    let args = arg("who", "her").arg("n", 2);
    assert_eq!(ctx.format(&m, Some(&args)).unwrap(), "She has 2 cats");
    let args = arg("who", "them").arg("n", 1);
    assert_eq!(ctx.format(&m, Some(&args)).unwrap(), "They have #1");
}

#[test]
fn branches_need_other() {
    assert!(matches!(
        icu::parse("{n, plural, one {x}}"),
        Err(message_format::ParseError::Invalid)
    ));
    assert!(matches!(
        icu::parse("{k, select, a {x}}"),
        Err(message_format::ParseError::Invalid)
    ));
    assert!(matches!(
        icu::parse("{n, plural, lots {x} other {y}}"),
        Err(message_format::ParseError::Invalid)
    ));
    assert!(matches!(
        icu::parse("{n, plural, other {y}"),
        Err(message_format::ParseError::Incomplete)
    ));
    assert!(matches!(
        icu::parse("{n, plural, =99999999999999999999 {big} other {y}}"),
        Err(message_format::ParseError::Invalid)
    ));
}
