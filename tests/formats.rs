use message_format::{
    arg, english_cardinal_classifier, icu, Context, Format, FormatError, Message, PlaceholderFormat,
    PlainText, PluralCategory, PluralFormat, SelectFormat, SimpleFormat,
};

#[test]
fn simple_format_it_works() {
    let ctx = Context::default();
    let fmt = SimpleFormat::new("name");
    let msg = Message::new(vec![Format::SimpleFormat(fmt)]);
    let output = ctx.format(&msg, Some(&arg("name", "John"))).unwrap();
    assert_eq!("John", output);
}

#[test]
fn placeholder_format_it_works() {
    let ctx = Context {
        placeholder_value: Some(3),
        ..Context::default()
    };
    let msg = Message::new(vec![Format::PlaceholderFormat(PlaceholderFormat::new())]);
    let output = ctx.format(&msg, None).unwrap();
    assert_eq!("3", output);
}

#[test]
fn plain_text_it_works() {
    let ctx = Context::default();
    let msg = Message::new(vec![Format::PlainText(PlainText::new("Test text."))]);
    let output = ctx.format(&msg, None).unwrap();
    assert_eq!("Test text.", output);
}

#[test]
fn plural_format_it_works() {
    let ctx = Context::default();
    let mut fmt = PluralFormat::new("count", icu::parse("Other").unwrap());
    fmt.one(icu::parse("One").unwrap());
    let msg = Message::new(vec![Format::PluralFormat(fmt)]);

    assert_eq!("Other", ctx.format(&msg, Some(&arg("count", 0))).unwrap());
    assert_eq!("One", ctx.format(&msg, Some(&arg("count", 1))).unwrap());
    assert_eq!("Other", ctx.format(&msg, Some(&arg("count", 3))).unwrap());
}

#[test]
fn literals_work() {
    let ctx = Context::default();
    let mut fmt = PluralFormat::new("count", icu::parse("Other").unwrap());
    fmt.one(icu::parse("One").unwrap());
    fmt.literal(3, icu::parse("Three").unwrap());
    fmt.literal(6, icu::parse("Six").unwrap());
    let msg = Message::new(vec![Format::PluralFormat(fmt)]);

    assert_eq!("One", ctx.format(&msg, Some(&arg("count", 1))).unwrap());
    assert_eq!("Three", ctx.format(&msg, Some(&arg("count", 3))).unwrap());
    assert_eq!("Six", ctx.format(&msg, Some(&arg("count", 6))).unwrap());
    assert_eq!("Other", ctx.format(&msg, Some(&arg("count", 0))).unwrap());
}

#[test]
fn select_format_it_works() {
    let ctx = Context::default();
    let mut fmt = SelectFormat::new("type", icu::parse("Default").unwrap());
    fmt.map("block", icu::parse("Block").unwrap());
    let msg = Message::new(vec![Format::SelectFormat(fmt)]);

    assert_eq!("Block", ctx.format(&msg, Some(&arg("type", "block"))).unwrap());
    assert_eq!("Default", ctx.format(&msg, Some(&arg("type", "span"))).unwrap());
}

#[test]
fn english_classifier_maps_one_to_one_and_the_rest_to_other() {
    assert_eq!(english_cardinal_classifier(1), PluralCategory::One);
    assert_eq!(english_cardinal_classifier(0), PluralCategory::Other);
    assert_eq!(english_cardinal_classifier(2), PluralCategory::Other);
    assert_eq!(english_cardinal_classifier(3), PluralCategory::Other);
    assert_eq!(english_cardinal_classifier(-1), PluralCategory::Other);
}

#[test]
fn offset_is_subtracted_before_classification() {
    let ctx = Context::default();
    let mut fmt = PluralFormat::new("count", icu::parse("Other").unwrap());
    fmt.one(icu::parse("One").unwrap());
    fmt.offset(1);
    let msg = Message::new(vec![Format::PluralFormat(fmt)]);
    assert_eq!("One", ctx.format(&msg, Some(&arg("count", 2))).unwrap());
    assert_eq!("Other", ctx.format(&msg, Some(&arg("count", 1))).unwrap());
}

#[test]
fn placeholder_in_branch_renders_offset_value() {
    let ctx = Context::default();
    let other = Message::new(vec![
        Format::PlaceholderFormat(PlaceholderFormat::new()),
        Format::PlainText(PlainText::new(" others")),
    ]);
    let mut fmt = PluralFormat::new("count", other);
    fmt.offset(2);
    let msg = Message::new(vec![Format::PluralFormat(fmt)]);
    assert_eq!("5 others", ctx.format(&msg, Some(&arg("count", 7))).unwrap());
}

#[test]
fn literal_wins_over_category_branch() {
    let ctx = Context::default();
    let mut fmt = PluralFormat::new("count", icu::parse("Other").unwrap());
    fmt.one(icu::parse("One").unwrap());
    fmt.few(icu::parse("Few").unwrap());
    fmt.literal(1, icu::parse("Exactly one").unwrap());
    let msg = Message::new(vec![Format::PluralFormat(fmt)]);
    assert_eq!("Exactly one", ctx.format(&msg, Some(&arg("count", 1))).unwrap());
}

#[test]
fn literal_registered_last_wins() {
    let mut fmt = PluralFormat::new("count", icu::parse("Other").unwrap());
    fmt.literal(3, icu::parse("First").unwrap());
    fmt.literal(3, icu::parse("Second").unwrap());
    let msg = Message::new(vec![Format::PluralFormat(fmt)]);
    let ctx = Context::default();
    assert_eq!("Second", ctx.format(&msg, Some(&arg("count", 3))).unwrap());
}

#[test]
fn select_lookup_message_picks_exact_or_default() {
    let mut fmt = SelectFormat::new("type", icu::parse("Default").unwrap());
    fmt.map("block", icu::parse("Block").unwrap());
    let ctx = Context::default();
    let block = ctx.format(fmt.lookup_message("block"), None).unwrap();
    let other = ctx.format(fmt.lookup_message("blocks"), None).unwrap();
    assert_eq!(block, "Block");
    assert_eq!(other, "Default");
}

#[test]
fn plural_on_string_is_type_mismatch() {
    let ctx = Context::default();
    let fmt = PluralFormat::new("count", icu::parse("Other").unwrap());
    let msg = Message::new(vec![Format::PluralFormat(fmt)]);
    assert_eq!(ctx.format(&msg, Some(&arg("count", "many"))), Err(FormatError::TypeMismatch));
    assert_eq!(ctx.format(&msg, None), Err(FormatError::MissingArgument));
}

#[test]
fn select_on_number_is_type_mismatch() {
    let ctx = Context::default();
    let fmt = SelectFormat::new("type", icu::parse("Default").unwrap());
    let msg = Message::new(vec![Format::SelectFormat(fmt)]);
    assert_eq!(ctx.format(&msg, Some(&arg("type", 4))), Err(FormatError::TypeMismatch));
    assert_eq!(ctx.format(&msg, Some(&arg("kind", "x"))), Err(FormatError::MissingArgument));
}

#[test]
fn placeholder_outside_plural_is_missing_context_value() {
    let ctx = Context::default();
    let msg = Message::new(vec![Format::PlaceholderFormat(PlaceholderFormat::new())]);
    assert_eq!(ctx.format(&msg, None), Err(FormatError::MissingContextValue));
}

#[test]
fn offset_leaving_the_range_is_reported() {
    let ctx = Context::default();
    let mut fmt = PluralFormat::new("count", icu::parse("Other").unwrap());
    fmt.offset(1);
    let msg = Message::new(vec![Format::PluralFormat(fmt)]);
    assert_eq!(
        ctx.format(&msg, Some(&arg("count", i64::MIN))),
        Err(FormatError::OffsetOverflow)
    );
}

#[test]
fn rendering_stops_at_first_error() {
    let ctx = Context::default();
    let msg = icu::parse("a{x}b{y}").unwrap();
    let mut out = String::from(">");
    let r = ctx.write(&msg, &mut out, Some(&arg("x", "1")));
    assert_eq!(r, Err(FormatError::MissingArgument));
    assert_eq!(out, ">a1b");
}

#[test]
fn select_branch_keeps_the_context() {
    let ctx = Context {
        placeholder_value: Some(9),
        ..Context::default()
    };
    let branch = Message::new(vec![Format::PlaceholderFormat(PlaceholderFormat::new())]);
    let mut fmt = SelectFormat::new("type", icu::parse("Default").unwrap());
    fmt.map("n", branch);
    let msg = Message::new(vec![Format::SelectFormat(fmt)]);
    assert_eq!("9", ctx.format(&msg, Some(&arg("type", "n"))).unwrap());
}

#[test]
fn derived_context_keeps_language_and_sets_placeholder() {
    let tag: language_tags::LanguageTag = "de-CH".parse().unwrap();
    let ctx = Context::new(tag.clone(), None);
    let inner = ctx.with_placeholder(5);
    assert_eq!(inner.language_tag, tag);
    assert_eq!(inner.placeholder_value, Some(5));
    assert_eq!(ctx.placeholder_value, None);
    let msg = Message::new(vec![Format::PlaceholderFormat(PlaceholderFormat::new())]);
    assert_eq!(inner.format(&msg, None).unwrap(), "5");
}

#[test]
fn classifier_strategy_defaults_to_english() {
    let c = message_format::Classifier::default();
    assert_eq!(c, message_format::Classifier::EnglishCardinal);
    assert_eq!(c.classify(1), PluralCategory::One);
    assert_eq!(c.classify(21), PluralCategory::Other);
}
