use message_format::{arg, Value};

#[test]
fn get_works() {
    let name = "John";
    let args = arg("name", name);
    assert_eq!(args.get("name").unwrap().value().to_string(), "John");
}

#[test]
fn numbers_work() {
    let count = 3;
    let args = arg("count", count);
    assert_eq!(args.get("count").unwrap().value(), &Value::Number(3));
    assert_eq!(args.get("count").unwrap().value().to_string(), "3");
}

#[test]
fn later_argument_shadows_earlier() {
    let args = arg("x", 1).arg("x", 2);
    assert_eq!(args.get("x").unwrap().value(), &Value::Number(2));
}

#[test]
fn lookup_walks_back_to_older_links() {
    let args = arg("name", "John").arg("city", "Rome");
    assert_eq!(args.get("name").unwrap().value(), &Value::Str("John".to_string()));
    assert_eq!(args.get("city").unwrap().value(), &Value::Str("Rome".to_string()));
    assert!(args.get("country").is_none());
}

#[test]
fn unsigned_and_wide_integers_become_numbers() {
    let args = arg("a", 7u32).arg("b", -9i64).arg("c", 12usize).arg("d", 5u64);
    assert_eq!(args.get("a").unwrap().value(), &Value::Number(7));
    assert_eq!(args.get("b").unwrap().value(), &Value::Number(-9));
    assert_eq!(args.get("c").unwrap().value(), &Value::Number(12));
    assert_eq!(args.get("d").unwrap().value(), &Value::Number(5));
}

#[test]
fn negative_and_extreme_numbers_display_in_decimal() {
    assert_eq!(Value::Number(-42).to_string(), "-42");
    assert_eq!(Value::Number(0).to_string(), "0");
    assert_eq!(Value::Number(i64::MIN).to_string(), "-9223372036854775808");
    assert_eq!(Value::Number(i64::MAX).to_string(), "9223372036854775807");
}
