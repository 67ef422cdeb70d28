use argtiny::ArgumentType::{Boolean, Integer, Text};
use argtiny::{Argument, ArgumentTrait, OptionalArgument, ParsedValue};

#[test]
fn argument_from_valid_name() {
    Argument::new("argument", Text);
}

#[test]
fn optional_argument_valid() {
    OptionalArgument::new(
        "argument",
        Some("a"),
        Text,
        ParsedValue::Text(String::new()),
    );
}

#[test]
fn optional_argument_without_short_form() {
    OptionalArgument::new("argument", None, Text, ParsedValue::Text(String::new()));
}

#[test]
fn optional_argument_get_short() {
    let opt_arg =
        OptionalArgument::new("verbose", Some("v"), Boolean, ParsedValue::Boolean(false));
    assert_eq!(opt_arg.short_form(), Some("v".to_string()));
}

#[test]
fn argument_reports_its_declaration() {
    let arg = Argument::new("port", Integer);
    assert!(arg.is_required());
    assert_eq!(arg.name(), "port".to_string());
    assert_eq!(arg.short_form(), None);
    assert_eq!(arg.argtype(), Integer);
    assert_eq!(arg.default_value(), None);
}

#[test]
fn optional_argument_reports_its_declaration() {
    let arg = OptionalArgument::new("count", None, Integer, ParsedValue::Integer(7));
    assert!(!arg.is_required());
    assert_eq!(arg.name(), "count".to_string());
    assert_eq!(arg.short_form(), None);
    assert_eq!(arg.argtype(), Integer);
    assert_eq!(arg.default_value(), Some(ParsedValue::Integer(7)));
}

#[test]
fn parsed_value_matches_its_own_type_only() {
    assert!(ParsedValue::Integer(3).matches(&Integer));
    assert!(!ParsedValue::Integer(3).matches(&Text));
    assert!(ParsedValue::Text("x".to_string()).matches(&Text));
    assert!(!ParsedValue::Text("x".to_string()).matches(&Boolean));
    assert!(ParsedValue::Boolean(true).matches(&Boolean));
    assert!(!ParsedValue::Boolean(true).matches(&Integer));
}

#[test]
fn parsed_value_duplicate_is_equal() {
    let v = ParsedValue::Text("abc".to_string());
    assert_eq!(v.duplicate(), v);
    assert_eq!(ParsedValue::Integer(-4).duplicate(), ParsedValue::Integer(-4));
}
