use argtiny::ArgumentType::{Boolean, Integer, Text};
use argtiny::{Argument, ArgumentParser, OptionalArgument, ParseError, ParsedValue};

fn make_args(args: &[&str]) -> Vec<String> {
    let mut v = vec!["program".to_string()];
    for a in args {
        v.push(a.to_string());
    }
    v
}

#[test]
fn parse_required_text() {
    let parsed = ArgumentParser::new()
        .add_arg(Argument::new("filename", Text))
        .parse(make_args(&["filename.txt"]))
        .unwrap();
    assert_eq!(parsed.get_as::<String>("filename"), "filename.txt");
}

#[test]
fn parse_required_integer() {
    let parsed = ArgumentParser::new()
        .add_arg(Argument::new("port", Integer))
        .parse(make_args(&["8080"]))
        .unwrap();
    assert_eq!(parsed.get_as::<i64>("port"), 8080);
}

#[test]
fn parse_optional_long_form() {
    let parsed = ArgumentParser::new()
        .add_arg(OptionalArgument::new(
            "port",
            Some("p"),
            Integer,
            ParsedValue::Integer(8080),
        ))
        .parse(make_args(&["--port", "42"]))
        .unwrap();
    assert_eq!(parsed.get_as::<i64>("port"), 42);
}

#[test]
fn parse_optional_short_form() {
    let parsed = ArgumentParser::new()
        .add_arg(OptionalArgument::new(
            "port",
            Some("p"),
            Integer,
            ParsedValue::Integer(8080),
        ))
        .parse(make_args(&["-p", "42"]))
        .unwrap();
    assert_eq!(parsed.get_as::<i64>("port"), 42);
}

#[test]
fn parse_optional_bool_long_form() {
    let parsed = ArgumentParser::new()
        .add_arg(OptionalArgument::new(
            "verbose",
            Some("v"),
            Boolean,
            ParsedValue::Boolean(false),
        ))
        .parse(make_args(&["--verbose"]))
        .unwrap();
    assert_eq!(parsed.get_as::<bool>("verbose"), true);
}

#[test]
fn parse_optional_bool_short_form() {
    let parsed = ArgumentParser::new()
        .add_arg(OptionalArgument::new(
            "verbose",
            Some("v"),
            Boolean,
            ParsedValue::Boolean(false),
        ))
        .parse(make_args(&["-v"]))
        .unwrap();
    assert_eq!(parsed.get_as::<bool>("verbose"), true);
}

#[test]
fn parse_optional_uses_default_value() {
    let parsed = ArgumentParser::new()
        .add_arg(OptionalArgument::new(
            "verbose",
            Some("v"),
            Boolean,
            ParsedValue::Boolean(false),
        ))
        .parse(make_args(&[]))
        .unwrap();
    assert_eq!(parsed.get_as::<bool>("verbose"), false);
}

#[test]
fn parse_optional_without_short_form() {
    let parsed = ArgumentParser::new()
        .add_arg(OptionalArgument::new(
            "version",
            None,
            Boolean,
            ParsedValue::Boolean(false),
        ))
        .parse(make_args(&["--version"]))
        .unwrap();
    assert_eq!(parsed.get_as::<bool>("version"), true);
}

#[test]
fn parse_optional_without_short_form_uses_default_value() {
    let parsed = ArgumentParser::new()
        .add_arg(OptionalArgument::new(
            "version",
            None,
            Boolean,
            ParsedValue::Boolean(false),
        ))
        .parse(make_args(&[]))
        .unwrap();
    assert_eq!(parsed.get_as::<bool>("version"), false);
}

#[test]
fn parse_double_dash_stops_option_parsing() {
    let parsed = ArgumentParser::new()
        .add_arg(Argument::new("filename", Text))
        .parse(make_args(&["--", "--filename.txt"]))
        .unwrap();
    assert_eq!(parsed.get_as::<String>("filename"), "--filename.txt");
}

#[test]
fn parse_double_dash_with_nothing_after() {
    let result = ArgumentParser::new().parse(make_args(&["--"]));
    assert!(result.is_ok());
}

#[test]
fn parse_multiple_required_arguments() {
    let parsed = ArgumentParser::new()
        .add_arg(Argument::new("input", Text))
        .add_arg(Argument::new("output", Text))
        .add_arg(Argument::new("count", Integer))
        .parse(make_args(&["input.txt", "output.txt", "42"]))
        .unwrap();
    assert_eq!(parsed.get_as::<String>("input"), "input.txt");
    assert_eq!(parsed.get_as::<String>("output"), "output.txt");
    assert_eq!(parsed.get_as::<i64>("count"), 42);
}

#[test]
fn parse_multiple_optional_arguments() {
    let parsed = ArgumentParser::new()
        .add_arg(OptionalArgument::new(
            "verbose",
            Some("v"),
            Boolean,
            ParsedValue::Boolean(false),
        ))
        .add_arg(OptionalArgument::new(
            "port",
            Some("p"),
            Integer,
            ParsedValue::Integer(8080),
        ))
        .add_arg(OptionalArgument::new(
            "version",
            None,
            Boolean,
            ParsedValue::Boolean(false),
        ))
        .parse(make_args(&["-p", "42", "-v"]))
        .unwrap();
    assert_eq!(parsed.get_as::<bool>("verbose"), true);
    assert_eq!(parsed.get_as::<i64>("port"), 42);
    assert_eq!(parsed.get_as::<bool>("version"), false);
}

#[test]
fn parse_multiple_optional_and_required_arguments() {
    let parsed = ArgumentParser::new()
        .add_arg(Argument::new("input", Text))
        .add_arg(OptionalArgument::new(
            "verbose",
            Some("v"),
            Boolean,
            ParsedValue::Boolean(false),
        ))
        .add_arg(Argument::new("output", Text))
        .parse(make_args(&["input.txt", "-v", "output.txt"]))
        .unwrap();
    assert_eq!(parsed.get_as::<String>("input"), "input.txt");
    assert_eq!(parsed.get_as::<bool>("verbose"), true);
    assert_eq!(parsed.get_as::<String>("output"), "output.txt");
}

#[test]
fn parse_errors_missing_required() {
    let result = ArgumentParser::new()
        .add_arg(Argument::new("filename", Text))
        .parse(make_args(&[]));
    assert!(matches!(result, Err(ParseError::MissingRequired(_))));
}

#[test]
fn parse_errors_missing_value() {
    let result = ArgumentParser::new()
        .add_arg(OptionalArgument::new(
            "port",
            Some("p"),
            Integer,
            ParsedValue::Integer(8080),
        ))
        .parse(make_args(&["-p"]));
    assert!(matches!(result, Err(ParseError::MissingValue(_))));
}

#[test]
fn parse_errors_wrong_type() {
    let result = ArgumentParser::new()
        .add_arg(Argument::new("count", Integer))
        .parse(make_args(&["definitely_not_integer"]));
    assert!(matches!(result, Err(ParseError::WrongType { .. })));
}

#[test]
fn parse_errors_unknown_argument() {
    let result = ArgumentParser::new()
        .add_arg(OptionalArgument::new(
            "port",
            Some("p"),
            Integer,
            ParsedValue::Integer(8080),
        ))
        .parse(make_args(&["-c", "42"]));
    assert!(matches!(result, Err(ParseError::UnknownArgument(_))));
}

#[test]
fn parse_errors_duplicate_argument_short_then_long() {
    let result = ArgumentParser::new()
        .add_arg(OptionalArgument::new(
            "verbose",
            Some("v"),
            Boolean,
            ParsedValue::Boolean(false),
        ))
        .parse(make_args(&["-v", "--verbose"]));
    assert!(matches!(result, Err(ParseError::DuplicateArgument(_))));
}

#[test]
fn parse_errors_duplicate_argument_long_then_short() {
    let result = ArgumentParser::new()
        .add_arg(OptionalArgument::new(
            "verbose",
            Some("v"),
            Boolean,
            ParsedValue::Boolean(false),
        ))
        .parse(make_args(&["--verbose", "-v"]));
    assert!(matches!(result, Err(ParseError::DuplicateArgument(_))));
}

#[test]
fn parse_errors_too_many_arguments() {
    let result = ArgumentParser::new()
        .add_arg(Argument::new("filename", Text))
        .parse(make_args(&["filename.txt", "extra_argument"]));
    println!("{result:?}");
    assert!(matches!(result, Err(ParseError::TooManyArguments)));
}

#[test]
fn parse_errors_positional_with_no_required_args() {
    let result = ArgumentParser::new().parse(make_args(&["unexpected_argument"]));
    assert!(matches!(result, Err(ParseError::TooManyArguments)));
}
