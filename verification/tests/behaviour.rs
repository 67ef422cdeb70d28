use argtiny::ArgumentType::{Boolean, Integer, Text};
use argtiny::{
    parse_i64, Argument, ArgumentParser, ArgumentTrait, FromParsedValue, OptionalArgument,
    ParseError, ParsedValue,
};

fn line(args: &[&str]) -> Vec<String> {
    args.iter().map(|s| s.to_string()).collect()
}

#[test]
fn decimal_reading_agrees_with_std() {
    let cases = [
        "0", "-0", "+0", "+5", "-5", "-", "+", "", "12a", "a12", "1 ", " 1", "1_000", "+-1", "--1",
        "00012", "-00012", "9223372036854775807", "9223372036854775808",
        "-9223372036854775808", "-9223372036854775809", "99999999999999999999999",
        "000000000000000000000000000000000042", "\u{0661}", "12\u{00e9}", "8080",
    ];
    for c in cases {
        assert_eq!(parse_i64(c), c.parse::<i64>().ok(), "case {c:?}");
    }
}

#[test]
fn decimal_reading_exact_values() {
    assert_eq!(parse_i64("42"), Some(42));
    assert_eq!(parse_i64("-42"), Some(-42));
    assert_eq!(parse_i64("+7"), Some(7));
    assert_eq!(parse_i64("-9223372036854775808"), Some(i64::MIN));
    assert_eq!(parse_i64("9223372036854775807"), Some(i64::MAX));
    assert_eq!(parse_i64("9223372036854775808"), None);
    assert_eq!(parse_i64("4x"), None);
}

#[test]
fn full_usage() {
    let parser = ArgumentParser::new()
        .add_arg(Argument::new("input", Text))
        .add_arg(Argument::new("output", Text))
        .add_arg(OptionalArgument::new("verbose", None, Boolean, ParsedValue::Boolean(false)))
        .add_arg(Argument::new("port", Integer))
        .add_arg(OptionalArgument::new("count", Some("c"), Integer, ParsedValue::Integer(1)));
    let parsed = parser
        .parse(line(&["program", "input.txt", "--verbose", "output.txt", "8080", "-c", "42"]))
        .unwrap();
    assert_eq!(parsed.get("input"), &ParsedValue::Text("input.txt".to_string()));
    assert_eq!(parsed.get_as::<String>("output"), String::from("output.txt"));
    assert_eq!(parsed.get_as::<i64>("port"), 8080);
    assert_eq!(parsed.get_as::<bool>("verbose"), true);
    assert_eq!(parsed.get_as::<i64>("count"), 42);
}

#[test]
fn program_name_is_ignored() {
    let p = || ArgumentParser::new().add_arg(Argument::new("n", Integer));
    let a = p().parse(line(&["one", "5"])).unwrap();
    let b = p().parse(line(&["--", "5"])).unwrap();
    assert_eq!(a.get_as::<i64>("n"), 5);
    assert_eq!(b.get_as::<i64>("n"), 5);
}

#[test]
fn default_parser_has_no_arguments() {
    let parsed = ArgumentParser::default().parse(line(&["prog"]));
    assert!(parsed.is_ok());
    let refused = ArgumentParser::default().parse(line(&["prog", "x"]));
    assert!(matches!(refused, Err(ParseError::TooManyArguments)));
}

#[test]
fn every_declared_name_has_a_value() {
    let parsed = ArgumentParser::new()
        .add_arg(Argument::new("a", Text))
        .add_arg(OptionalArgument::new("b", Some("x"), Integer, ParsedValue::Integer(3)))
        .add_arg(OptionalArgument::new("c", None, Text, ParsedValue::Text("d".to_string())))
        .parse(line(&["prog", "val"]))
        .unwrap();
    assert_eq!(parsed.get("a"), &ParsedValue::Text("val".to_string()));
    assert_eq!(parsed.get("b"), &ParsedValue::Integer(3));
    assert_eq!(parsed.get("c"), &ParsedValue::Text("d".to_string()));
}

#[test]
fn wrong_type_reports_name_and_given_text() {
    let r = ArgumentParser::new()
        .add_arg(OptionalArgument::new("num", Some("n"), Integer, ParsedValue::Integer(0)))
        .parse(line(&["prog", "-n", "12x"]));
    match r {
        Err(ParseError::WrongType { name, expected, given }) => {
            assert_eq!(name, "num");
            assert_eq!(expected, Integer);
            assert_eq!(given, "12x");
        }
        other => panic!("unexpected {other:?}"),
    }
    let r = ArgumentParser::new()
        .add_arg(Argument::new("port", Integer))
        .parse(line(&["prog", "eighty"]));
    match r {
        Err(ParseError::WrongType { name, given, .. }) => {
            assert_eq!(name, "port");
            assert_eq!(given, "eighty");
        }
        other => panic!("unexpected {other:?}"),
    }
}

#[test]
fn errors_carry_the_right_names() {
    let verbose = || OptionalArgument::new("verbose", Some("v"), Boolean, ParsedValue::Boolean(false));
    let port = || OptionalArgument::new("port", Some("p"), Integer, ParsedValue::Integer(1));
    match ArgumentParser::new().add_arg(port()).parse(line(&["prog", "-p"])) {
        Err(ParseError::MissingValue(n)) => assert_eq!(n, "port"),
        other => panic!("unexpected {other:?}"),
    }
    match ArgumentParser::new().add_arg(port()).parse(line(&["prog", "--size"])) {
        Err(ParseError::UnknownArgument(n)) => assert_eq!(n, "size"),
        other => panic!("unexpected {other:?}"),
    }
    match ArgumentParser::new().add_arg(port()).parse(line(&["prog", "-q"])) {
        Err(ParseError::UnknownArgument(n)) => assert_eq!(n, "q"),
        other => panic!("unexpected {other:?}"),
    }
    match ArgumentParser::new().add_arg(verbose()).parse(line(&["prog", "-v", "-v"])) {
        Err(ParseError::DuplicateArgument(n)) => assert_eq!(n, "verbose"),
        other => panic!("unexpected {other:?}"),
    }
    match ArgumentParser::new()
        .add_arg(Argument::new("first", Text))
        .add_arg(Argument::new("second", Text))
        .parse(line(&["prog", "one"]))
    {
        Err(ParseError::MissingRequired(n)) => assert_eq!(n, "second"),
        other => panic!("unexpected {other:?}"),
    }
}

#[test]
fn a_negative_number_is_read_as_an_option() {
    let r = ArgumentParser::new()
        .add_arg(Argument::new("n", Integer))
        .parse(line(&["prog", "-5"]));
    match r {
        Err(ParseError::UnknownArgument(n)) => assert_eq!(n, "5"),
        other => panic!("unexpected {other:?}"),
    }
    let ok = ArgumentParser::new()
        .add_arg(Argument::new("n", Integer))
        .parse(line(&["prog", "--", "-5"]))
        .unwrap();
    assert_eq!(ok.get_as::<i64>("n"), -5);
}

#[test]
fn an_option_value_may_begin_with_a_dash() {
    let parsed = ArgumentParser::new()
        .add_arg(OptionalArgument::new("name", Some("n"), Text, ParsedValue::Text(String::new())))
        .parse(line(&["prog", "--name", "-x"]))
        .unwrap();
    assert_eq!(parsed.get_as::<String>("name"), "-x");
}

#[test]
fn a_second_double_dash_is_positional() {
    let parsed = ArgumentParser::new()
        .add_arg(Argument::new("word", Text))
        .parse(line(&["prog", "--", "--"]))
        .unwrap();
    assert_eq!(parsed.get_as::<String>("word"), "--");
}

#[test]
fn a_repeated_long_name_keeps_the_earlier_default() {
    let parsed = ArgumentParser::new()
        .add_arg(OptionalArgument::new("x", None, Integer, ParsedValue::Integer(1)))
        .add_arg(OptionalArgument::new("x", None, Integer, ParsedValue::Integer(2)))
        .parse(line(&["prog", "--x", "5"]))
        .unwrap();
    assert_eq!(parsed.get_as::<i64>("x"), 1);
}

#[test]
fn messages_describe_each_refusal() {
    assert_eq!(
        ParseError::MissingRequired("in".to_string()).message(),
        "missing required argument: in"
    );
    assert_eq!(
        ParseError::MissingValue("port".to_string()).message(),
        "argument 'port' requires a value but none was given"
    );
    assert_eq!(
        ParseError::WrongType {
            name: "port".to_string(),
            expected: Integer,
            given: "abc".to_string()
        }
        .message(),
        "argument 'port' expects value of type Integer given: abc"
    );
    assert_eq!(
        ParseError::UnknownArgument("q".to_string()).message(),
        "unknown argument: q"
    );
    assert_eq!(
        ParseError::DuplicateArgument("v".to_string()).message(),
        "argument 'v' was given more than once"
    );
    assert_eq!(
        ParseError::TooManyArguments.message(),
        "too many positional arguments"
    );
}

#[test]
fn flags_in_either_form_set_true() {
    let p = || {
        ArgumentParser::new().add_arg(OptionalArgument::new(
            "quiet",
            Some("q"),
            Boolean,
            ParsedValue::Boolean(false),
        ))
    };
    assert_eq!(p().parse(line(&["prog", "-q"])).unwrap().get_as::<bool>("quiet"), true);
    assert_eq!(p().parse(line(&["prog", "--quiet"])).unwrap().get_as::<bool>("quiet"), true);
    assert_eq!(p().parse(line(&["prog"])).unwrap().get_as::<bool>("quiet"), false);
}

#[test]
fn default_and_new_parse_alike() {
    let a = ArgumentParser::default()
        .add_arg(Argument::new("file", Text))
        .add_arg(OptionalArgument::new("n", None, Integer, ParsedValue::Integer(0)))
        .parse(line(&["prog", "--n", "3", "f.txt"]))
        .unwrap();
    let b = ArgumentParser::new()
        .add_arg(Argument::new("file", Text))
        .add_arg(OptionalArgument::new("n", None, Integer, ParsedValue::Integer(0)))
        .parse(line(&["prog", "--n", "3", "f.txt"]))
        .unwrap();
    assert_eq!(a.get("file"), b.get("file"));
    assert_eq!(a.get("n"), b.get("n"));
    assert_eq!(a.get_as::<i64>("n"), 3);
}

#[test]
fn interleaved_words_fill_arguments_by_role() {
    let parsed = ArgumentParser::new()
        .add_arg(Argument::new("src", Text))
        .add_arg(OptionalArgument::new("level", Some("l"), Integer, ParsedValue::Integer(1)))
        .add_arg(Argument::new("dst", Text))
        .add_arg(OptionalArgument::new("force", Some("f"), Boolean, ParsedValue::Boolean(false)))
        .add_arg(OptionalArgument::new("tag", None, Text, ParsedValue::Text("none".to_string())))
        .parse(line(&["prog", "-l", "9", "a", "--", "-b"]))
        .unwrap();
    assert_eq!(parsed.get_as::<String>("src"), "a");
    assert_eq!(parsed.get_as::<i64>("level"), 9);
    assert_eq!(parsed.get_as::<String>("dst"), "-b");
    assert_eq!(parsed.get_as::<bool>("force"), false);
    assert_eq!(parsed.get_as::<String>("tag"), "none");
}

#[test]
fn contains_reports_stored_names() {
    let parsed = ArgumentParser::new()
        .add_arg(Argument::new("in", Text))
        .parse(line(&["prog", "x"]))
        .unwrap();
    assert!(parsed.contains("in"));
    assert!(!parsed.contains("out"));
}

#[test]
fn conversion_kinds() {
    assert_eq!(<i64 as FromParsedValue>::kind(), argtiny::Integer);
    assert_eq!(<String as FromParsedValue>::kind(), argtiny::Text);
    assert_eq!(<bool as FromParsedValue>::kind(), argtiny::Boolean);
}

#[test]
fn cloned_declarations_parse_alike() {
    let a = Argument::new("x", Integer);
    let o = OptionalArgument::new("y", Some("z"), Text, ParsedValue::Text("d".to_string()));
    let (a2, o2) = (a.clone(), o.clone());
    assert_eq!(a2.name(), a.name());
    assert_eq!(o2.short_form(), o.short_form());
    assert_eq!(o2.default_value(), o.default_value());
    let parsed = ArgumentParser::new().add_arg(a2).add_arg(o2).parse(line(&["prog", "4"])).unwrap();
    assert_eq!(parsed.get_as::<i64>("x"), 4);
    assert_eq!(parsed.get_as::<String>("y"), "d");
}
