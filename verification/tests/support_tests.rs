use celerity_runtime_workflow::blueprint::{check_version, CELERITY_BLUEPRINT_V2023_04_20};
use celerity_runtime_workflow::errors::{
    describe_parse_error, describe_scan_error, FunctionCallError, ResolveError,
};
use celerity_runtime_workflow::payload_template::get_member;
use celerity_runtime_workflow::scanner::{scan_step, ScanError, ScanErrorKind, Step, Token};
use celerity_runtime_workflow::state_machine::{find_catch, is_truthy, matches_code, read_seconds, CatchRule};
use celerity_runtime_workflow::template_func_parser::{parse_expression, Expected, ParseError};
use celerity_runtime_workflow::template_functions_v1::{
    count_placeholders, find_placeholder, render_scalar, replace_placeholder,
};
use celerity_runtime_workflow::text::{chars_of, decimal_chars, same_text, string_of};
use celerity_runtime_workflow::value::{set_member, Number, Value};

fn string(text: &str) -> Value {
    Value::String(text.to_string())
}

fn show<T: std::fmt::Debug>(value: &T) -> String {
    format!("{:?}", value)
}

#[test]
fn version_check_accepts_the_one_version() {
    assert_eq!(CELERITY_BLUEPRINT_V2023_04_20, "2023-04-20");
    assert_eq!(check_version("2023-04-20").unwrap(), "2023-04-20");
}

#[test]
fn version_check_refuses_any_other_version() {
    let err = check_version("unsupported-2020-03-10").unwrap_err();
    assert_eq!(err.found, "unsupported-2020-03-10");
    assert_eq!(err.expected, "2023-04-20");
    assert_eq!(err.to_string(), "expected version 2023-04-20, found unsupported-2020-03-10");
    assert!(check_version("").is_err());
    assert!(check_version("2023-04-20 ").is_err());
}

#[test]
fn text_helpers_round_trip() {
    let chars = chars_of("héllo ✓");
    assert_eq!(chars, vec!['h', 'é', 'l', 'l', 'o', ' ', '✓']);
    assert_eq!(string_of(&chars), "héllo ✓");
    assert!(same_text("abc", "abc"));
    assert!(!same_text("abc", "abd"));
    assert!(!same_text("abc", "ab"));
    assert!(same_text("", ""));
}

#[test]
fn decimal_chars_writes_digits() {
    assert_eq!(string_of(&decimal_chars(0)), "0");
    assert_eq!(string_of(&decimal_chars(7)), "7");
    assert_eq!(string_of(&decimal_chars(1203)), "1203");
    assert_eq!(string_of(&decimal_chars(u64::MAX)), "18446744073709551615");
}

#[test]
fn placeholders_are_counted_and_found() {
    assert_eq!(count_placeholders(&chars_of("")), 0);
    assert_eq!(count_placeholders(&chars_of("{")), 0);
    assert_eq!(count_placeholders(&chars_of("{}")), 1);
    assert_eq!(count_placeholders(&chars_of("{{}}{}} {")), 2);
    assert_eq!(find_placeholder(&chars_of("ab{}c{}")), Some(2));
    assert_eq!(find_placeholder(&chars_of("}{ { }")), None);
    assert_eq!(string_of(&replace_placeholder(&chars_of("a{}b{}"), &chars_of("XY"))), "aXYb{}");
    assert_eq!(string_of(&replace_placeholder(&chars_of("none"), &chars_of("XY"))), "none");
    assert_eq!(string_of(&replace_placeholder(&chars_of("{}"), &chars_of(""))), "");
}

#[test]
fn scalars_are_rendered_and_containers_are_not() {
    assert_eq!(render_scalar(&Value::Null).unwrap(), "null");
    assert_eq!(render_scalar(&Value::Bool(false)).unwrap(), "false");
    assert_eq!(render_scalar(&Value::Number(Number::PosInt(0))).unwrap(), "0");
    assert_eq!(render_scalar(&Value::Number(Number::NegInt(-5))).unwrap(), "-5");
    assert_eq!(render_scalar(&Value::Number(Number::NegInt(5))).unwrap(), "5");
    assert_eq!(render_scalar(&Value::Number(Number::Float("1.5".to_string()))).unwrap(), "1.5");
    assert_eq!(render_scalar(&string("x")).unwrap(), "x");
    assert!(render_scalar(&Value::Array(vec![])).is_none());
    assert!(render_scalar(&Value::Object(vec![])).is_none());
}

#[test]
fn members_are_set_and_found() {
    let context = Value::Object(vec![
        ("a".to_string(), Value::Bool(true)),
        ("b".to_string(), Value::Null),
    ]);
    let copy = context.duplicate();
    assert_eq!(show(&copy), show(&context));
    let context = set_member(context, "b", string("new"));
    let context = set_member(context, "c", Value::Number(Number::PosInt(1)));
    assert_eq!(
        show(&context),
        show(&Value::Object(vec![
            ("a".to_string(), Value::Bool(true)),
            ("b".to_string(), string("new")),
            ("c".to_string(), Value::Number(Number::PosInt(1))),
        ]))
    );
    assert_eq!(show(get_member(&context, "b").unwrap()), show(&string("new")));
    assert!(get_member(&context, "d").is_none());
    assert!(get_member(&Value::Array(vec![]), "a").is_none());
    let fresh = set_member(Value::Null, "k", Value::Null);
    assert_eq!(show(&fresh), show(&Value::Object(vec![("k".to_string(), Value::Null)])));
}

#[test]
fn truth_of_values() {
    assert!(!is_truthy(&Value::Null));
    assert!(is_truthy(&Value::Bool(true)));
    assert!(!is_truthy(&Value::Bool(false)));
    assert!(!is_truthy(&Value::Number(Number::PosInt(0))));
    assert!(is_truthy(&Value::Number(Number::NegInt(-1))));
    assert!(!is_truthy(&Value::Number(Number::Float("-0.0".to_string()))));
    assert!(is_truthy(&Value::Number(Number::Float("0.25".to_string()))));
    assert!(!is_truthy(&string("")));
    assert!(is_truthy(&string("false")));
    assert!(!is_truthy(&Value::Array(vec![])));
    assert!(is_truthy(&Value::Array(vec![Value::Null])));
    assert!(!is_truthy(&Value::Object(vec![])));
}

#[test]
fn seconds_are_whole_numbers_from_zero() {
    assert_eq!(read_seconds(&Value::Number(Number::PosInt(90))), Some(90));
    assert_eq!(read_seconds(&Value::Number(Number::NegInt(3))), Some(3));
    assert_eq!(read_seconds(&Value::Number(Number::NegInt(-3))), None);
    assert_eq!(read_seconds(&Value::Number(Number::Float("1.5".to_string()))), None);
    assert_eq!(read_seconds(&string("90")), None);
}

#[test]
fn matchers_accept_their_code_and_the_wildcard() {
    let codes = vec!["A".to_string(), "B".to_string()];
    assert!(matches_code(&codes, "B"));
    assert!(!matches_code(&codes, "C"));
    assert!(!matches_code(&vec![], "A"));
    assert!(matches_code(&vec!["*".to_string()], "anything"));
    let rules = vec![
        CatchRule { matchers: vec!["A".to_string()], target: "first".to_string() },
        CatchRule { matchers: vec!["*".to_string()], target: "second".to_string() },
        CatchRule { matchers: vec!["A".to_string()], target: "third".to_string() },
    ];
    assert_eq!(find_catch(&rules, "A"), Some("first".to_string()));
    assert_eq!(find_catch(&rules, "Z"), Some("second".to_string()));
    assert_eq!(find_catch(&rules[..1].iter().map(|r| CatchRule { matchers: r.matchers.clone(), target: r.target.clone() }).collect(), "Z"), None);
}

#[test]
fn errors_are_described() {
    let scan = ScanError { kind: ScanErrorKind::UnexpectedCharacter, offset: 12, found: Some('+') };
    assert_eq!(describe_scan_error(&scan), "scan error: unexpected character at offset 12");
    let scan = ScanError { kind: ScanErrorKind::UnterminatedString, offset: 3, found: None };
    assert_eq!(describe_scan_error(&scan), "scan error: unterminated string at offset 3");
    let scan = ScanError { kind: ScanErrorKind::UnterminatedExpression, offset: 0, found: None };
    assert_eq!(describe_scan_error(&scan), "scan error: unterminated expression at offset 0");
    let parse = ParseError::UnexpectedToken {
        expected: Expected::End,
        found: Token::Comma,
        position: 4,
    };
    assert_eq!(describe_parse_error(&parse), "parse error: unexpected token at position 4");
    assert_eq!(
        describe_parse_error(&ParseError::UnexpectedEnd),
        "parse error: unexpected end of expression"
    );
    let resolve = ResolveError::Scan(scan);
    assert_eq!(resolve.code(), "Template.ScanError");
    assert_eq!(resolve.to_string(), "scan error: unterminated expression at offset 0");
    let resolve = ResolveError::Parse(parse);
    assert_eq!(resolve.code(), "Template.ParseError");
    let resolve = ResolveError::Function(FunctionCallError::InvalidArgument("x".to_string()));
    assert_eq!(resolve.code(), "Template.InvalidArgument");
    assert_eq!(resolve.to_string(), "function call error: invalid argument: x");
    let resolve =
        ResolveError::Function(FunctionCallError::IncorrectNumberOfArguments("y".to_string()));
    assert_eq!(resolve.code(), "Template.IncorrectNumberOfArguments");
}

#[test]
fn scanner_steps_from_any_place() {
    let chars = chars_of("${ab, 12}");
    match scan_step(&chars, 2) {
        Step::Read(token, next) => {
            assert_eq!(show(&token), show(&Token::Identifier("ab".to_string())));
            assert_eq!(next, 4);
        }
        _ => panic!("expected a token"),
    }
    assert!(matches!(scan_step(&chars, 5), Step::Skip));
    match scan_step(&chars, 6) {
        Step::Read(token, next) => {
            assert_eq!(show(&token), show(&Token::NumberLit(Number::PosInt(12))));
            assert_eq!(next, 8);
        }
        _ => panic!("expected a token"),
    }
    assert!(matches!(scan_step(&chars, 8), Step::Close));
    assert!(matches!(scan_step(&chars, 9), Step::Fail(_)));
    assert!(matches!(scan_step(&chars, 100), Step::Fail(_)));
}

#[test]
fn parser_starts_at_any_token() {
    let tokens = vec![
        Token::Comma,
        Token::Identifier("a".to_string()),
        Token::Dot,
        Token::Identifier("b".to_string()),
        Token::RParen,
    ];
    let (expr, next) = parse_expression(&tokens, 1).unwrap();
    assert_eq!(next, 4);
    assert_eq!(show(&expr), "ContextRef([\"a\", \"b\"])");
    assert!(matches!(parse_expression(&tokens, 5), Err(ParseError::UnexpectedEnd)));
    assert!(matches!(parse_expression(&tokens, 0), Err(ParseError::UnexpectedToken { .. })));
}

#[test]
fn equality_ignores_the_order_of_members() {
    let a = Value::Object(vec![
        ("x".to_string(), Value::Array(vec![Value::Number(Number::PosInt(1)), Value::Null])),
        ("y".to_string(), string("s")),
    ]);
    let b = Value::Object(vec![
        ("y".to_string(), string("s")),
        ("x".to_string(), Value::Array(vec![Value::Number(Number::NegInt(1)), Value::Null])),
    ]);
    assert!(a.equals(&b));
    assert!(b.equals(&a));
    assert!(a.equals(&a.duplicate()));
    let c = Value::Object(vec![
        ("y".to_string(), string("s")),
        ("x".to_string(), Value::Array(vec![Value::Null, Value::Number(Number::PosInt(1))])),
    ]);
    assert!(!a.equals(&c));
    let d = Value::Object(vec![("y".to_string(), string("s"))]);
    assert!(!a.equals(&d));
    assert!(!Value::Null.equals(&Value::Bool(false)));
    assert!(!Value::Number(Number::PosInt(1)).equals(&Value::Number(Number::Float("1.0".to_string()))));
    assert!(Value::Number(Number::Float("1.5".to_string()))
        .equals(&Value::Number(Number::Float("1.5".to_string()))));
    assert!(Number::PosInt(7).equals(&Number::NegInt(7)));
    assert!(!Number::PosInt(7).equals(&Number::NegInt(-7)));
}

#[test]
fn well_formed_values_name_each_member_once() {
    let proper = Value::Array(vec![Value::Object(vec![
        ("a".to_string(), Value::Null),
        ("b".to_string(), Value::Object(vec![("a".to_string(), Value::Null)])),
    ])]);
    assert!(proper.is_well_formed());
    let twice = Value::Array(vec![Value::Object(vec![
        ("a".to_string(), Value::Null),
        ("b".to_string(), Value::Null),
        ("a".to_string(), Value::Bool(true)),
    ])]);
    assert!(!twice.is_well_formed());
    let nested = Value::Object(vec![("k".to_string(), twice)]);
    assert!(!nested.is_well_formed());
    assert!(string("x").is_well_formed());
}
