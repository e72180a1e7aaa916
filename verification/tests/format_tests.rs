use celerity_runtime_workflow::errors::FunctionCallError;
use celerity_runtime_workflow::template_functions_v1;
use celerity_runtime_workflow::value::{Number, Value};

fn string(text: &str) -> Value {
    Value::String(text.to_string())
}

fn text_of(value: Value) -> String {
    match value {
        Value::String(text) => text,
        other => panic!("expected a string, found {:?}", other),
    }
}

#[test]
fn test_format_simple() {
    let args = vec![string("This is a simple {}!"), string("test")];
    let result = template_functions_v1::format(args).unwrap();
    assert_eq!(text_of(result), "This is a simple test!");
}

#[test]
fn test_format_multiple_placeholders() {
    let args = vec![
        string("{} {} {}"),
        string("This is a test"),
        string("with"),
        string("multiple placeholders!"),
    ];
    let result = template_functions_v1::format(args).unwrap();
    assert_eq!(text_of(result), "This is a test with multiple placeholders!");
}

#[test]
fn test_format_number() {
    let args = vec![string("This is a number: {}"), Value::Number(Number::PosInt(42))];
    let result = template_functions_v1::format(args).unwrap();
    assert_eq!(text_of(result), "This is a number: 42");
}

#[test]
fn test_format_boolean() {
    let args = vec![string("This is a boolean: {}"), Value::Bool(true)];
    let result = template_functions_v1::format(args).unwrap();
    assert_eq!(text_of(result), "This is a boolean: true");
}

#[test]
fn test_format_null() {
    let args = vec![string("This is {}"), Value::Null];
    let result = template_functions_v1::format(args).unwrap();
    assert_eq!(text_of(result), "This is null");
}

#[test]
fn test_fails_with_expected_error_for_invalid_argument() {
    let args = vec![Value::Number(Number::PosInt(42))];
    let result = template_functions_v1::format(args);
    assert!(result.is_err());
    let err = result.unwrap_err();
    assert!(matches!(err, FunctionCallError::InvalidArgument(_)));
    assert_eq!(
        err.to_string(),
        "function call error: invalid argument: format function requires the first argument to be a string"
    );
}

#[test]
fn test_fails_with_expected_error_for_incorrect_number_of_arguments() {
    let args = vec![];
    let result = template_functions_v1::format(args);
    assert!(result.is_err());
    let err = result.unwrap_err();
    assert!(matches!(
        err,
        FunctionCallError::IncorrectNumberOfArguments(_)
    ));
    assert_eq!(
        err.to_string(),
        "function call error: incorrect number of arguments: format function requires at least one argument"
    );
}

#[test]
fn test_fails_when_format_argument_is_an_array() {
    let args = vec![
        string("Format {}"),
        Value::Array(vec![string("This is an array")]),
    ];
    let result = template_functions_v1::format(args);
    assert!(result.is_err());
    let err = result.unwrap_err();
    assert!(matches!(err, FunctionCallError::InvalidArgument(_)));
    assert_eq!(
        err.to_string(),
        "function call error: invalid argument: format function does not support arrays or objects as arguments"
    );
}

#[test]
fn test_fails_when_format_argument_is_an_object() {
    let args = vec![
        string("Format {}"),
        Value::Object(vec![("key".to_string(), string("value"))]),
    ];
    let result = template_functions_v1::format(args);
    assert!(result.is_err());
    let err = result.unwrap_err();
    assert!(matches!(err, FunctionCallError::InvalidArgument(_)));
    assert_eq!(
        err.to_string(),
        "function call error: invalid argument: format function does not support arrays or objects as arguments"
    );
}

#[test]
fn test_fails_when_incorrect_number_of_arguments_follow_format_string() {
    let args = vec![string("Format {} {}")];
    let result = template_functions_v1::format(args);
    assert!(result.is_err());
    let err = result.unwrap_err();
    assert!(matches!(
        err,
        FunctionCallError::IncorrectNumberOfArguments(_)
    ));
    assert_eq!(
        err.to_string(),
        "function call error: incorrect number of arguments: format function requires \
            2 arguments after the format string, one for each \"{}\" placeholder"
    );
}

#[test]
fn format_renders_negative_and_large_integers() {
    let args = vec![
        string("{} {} {}"),
        Value::Number(Number::NegInt(-17)),
        Value::Number(Number::PosInt(u64::MAX)),
        Value::Number(Number::NegInt(i64::MIN)),
    ];
    let result = template_functions_v1::format(args).unwrap();
    assert_eq!(
        text_of(result),
        "-17 18446744073709551615 -9223372036854775808"
    );
}

#[test]
fn format_keeps_the_text_of_other_numbers() {
    let args = vec![string("pi is {}"), Value::Number(Number::Float("3.14".to_string()))];
    assert_eq!(text_of(template_functions_v1::format(args).unwrap()), "pi is 3.14");
}

#[test]
fn format_without_placeholders_returns_the_format_string() {
    let args = vec![string("no holes } { here")];
    assert_eq!(text_of(template_functions_v1::format(args).unwrap()), "no holes } { here");
}

#[test]
fn format_rejects_surplus_arguments() {
    let args = vec![string("one {}"), string("a"), string("b")];
    let err = template_functions_v1::format(args).unwrap_err();
    assert_eq!(
        err.to_string(),
        "function call error: incorrect number of arguments: format function requires \
            1 arguments after the format string, one for each \"{}\" placeholder"
    );
}

#[test]
fn format_substitutes_into_the_text_built_so_far() {
    // The second value lands in the leftmost placeholder of the text after the first
    // substitution, which is the one that the first value brought with it.
    let args = vec![string("{} {}"), string("{}"), string("x")];
    assert_eq!(text_of(template_functions_v1::format(args).unwrap()), "x {}");
}

#[test]
fn format_stops_at_the_first_container() {
    let args = vec![string("{} {}"), Value::Array(vec![]), Value::Object(vec![])];
    let err = template_functions_v1::format(args).unwrap_err();
    assert!(matches!(err, FunctionCallError::InvalidArgument(_)));
}

#[test]
fn format_handles_text_beyond_ascii() {
    let args = vec![string("héllo {} ✓"), string("wörld")];
    assert_eq!(text_of(template_functions_v1::format(args).unwrap()), "héllo wörld ✓");
}
