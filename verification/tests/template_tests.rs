use celerity_runtime_workflow::errors::{FunctionCallError, ResolveError};
use celerity_runtime_workflow::function_registry::{invoke, Version};
use celerity_runtime_workflow::payload_template::{evaluate, lookup, resolve, resolve_string};
use celerity_runtime_workflow::scanner::{scan, ScanError, ScanErrorKind, Token};
use celerity_runtime_workflow::template_func_parser::{parse, Expected, Expression, ParseError};
use celerity_runtime_workflow::value::{Number, Value};

fn string(text: &str) -> Value {
    Value::String(text.to_string())
}

fn object(members: Vec<(&str, Value)>) -> Value {
    Value::Object(
        members
            .into_iter()
            .map(|(name, value)| (name.to_string(), value))
            .collect(),
    )
}

fn show<T: std::fmt::Debug>(value: &T) -> String {
    format!("{:?}", value)
}

fn context() -> Value {
    object(vec![
        (
            "input",
            object(vec![
                ("name", string("Ada")),
                ("age", Value::Number(Number::PosInt(36))),
                ("tags", Value::Array(vec![string("a"), string("b")])),
                ("active", Value::Bool(true)),
            ]),
        ),
        ("result", Value::Null),
    ])
}

fn span_tokens(template: &str) -> Vec<Token> {
    let mut tokens = scan(template).unwrap();
    assert!(tokens.len() >= 2);
    tokens.remove(0);
    tokens.pop();
    tokens
}

#[test]
fn scan_of_plain_text_is_one_literal() {
    let tokens = scan("no expressions here").unwrap();
    assert_eq!(show(&tokens), show(&vec![Token::Literal("no expressions here".to_string())]));
}

#[test]
fn scan_of_empty_text_is_one_empty_literal() {
    let tokens = scan("").unwrap();
    assert_eq!(show(&tokens), show(&vec![Token::Literal(String::new())]));
}

#[test]
fn scan_delimits_spans_with_literals() {
    let tokens = scan("a ${x}${y.z} b").unwrap();
    let expected = vec![
        Token::Literal("a ".to_string()),
        Token::Identifier("x".to_string()),
        Token::Literal(String::new()),
        Token::Identifier("y".to_string()),
        Token::Dot,
        Token::Identifier("z".to_string()),
        Token::Literal(" b".to_string()),
    ];
    assert_eq!(show(&tokens), show(&expected));
}

#[test]
fn scan_reads_every_kind_of_token() {
    let tokens = scan("${format(\"a } b\", -12, 3.50, true, false, null, _x1 . y)}").unwrap();
    let expected = vec![
        Token::Literal(String::new()),
        Token::Identifier("format".to_string()),
        Token::LParen,
        Token::StringLit("a } b".to_string()),
        Token::Comma,
        Token::NumberLit(Number::NegInt(-12)),
        Token::Comma,
        Token::NumberLit(Number::Float("3.50".to_string())),
        Token::Comma,
        Token::BoolLit(true),
        Token::Comma,
        Token::BoolLit(false),
        Token::Comma,
        Token::Identifier("null".to_string()),
        Token::Comma,
        Token::Identifier("_x1".to_string()),
        Token::Dot,
        Token::Identifier("y".to_string()),
        Token::RParen,
        Token::Literal(String::new()),
    ];
    assert_eq!(show(&tokens), show(&expected));
}

#[test]
fn scan_keeps_a_dollar_without_brace_as_text() {
    let tokens = scan("cost: $5 {}").unwrap();
    assert_eq!(show(&tokens), show(&vec![Token::Literal("cost: $5 {}".to_string())]));
}

#[test]
fn scan_reads_integers_at_the_limits() {
    let tokens = span_tokens("${f(18446744073709551615, 18446744073709551616, -9223372036854775808, -9223372036854775809, 007)}");
    let numbers: Vec<String> = tokens
        .iter()
        .filter_map(|t| match t {
            Token::NumberLit(n) => Some(show(n)),
            _ => None,
        })
        .collect();
    assert_eq!(
        numbers,
        vec![
            show(&Number::PosInt(u64::MAX)),
            show(&Number::Float("18446744073709551616".to_string())),
            show(&Number::NegInt(i64::MIN)),
            show(&Number::Float("-9223372036854775809".to_string())),
            show(&Number::PosInt(7)),
        ]
    );
}

#[test]
fn scan_fails_on_unterminated_expression() {
    let err = scan("abc ${x").unwrap_err();
    assert_eq!(
        err,
        ScanError { kind: ScanErrorKind::UnterminatedExpression, offset: 7, found: None }
    );
}

#[test]
fn scan_fails_on_unterminated_string() {
    let err = scan("${f(\"abc)}").unwrap_err();
    assert_eq!(
        err,
        ScanError { kind: ScanErrorKind::UnterminatedString, offset: 10, found: None }
    );
}

#[test]
fn scan_fails_on_unexpected_character() {
    let err = scan("é${a + b}").unwrap_err();
    assert_eq!(
        err,
        ScanError { kind: ScanErrorKind::UnexpectedCharacter, offset: 5, found: Some('+') }
    );
    let err = scan("${-x}").unwrap_err();
    assert_eq!(
        err,
        ScanError { kind: ScanErrorKind::UnexpectedCharacter, offset: 2, found: Some('-') }
    );
}

#[test]
fn parse_reads_a_context_reference() {
    let expr = parse(&span_tokens("${input.user.name}")).unwrap();
    let expected = Expression::ContextRef(vec![
        "input".to_string(),
        "user".to_string(),
        "name".to_string(),
    ]);
    assert_eq!(show(&expr), show(&expected));
}

#[test]
fn parse_reads_nested_calls() {
    let expr = parse(&span_tokens("${format(\"{} {}\", upper(input.name), 3, null, g())}")).unwrap();
    let expected = Expression::Call(
        "format".to_string(),
        vec![
            Expression::Literal(string("{} {}")),
            Expression::Call(
                "upper".to_string(),
                vec![Expression::ContextRef(vec!["input".to_string(), "name".to_string()])],
            ),
            Expression::Literal(Value::Number(Number::PosInt(3))),
            Expression::Literal(Value::Null),
            Expression::Call("g".to_string(), vec![]),
        ],
    );
    assert_eq!(show(&expr), show(&expected));
}

#[test]
fn parse_reads_null_as_a_path_segment_before_a_dot() {
    let expr = parse(&span_tokens("${null.x}")).unwrap();
    let expected = Expression::ContextRef(vec!["null".to_string(), "x".to_string()]);
    assert_eq!(show(&expr), show(&expected));
}

#[test]
fn parse_fails_on_empty_span() {
    assert!(matches!(parse(&span_tokens("${}")), Err(ParseError::UnexpectedEnd)));
    assert!(matches!(parse(&span_tokens("${f(1,}")), Err(ParseError::UnexpectedEnd)));
    assert!(matches!(parse(&span_tokens("${a.}")), Err(ParseError::UnexpectedEnd)));
}

#[test]
fn parse_reports_the_token_that_does_not_fit() {
    match parse(&span_tokens("${a b}")) {
        Err(ParseError::UnexpectedToken { expected, found, position }) => {
            assert_eq!(expected, Expected::End);
            assert_eq!(show(&found), show(&Token::Identifier("b".to_string())));
            assert_eq!(position, 1);
        }
        other => panic!("unexpected outcome: {:?}", other),
    }
    match parse(&span_tokens("${f(1 2)}")) {
        Err(ParseError::UnexpectedToken { expected, found, position }) => {
            assert_eq!(expected, Expected::CommaOrRParen);
            assert_eq!(show(&found), show(&Token::NumberLit(Number::PosInt(2))));
            assert_eq!(position, 3);
        }
        other => panic!("unexpected outcome: {:?}", other),
    }
    match parse(&span_tokens("${a.1}")) {
        Err(ParseError::UnexpectedToken { expected, position, .. }) => {
            assert_eq!(expected, Expected::Identifier);
            assert_eq!(position, 2);
        }
        other => panic!("unexpected outcome: {:?}", other),
    }
    match parse(&span_tokens("${,}")) {
        Err(ParseError::UnexpectedToken { expected, position, .. }) => {
            assert_eq!(expected, Expected::Expression);
            assert_eq!(position, 0);
        }
        other => panic!("unexpected outcome: {:?}", other),
    }
}

#[test]
fn invoke_knows_format_and_nothing_else() {
    let out = invoke(Version::V1, "format", vec![string("{}!"), string("hi")]).unwrap();
    assert_eq!(show(&out), show(&string("hi!")));
    let err = invoke(Version::V1, "upper", vec![string("hi")]).unwrap_err();
    assert!(matches!(err, FunctionCallError::InvalidArgument(_)));
    assert_eq!(
        err.to_string(),
        "function call error: invalid argument: unknown function: upper"
    );
}

#[test]
fn lookup_walks_a_path() {
    let ctx = context();
    let path = vec!["input".to_string(), "age".to_string()];
    assert_eq!(show(lookup(&ctx, &path).unwrap()), show(&Value::Number(Number::PosInt(36))));
    assert_eq!(show(lookup(&ctx, &vec![]).unwrap()), show(&ctx));
}

#[test]
fn lookup_fails_on_absent_segment_and_on_scalar() {
    let ctx = context();
    let err = lookup(&ctx, &vec!["input".to_string(), "missing".to_string()]).unwrap_err();
    assert_eq!(
        err.to_string(),
        "function call error: invalid argument: context reference cannot be resolved at segment: missing"
    );
    let err = lookup(
        &ctx,
        &vec!["input".to_string(), "name".to_string(), "first".to_string()],
    )
    .unwrap_err();
    assert!(matches!(err, FunctionCallError::InvalidArgument(_)));
    let err = lookup(&ctx, &vec!["input".to_string(), "tags".to_string(), "x".to_string()])
        .unwrap_err();
    assert!(matches!(err, FunctionCallError::InvalidArgument(_)));
}

#[test]
fn evaluate_is_repeatable() {
    let ctx = context();
    let expr = parse(&span_tokens("${format(\"{} is {}\", input.name, input.age)}")).unwrap();
    let first = evaluate(Version::V1, &expr, &ctx).unwrap();
    let second = evaluate(Version::V1, &expr, &ctx).unwrap();
    assert_eq!(show(&first), show(&string("Ada is 36")));
    assert_eq!(show(&first), show(&second));
}

#[test]
fn evaluate_stops_at_the_first_failing_argument() {
    let ctx = context();
    let expr = parse(&span_tokens("${format(\"{} {}\", input.nope, other.nope)}")).unwrap();
    let err = evaluate(Version::V1, &expr, &ctx).unwrap_err();
    assert_eq!(
        err.to_string(),
        "function call error: invalid argument: context reference cannot be resolved at segment: nope"
    );
    let expr = parse(&span_tokens("${format(\"{} {}\", other.nope, input.nope)}")).unwrap();
    let err = evaluate(Version::V1, &expr, &ctx).unwrap_err();
    assert_eq!(
        err.to_string(),
        "function call error: invalid argument: context reference cannot be resolved at segment: other"
    );
}

#[test]
fn resolve_string_keeps_the_type_of_a_lone_expression() {
    let ctx = context();
    let out = resolve_string(Version::V1, "${input.age}", &ctx).unwrap();
    assert_eq!(show(&out), show(&Value::Number(Number::PosInt(36))));
    let out = resolve_string(Version::V1, "${input.tags}", &ctx).unwrap();
    assert_eq!(show(&out), show(&Value::Array(vec![string("a"), string("b")])));
    let out = resolve_string(Version::V1, "${ null }", &ctx).unwrap();
    assert_eq!(show(&out), show(&Value::Null));
}

#[test]
fn resolve_string_splices_text_and_expressions() {
    let ctx = context();
    let out = resolve_string(
        Version::V1,
        "${input.name} is ${input.age}, active: ${input.active}/${result}${-3}.",
        &ctx,
    )
    .unwrap();
    assert_eq!(show(&out), show(&string("Ada is 36, active: true/null-3.")));
    let out = resolve_string(Version::V1, " ${input.age}", &ctx).unwrap();
    assert_eq!(show(&out), show(&string(" 36")));
    let out = resolve_string(Version::V1, "${input.age}${input.age}", &ctx).unwrap();
    assert_eq!(show(&out), show(&string("3636")));
    let out = resolve_string(Version::V1, "plain", &ctx).unwrap();
    assert_eq!(show(&out), show(&string("plain")));
}

#[test]
fn resolve_string_rejects_a_container_inside_text() {
    let ctx = context();
    let err = resolve_string(Version::V1, "tags: ${input.tags}", &ctx).unwrap_err();
    match err {
        ResolveError::Function(e) => assert_eq!(
            e.to_string(),
            "function call error: invalid argument: an expression inside a string must not yield an array or an object"
        ),
        other => panic!("unexpected error: {:?}", other),
    }
}

#[test]
fn resolve_string_reports_the_stage_that_failed() {
    let ctx = context();
    assert!(matches!(
        resolve_string(Version::V1, "${input.name", &ctx),
        Err(ResolveError::Scan(_))
    ));
    assert!(matches!(
        resolve_string(Version::V1, "x ${input.}", &ctx),
        Err(ResolveError::Parse(ParseError::UnexpectedEnd))
    ));
    assert!(matches!(
        resolve_string(Version::V1, "${format()}", &ctx),
        Err(ResolveError::Function(FunctionCallError::IncorrectNumberOfArguments(_)))
    ));
    // The leftmost failing span decides.
    assert!(matches!(
        resolve_string(Version::V1, "${format()} ${input.}", &ctx),
        Err(ResolveError::Function(_))
    ));
    assert!(matches!(
        resolve_string(Version::V1, "${input.} ${format()}", &ctx),
        Err(ResolveError::Parse(_))
    ));
}

#[test]
fn resolve_rebuilds_containers() {
    let ctx = context();
    let template = object(vec![
        ("greeting", string("Hello ${input.name}!")),
        ("age", string("${input.age}")),
        (
            "list",
            Value::Array(vec![
                string("${format(\"{}-{}\", input.name, 1)}"),
                Value::Number(Number::NegInt(-1)),
                Value::Bool(false),
                Value::Null,
            ]),
        ),
    ]);
    let expected = object(vec![
        ("greeting", string("Hello Ada!")),
        ("age", Value::Number(Number::PosInt(36))),
        (
            "list",
            Value::Array(vec![
                string("Ada-1"),
                Value::Number(Number::NegInt(-1)),
                Value::Bool(false),
                Value::Null,
            ]),
        ),
    ]);
    let out = resolve(Version::V1, &template, &ctx).unwrap();
    assert_eq!(show(&out), show(&expected));
    let again = resolve(Version::V1, &template, &ctx).unwrap();
    assert_eq!(show(&out), show(&again));
}

#[test]
fn resolve_fails_with_the_first_failing_child() {
    let ctx = context();
    let template = Value::Array(vec![
        string("fine"),
        string("${input.}"),
        string("${unterminated"),
    ]);
    assert!(matches!(
        resolve(Version::V1, &template, &ctx),
        Err(ResolveError::Parse(_))
    ));
}
