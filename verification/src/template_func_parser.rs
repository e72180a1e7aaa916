use crate::scanner::token_views;
use crate::text::chars_of;
use crate::scanner::SpecToken;
use crate::scanner::Token;
use crate::value::SpecValue;
use crate::value::Value;
use vstd::prelude::*;

verus! {

/// An expression as a mathematical value.
pub enum SpecExpression {
    Literal(SpecValue),
    ContextRef(Seq<Seq<char>>),
    Call(Seq<char>, Seq<SpecExpression>),
}

/// The expression of one `${...}` span.
#[derive(Debug)]
pub enum Expression {
    /// A value written out in the template.
    Literal(Value),
    /// A dotted path into the runtime context, by its segments.
    ContextRef(Vec<String>),
    /// A call of a template function, by its name and its arguments in order.
    Call(String, Vec<Expression>),
}

/// The views of a sequence of strings, in order.
pub open spec fn string_views(items: Seq<String>) -> Seq<Seq<char>> {
    Seq::new(items.len(), |i: int| items[i]@)
}

impl View for Expression {
    type V = SpecExpression;

    open spec fn view(&self) -> SpecExpression
        decreases self,
    {
        match self {
            Expression::Literal(v) => SpecExpression::Literal(v@),
            Expression::ContextRef(path) => SpecExpression::ContextRef(string_views(path@)),
            Expression::Call(name, args) => SpecExpression::Call(
                name@,
                Seq::new(
                    args.len() as nat,
                    |i: int|
                        if 0 <= i < args.len() {
                            args[i].view()
                        } else {
                            SpecExpression::Literal(SpecValue::Null)
                        },
                ),
            ),
        }
    }
}

/// The views of a sequence of expressions, in order.
pub open spec fn expression_views(items: Seq<Expression>) -> Seq<SpecExpression> {
    Seq::new(items.len(), |i: int| items[i]@)
}

/// The view of a call holds the views of its arguments.
pub proof fn lemma_call_view(name: String, args: Vec<Expression>)
    ensures
        Expression::Call(name, args)@ == SpecExpression::Call(name@, expression_views(args@)),
{
    assert(Expression::Call(name, args)@->Call_1 =~= expression_views(args@));
}

/// What the parser was looking for when it met a token that does not fit.
#[derive(Clone, Copy, Debug, PartialEq, Eq, Structural)]
pub enum Expected {
    /// The start of an expression: an identifier or a literal.
    Expression,
    /// An identifier after a dot.
    Identifier,
    /// A comma or the closing parenthesis of an argument list.
    CommaOrRParen,
    /// The end of the span.
    End,
}

/// A failed parse as a mathematical value.
pub enum SpecParseError {
    UnexpectedToken { expected: Expected, found: SpecToken, position: int },
    UnexpectedEnd,
}

/// Why the tokens of a span are no expression.
#[derive(Debug)]
pub enum ParseError {
    /// The token at `position` does not fit.
    UnexpectedToken { expected: Expected, found: Token, position: usize },
    /// The tokens end in the middle of an expression.
    UnexpectedEnd,
}

impl View for ParseError {
    type V = SpecParseError;

    open spec fn view(&self) -> SpecParseError {
        match self {
            ParseError::UnexpectedToken { expected, found, position } =>
                SpecParseError::UnexpectedToken {
                    expected: *expected,
                    found: found@,
                    position: *position as int,
                },
            ParseError::UnexpectedEnd => SpecParseError::UnexpectedEnd,
        }
    }
}

/// The name that stands for the null literal where it is neither called nor followed by a dot.
pub open spec fn null_word() -> Seq<char> {
    seq!['n', 'u', 'l', 'l']
}

/// The segments of a context path whose first segments are `path` and whose next dot, if there
/// is one, stands at `pos`; with the index after the path.
pub open spec fn parse_path(tokens: Seq<SpecToken>, pos: int, path: Seq<Seq<char>>) -> Result<
    (Seq<Seq<char>>, int),
    SpecParseError,
>
    decreases tokens.len() - pos,
{
    if 0 <= pos < tokens.len() && tokens[pos] is Dot {
        if pos + 1 >= tokens.len() {
            Err(SpecParseError::UnexpectedEnd)
        } else if let SpecToken::Identifier(name) = tokens[pos + 1] {
            parse_path(tokens, pos + 2, path.push(name))
        } else {
            Err(
                SpecParseError::UnexpectedToken {
                    expected: Expected::Identifier,
                    found: tokens[pos + 1],
                    position: pos + 1,
                },
            )
        }
    } else {
        Ok((path, pos))
    }
}

/// The expression that starts at `pos`, with the index after it.
pub open spec fn parse_expr(tokens: Seq<SpecToken>, pos: int) -> Result<
    (SpecExpression, int),
    SpecParseError,
>
    decreases tokens.len() - pos, 0nat,
{
    if pos < 0 || pos >= tokens.len() {
        Err(SpecParseError::UnexpectedEnd)
    } else {
        match tokens[pos] {
            SpecToken::StringLit(s) => Ok((SpecExpression::Literal(SpecValue::String(s)), pos + 1)),
            SpecToken::NumberLit(n) => Ok((SpecExpression::Literal(SpecValue::Number(n)), pos + 1)),
            SpecToken::BoolLit(b) => Ok((SpecExpression::Literal(SpecValue::Bool(b)), pos + 1)),
            SpecToken::Identifier(name) => {
                if pos + 1 < tokens.len() && tokens[pos + 1] is LParen {
                    if pos + 2 < tokens.len() && tokens[pos + 2] is RParen {
                        Ok((SpecExpression::Call(name, Seq::empty()), pos + 3))
                    } else {
                        match parse_args(tokens, pos + 2, Seq::empty()) {
                            Ok((args, next)) => Ok((SpecExpression::Call(name, args), next)),
                            Err(e) => Err(e),
                        }
                    }
                } else if name =~= null_word() && !(pos + 1 < tokens.len() && tokens[pos
                    + 1] is Dot) {
                    Ok((SpecExpression::Literal(SpecValue::Null), pos + 1))
                } else {
                    match parse_path(tokens, pos + 1, seq![name]) {
                        Ok((path, next)) => Ok((SpecExpression::ContextRef(path), next)),
                        Err(e) => Err(e),
                    }
                }
            },
            other => Err(
                SpecParseError::UnexpectedToken {
                    expected: Expected::Expression,
                    found: other,
                    position: pos,
                },
            ),
        }
    }
}

/// The arguments of a call of which `done` are read and the next starts at `pos`, with the
/// index after the closing parenthesis.
pub open spec fn parse_args(tokens: Seq<SpecToken>, pos: int, done: Seq<SpecExpression>) -> Result<
    (Seq<SpecExpression>, int),
    SpecParseError,
>
    decreases tokens.len() - pos, 1nat,
{
    match parse_expr(tokens, pos) {
        Err(e) => Err(e),
        Ok((arg, next)) => {
            if next <= pos || next >= tokens.len() {
                // An expression ends after its start: only the end of the tokens leads here.
                Err(SpecParseError::UnexpectedEnd)
            } else if tokens[next] is Comma {
                parse_args(tokens, next + 1, done.push(arg))
            } else if tokens[next] is RParen {
                Ok((done.push(arg), next + 1))
            } else {
                Err(
                    SpecParseError::UnexpectedToken {
                        expected: Expected::CommaOrRParen,
                        found: tokens[next],
                        position: next,
                    },
                )
            }
        },
    }
}

/// The expression that the tokens of one span spell, which must use all of them.
pub open spec fn parse_spec(tokens: Seq<SpecToken>) -> Result<SpecExpression, SpecParseError> {
    match parse_expr(tokens, 0) {
        Err(e) => Err(e),
        Ok((expr, next)) => {
            if next >= tokens.len() {
                Ok(expr)
            } else {
                Err(
                    SpecParseError::UnexpectedToken {
                        expected: Expected::End,
                        found: tokens[next],
                        position: next,
                    },
                )
            }
        },
    }
}

/// A path that is parsed ends at or after the place where it was taken up, within the tokens.
pub proof fn lemma_parse_path_advances(tokens: Seq<SpecToken>, pos: int, path: Seq<Seq<char>>)
    requires
        0 <= pos <= tokens.len(),
    ensures
        parse_path(tokens, pos, path) matches Ok((_, next)) ==> pos <= next <= tokens.len(),
    decreases tokens.len() - pos,
{
    if pos < tokens.len() && tokens[pos] is Dot && pos + 1 < tokens.len() {
        if let SpecToken::Identifier(name) = tokens[pos + 1] {
            lemma_parse_path_advances(tokens, pos + 2, path.push(name));
        }
    }
}

/// An expression that is parsed uses at least one token and ends within the tokens.
pub proof fn lemma_parse_expr_advances(tokens: Seq<SpecToken>, pos: int)
    requires
        0 <= pos,
    ensures
        parse_expr(tokens, pos) matches Ok((_, next)) ==> pos < next <= tokens.len(),
    decreases tokens.len() - pos, 0nat,
{
    if pos < tokens.len() {
        if let SpecToken::Identifier(name) = tokens[pos] {
            if pos + 1 < tokens.len() && tokens[pos + 1] is LParen {
                if !(pos + 2 < tokens.len() && tokens[pos + 2] is RParen) {
                    lemma_parse_args_advances(tokens, pos + 2, Seq::empty());
                }
            } else {
                lemma_parse_path_advances(tokens, pos + 1, seq![name]);
            }
        }
    }
}

/// An argument list that is parsed ends after its start and within the tokens.
pub proof fn lemma_parse_args_advances(
    tokens: Seq<SpecToken>,
    pos: int,
    done: Seq<SpecExpression>,
)
    requires
        0 <= pos,
    ensures
        parse_args(tokens, pos, done) matches Ok((_, next)) ==> pos < next <= tokens.len(),
    decreases tokens.len() - pos, 1nat,
{
    lemma_parse_expr_advances(tokens, pos);
    if let Ok((arg, next)) = parse_expr(tokens, pos) {
        if next < tokens.len() && tokens[next] is Comma {
            lemma_parse_args_advances(tokens, next + 1, done.push(arg));
        }
    }
}

/// The outcome of parsing one expression as a mathematical value.
pub open spec fn step_view(res: Result<(Expression, usize), ParseError>) -> Result<
    (SpecExpression, int),
    SpecParseError,
> {
    match res {
        Ok((expr, next)) => Ok((expr@, next as int)),
        Err(e) => Err(e@),
    }
}

/// The outcome of a parse as a mathematical value.
pub open spec fn parse_view(res: Result<Expression, ParseError>) -> Result<
    SpecExpression,
    SpecParseError,
> {
    match res {
        Ok(expr) => Ok(expr@),
        Err(e) => Err(e@),
    }
}

fn is_null_word(name: &str) -> (b: bool)
    ensures
        b == (name@ =~= null_word()),
{
    let chars = chars_of(name);
    chars.len() == 4 && chars[0] == 'n' && chars[1] == 'u' && chars[2] == 'l' && chars[3] == 'l'
}

/// Reads the rest of a context path whose first segments are `path`, from `pos` on.
fn parse_path_from(tokens: &Vec<Token>, pos: usize, start: Vec<String>) -> (res: Result<
    (Vec<String>, usize),
    ParseError,
>)
    requires
        pos <= tokens.len(),
    ensures
        match res {
            Ok((segments, next)) => parse_path(token_views(tokens@), pos as int, string_views(start@))
                == Ok::<_, SpecParseError>((string_views(segments@), next as int)) && pos <= next
                <= tokens.len(),
            Err(e) => parse_path(token_views(tokens@), pos as int, string_views(start@)) == Err::<
                (Seq<Seq<char>>, int),
                _,
            >(e@),
        },
{
    let ghost all = token_views(tokens@);
    let ghost first = string_views(start@);
    let mut path = start;
    let mut at: usize = pos;
    while at < tokens.len() && matches!(tokens[at], Token::Dot)
        invariant
            all == token_views(tokens@),
            first == string_views(start@),
            pos <= at <= tokens.len(),
            parse_path(all, pos as int, first) == parse_path(all, at as int, string_views(path@)),
        decreases tokens.len() - at,
    {
        if at + 1 >= tokens.len() {
            return Err(ParseError::UnexpectedEnd);
        }
        match &tokens[at + 1] {
            Token::Identifier(name) => {
                let ghost before = string_views(path@);
                path.push(name.clone());
                assert(string_views(path@) =~= before.push(name@));
                at = at + 2;
            },
            other => {
                return Err(
                    ParseError::UnexpectedToken {
                        expected: Expected::Identifier,
                        found: other.duplicate(),
                        position: at + 1,
                    },
                );
            },
        }
    }
    Ok((path, at))
}

/// Parses the expression that starts at index `pos` of `tokens`.
pub fn parse_expression(tokens: &Vec<Token>, pos: usize) -> (res: Result<
    (Expression, usize),
    ParseError,
>)
    ensures
        step_view(res) == parse_expr(token_views(tokens@), pos as int),
        res matches Ok((_, next)) ==> pos < next <= tokens.len(),
    decreases tokens.len() - pos,
{
    let ghost all = token_views(tokens@);
    proof {
        lemma_parse_expr_advances(all, pos as int);
    }
    if pos >= tokens.len() {
        return Err(ParseError::UnexpectedEnd);
    }
    match &tokens[pos] {
        Token::StringLit(s) => Ok((Expression::Literal(Value::String(s.clone())), pos + 1)),
        Token::NumberLit(n) => Ok((Expression::Literal(Value::Number(n.duplicate())), pos + 1)),
        Token::BoolLit(b) => Ok((Expression::Literal(Value::Bool(*b)), pos + 1)),
        Token::Identifier(name) => {
            if pos + 1 < tokens.len() && matches!(tokens[pos + 1], Token::LParen) {
                if pos + 2 < tokens.len() && matches!(tokens[pos + 2], Token::RParen) {
                    let call = Expression::Call(name.clone(), Vec::new());
                    assert(call@->Call_1 =~= Seq::<SpecExpression>::empty());
                    return Ok((call, pos + 3));
                }
                let mut args: Vec<Expression> = Vec::new();
                let mut at: usize = pos + 2;
                assert(expression_views(args@) =~= Seq::<SpecExpression>::empty());
                loop
                    invariant
                        all == token_views(tokens@),
                        pos + 2 <= at <= tokens.len(),
                        parse_args(all, pos + 2, Seq::empty()) == parse_args(
                            all,
                            at as int,
                            expression_views(args@),
                        ),
                        parse_expr(all, pos as int) == (match parse_args(all, pos + 2, Seq::empty()) {
                            Ok((found, next)) => Ok::<_, SpecParseError>(
                                (SpecExpression::Call(name@, found), next),
                            ),
                            Err(e) => Err(e),
                        }),
                    decreases tokens.len() - at,
                {
                    let ghost before = expression_views(args@);
                    match parse_expression(tokens, at) {
                        Err(e) => {
                            return Err(e);
                        },
                        Ok((arg, next)) => {
                            if next >= tokens.len() {
                                return Err(ParseError::UnexpectedEnd);
                            }
                            let ghost read = arg@;
                            match &tokens[next] {
                                Token::Comma => {
                                    args.push(arg);
                                    assert(expression_views(args@) =~= before.push(read));
                                    at = next + 1;
                                },
                                Token::RParen => {
                                    args.push(arg);
                                    assert(expression_views(args@) =~= before.push(read));
                                    let call = Expression::Call(name.clone(), args);
                                    assert(call@->Call_1 =~= before.push(read));
                                    return Ok((call, next + 1));
                                },
                                other => {
                                    return Err(
                                        ParseError::UnexpectedToken {
                                            expected: Expected::CommaOrRParen,
                                            found: other.duplicate(),
                                            position: next,
                                        },
                                    );
                                },
                            }
                        },
                    }
                }
            } else if is_null_word(name.as_str()) && !(pos + 1 < tokens.len() && matches!(
                tokens[pos + 1],
                Token::Dot
            )) {
                Ok((Expression::Literal(Value::Null), pos + 1))
            } else {
                let mut path: Vec<String> = Vec::new();
                path.push(name.clone());
                assert(string_views(path@) =~= seq![name@]);
                match parse_path_from(tokens, pos + 1, path) {
                    Ok((segments, next)) => Ok((Expression::ContextRef(segments), next)),
                    Err(e) => Err(e),
                }
            }
        },
        other => Err(
            ParseError::UnexpectedToken {
                expected: Expected::Expression,
                found: other.duplicate(),
                position: pos,
            },
        ),
    }
}

/// Parses the tokens of one `${...}` span, which must spell exactly one expression.
pub fn parse(tokens: &Vec<Token>) -> (res: Result<Expression, ParseError>)
    ensures
        parse_view(res) == parse_spec(token_views(tokens@)),
{
    match parse_expression(tokens, 0) {
        Err(e) => Err(e),
        Ok((expr, next)) => {
            if next >= tokens.len() {
                Ok(expr)
            } else {
                Err(
                    ParseError::UnexpectedToken {
                        expected: Expected::End,
                        found: tokens[next].duplicate(),
                        position: next,
                    },
                )
            }
        },
    }
}

} // verus!
