use crate::errors::FunctionCallError;
use crate::errors::ResolveError;
use crate::errors::SpecResolveError;
use crate::errors::SpecFunctionCallError;
use crate::function_registry::invoke;
use crate::function_registry::invoke_spec;
use crate::function_registry::Version;
use crate::scanner::scan;
use crate::scanner::scan_spec;
use crate::scanner::token_views;
use crate::scanner::SpecToken;
use crate::scanner::Token;
use crate::template_func_parser::expression_views;
use crate::template_func_parser::parse;
use crate::template_func_parser::parse_spec;
use crate::template_func_parser::lemma_call_view;
use crate::template_func_parser::string_views;
use crate::template_func_parser::Expression;
use crate::template_func_parser::SpecExpression;
use crate::template_functions_v1::call_view;
use crate::template_functions_v1::render_scalar;
use crate::template_functions_v1::scalar_text;
use crate::text::collect;
use crate::text::lemma_collect;
use crate::text::lemma_collect_fails;
use crate::text::same_text;
use crate::value::lemma_array_view;
use crate::value::lemma_object_view;
use crate::value::member_views;
use crate::value::views;
use crate::value::SpecValue;
use crate::value::Value;
use vstd::prelude::*;
use vstd::string::StringExecFns;

verus! {

/// The value of the first member named `key` among the members from index `i` on.
pub open spec fn member_from(members: Seq<(Seq<char>, SpecValue)>, key: Seq<char>, i: int)
    -> Option<SpecValue>
    decreases members.len() - i,
{
    if i < 0 || i >= members.len() {
        None
    } else if members[i].0 == key {
        Some(members[i].1)
    } else {
        member_from(members, key, i + 1)
    }
}

/// The value that an object holds under `key`; none for a value that is no object or has no
/// such member.
pub open spec fn member(v: SpecValue, key: Seq<char>) -> Option<SpecValue> {
    match v {
        SpecValue::Object(members) => member_from(members, key, 0),
        _ => None,
    }
}

/// The diagnostic for a context path that leads nowhere at `segment`.
pub open spec fn unresolved_message(segment: Seq<char>) -> Seq<char> {
    "context reference cannot be resolved at segment: "@ + segment
}

/// The value reached from `v` by the segments of `path` from index `i` on.
pub open spec fn lookup_from(v: SpecValue, path: Seq<Seq<char>>, i: int) -> Result<
    SpecValue,
    SpecFunctionCallError,
>
    decreases path.len() - i,
{
    if i < 0 || i >= path.len() {
        Ok(v)
    } else {
        match member(v, path[i]) {
            Some(inner) => lookup_from(inner, path, i + 1),
            None => Err(SpecFunctionCallError::InvalidArgument(unresolved_message(path[i]))),
        }
    }
}

/// The value that a dotted path names in a context: each segment picks a member of the
/// object reached so far. It fails at the first segment that is absent, or that meets a value
/// that is no object.
pub open spec fn lookup_spec(context: SpecValue, path: Seq<Seq<char>>) -> Result<
    SpecValue,
    SpecFunctionCallError,
> {
    lookup_from(context, path, 0)
}

/// The value of an expression in a context: a literal is itself, a context reference is
/// looked up, and a call evaluates its arguments from left to right and then invokes the
/// function; the first failure ends the evaluation.
pub open spec fn eval_spec(version: Version, expr: SpecExpression, context: SpecValue) -> Result<
    SpecValue,
    SpecFunctionCallError,
>
    decreases expr, 0nat,
{
    match expr {
        SpecExpression::Literal(v) => Ok(v),
        SpecExpression::ContextRef(path) => lookup_spec(context, path),
        SpecExpression::Call(name, args) => {
            match collect(eval_each(version, args, context)) {
                Ok(values) => invoke_spec(version, name, values),
                Err(e) => Err(e),
            }
        },
    }
}

/// The outcome of evaluating each of `args` in a context, in order.
pub open spec fn eval_each(version: Version, args: Seq<SpecExpression>, context: SpecValue) -> Seq<
    Result<SpecValue, SpecFunctionCallError>,
>
    decreases args, 1nat,
{
    Seq::new(
        args.len(),
        |i: int|
            if 0 <= i < args.len() {
                eval_spec(version, args[i], context)
            } else {
                Ok(SpecValue::Null)
            },
    )
}

/// The member named `key` of an object.
pub fn get_member<'a>(v: &'a Value, key: &str) -> (out: Option<&'a Value>)
    ensures
        match out {
            Some(inner) => member(v@, key@) == Some(inner@),
            None => member(v@, key@) is None,
        },
{
    match v {
        Value::Object(members) => {
            let mut i: usize = 0;
            proof {
                lemma_object_view(*members);
            }
            while i < members.len()
                invariant
                    v@ == SpecValue::Object(member_views(members@)),
                    i <= members.len(),
                    member(v@, key@) == member_from(member_views(members@), key@, i as int),
                decreases members.len() - i,
            {
                if same_text(members[i].0.as_str(), key) {
                    return Some(&members[i].1);
                }
                i = i + 1;
            }
            None
        },
        _ => None,
    }
}

/// Walks a dotted path through a context.
pub fn lookup<'a>(context: &'a Value, path: &Vec<String>) -> (res: Result<
    &'a Value,
    FunctionCallError,
>)
    ensures
        match res {
            Ok(v) => lookup_spec(context@, string_views(path@)) == Ok::<_, SpecFunctionCallError>(
                v@,
            ),
            Err(e) => lookup_spec(context@, string_views(path@)) == Err::<SpecValue, _>(e@),
        },
{
    let ghost segments = string_views(path@);
    let mut current: &Value = context;
    let mut i: usize = 0;
    while i < path.len()
        invariant
            segments == string_views(path@),
            i <= path.len(),
            lookup_spec(context@, segments) == lookup_from(current@, segments, i as int),
        decreases path.len() - i,
    {
        match get_member(current, path[i].as_str()) {
            Some(inner) => {
                current = inner;
            },
            None => {
                return Err(
                    FunctionCallError::InvalidArgument(
                        String::from_str(
                            "context reference cannot be resolved at segment: ",
                        ).concat(path[i].as_str()),
                    ),
                );
            },
        }
        i = i + 1;
    }
    Ok(current)
}

/// Evaluates an expression against a context, with the template functions of `version`.
pub fn evaluate(version: Version, expr: &Expression, context: &Value) -> (res: Result<
    Value,
    FunctionCallError,
>)
    ensures
        call_view(res) == eval_spec(version, expr@, context@),
    decreases expr,
{
    match expr {
        Expression::Literal(v) => Ok(v.duplicate()),
        Expression::ContextRef(path) => match lookup(context, path) {
            Ok(v) => Ok(v.duplicate()),
            Err(e) => Err(e),
        },
        Expression::Call(name, args) => {
            let ghost outcomes = eval_each(version, expression_views(args@), context@);
            proof {
                lemma_call_view(*name, *args);
            }
            let mut values: Vec<Value> = Vec::new();
            let mut i: usize = 0;
            assert(outcomes.take(0) =~= Seq::empty());
            assert(views(values@) =~= Seq::empty());
            while i < args.len()
                invariant
                    expr matches Expression::Call(n, a) && a == args,
                    i <= args.len(),
                    outcomes.len() == args.len(),
                    outcomes == eval_each(version, expression_views(args@), context@),
                    forall|k: int|
                        0 <= k < args.len() ==> outcomes[k] == eval_spec(
                            version,
                            args[k]@,
                            context@,
                        ),
                    collect(outcomes.take(i as int)) == Ok::<_, SpecFunctionCallError>(
                        views(values@),
                    ),
                    eval_spec(version, expr@, context@) == (match collect(outcomes) {
                        Ok(all) => invoke_spec(version, name@, all),
                        Err(e) => Err(e),
                    }),
                decreases args.len() - i,
            {
                let ghost before = views(values@);
                assert(outcomes.take(i + 1).drop_last() =~= outcomes.take(i as int));
                match evaluate(version, &args[i], context) {
                    Ok(v) => {
                        values.push(v);
                        assert(views(values@) =~= before.push(outcomes[i as int]->Ok_0));
                    },
                    Err(e) => {
                        proof {
                            lemma_collect_fails(outcomes, i as int);
                        }
                        return Err(e);
                    },
                }
                i = i + 1;
            }
            assert(outcomes.take(i as int) =~= outcomes);
            invoke(version, name.as_str(), values)
        },
    }
}

/// The text of a literal token; nothing for any other token.
pub open spec fn literal_text(token: SpecToken) -> Seq<char> {
    match token {
        SpecToken::Literal(text) => text,
        _ => Seq::empty(),
    }
}

/// The index of the first literal token from `i` on; the number of tokens if there is none.
pub open spec fn next_literal(tokens: Seq<SpecToken>, i: int) -> int
    decreases tokens.len() - i,
{
    if i < 0 || i >= tokens.len() {
        i
    } else if tokens[i] is Literal {
        i
    } else {
        next_literal(tokens, i + 1)
    }
}

/// The next literal stands at or after the start, within the tokens or at their end.
pub proof fn lemma_next_literal(tokens: Seq<SpecToken>, i: int)
    requires
        0 <= i <= tokens.len(),
    ensures
        i <= next_literal(tokens, i) <= tokens.len(),
        forall|k: int| i <= k < next_literal(tokens, i) ==> !(tokens[k] is Literal),
        next_literal(tokens, i) < tokens.len() ==> tokens[next_literal(tokens, i)] is Literal,
    decreases tokens.len() - i,
{
    if i < tokens.len() && !(tokens[i] is Literal) {
        lemma_next_literal(tokens, i + 1);
    }
}

/// The value of the span whose tokens stand from `from` up to `to`.
pub open spec fn span_value(
    version: Version,
    tokens: Seq<SpecToken>,
    from: int,
    to: int,
    context: SpecValue,
) -> Result<SpecValue, SpecResolveError> {
    match parse_spec(tokens.subrange(from, to)) {
        Err(e) => Err(SpecResolveError::Parse(e)),
        Ok(expr) => match eval_spec(version, expr, context) {
            Ok(v) => Ok(v),
            Err(e) => Err(SpecResolveError::Function(e)),
        },
    }
}

/// The diagnostic for a span inside a longer string whose value is a container.
pub open spec fn unrenderable_message() -> Seq<char> {
    "an expression inside a string must not yield an array or an object"@
}

/// The text spelled by the tokens from the literal at index `i` on: each literal as it
/// stands, each span by the text of its value. Spans are evaluated from left to right, and the
/// first failure ends the resolution.
pub open spec fn splice_from(version: Version, tokens: Seq<SpecToken>, i: int, context: SpecValue)
    -> Result<Seq<char>, SpecResolveError>
    decreases tokens.len() - i,
    when 0 <= i
    via splice_from_decreases
{
    if i >= tokens.len() {
        Ok(Seq::empty())
    } else if i + 1 >= tokens.len() {
        Ok(literal_text(tokens[i]))
    } else {
        let end = next_literal(tokens, i + 1);
        match span_value(version, tokens, i + 1, end, context) {
            Err(e) => Err(e),
            Ok(v) => match scalar_text(v) {
                None => Err(
                    SpecResolveError::Function(
                        SpecFunctionCallError::InvalidArgument(unrenderable_message()),
                    ),
                ),
                Some(text) => match splice_from(version, tokens, end, context) {
                    Ok(rest) => Ok(literal_text(tokens[i]) + text + rest),
                    Err(e) => Err(e),
                },
            },
        }
    }
}

#[via_fn]
proof fn splice_from_decreases(version: Version, tokens: Seq<SpecToken>, i: int, context: SpecValue) {
    if i + 1 < tokens.len() {
        lemma_next_literal(tokens, i + 1);
    }
}

/// Whether the tokens are those of a string that is one span and nothing else: an empty
/// literal, the tokens of the span, an empty literal.
pub open spec fn is_single_span(tokens: Seq<SpecToken>) -> bool {
    &&& tokens.len() >= 2
    &&& tokens[0] == SpecToken::Literal(Seq::empty())
    &&& tokens[tokens.len() - 1] == SpecToken::Literal(Seq::empty())
    &&& next_literal(tokens, 1) == tokens.len() - 1
}

/// The value of a string with the given tokens: that of its span where the string is one
/// span and nothing else, and otherwise the string spliced from its literals and spans.
pub open spec fn resolve_tokens(version: Version, tokens: Seq<SpecToken>, context: SpecValue)
    -> Result<SpecValue, SpecResolveError> {
    if is_single_span(tokens) {
        span_value(version, tokens, 1, tokens.len() - 1, context)
    } else {
        match splice_from(version, tokens, 0, context) {
            Ok(text) => Ok(SpecValue::String(text)),
            Err(e) => Err(e),
        }
    }
}

/// The value of a template string in a context.
pub open spec fn resolve_string_spec(version: Version, template: Seq<char>, context: SpecValue)
    -> Result<SpecValue, SpecResolveError> {
    match scan_spec(template) {
        Err(e) => Err(SpecResolveError::Scan(e)),
        Ok(tokens) => resolve_tokens(version, tokens, context),
    }
}

/// The value of a template in a context: a string is resolved as a template string, an array
/// and an object are rebuilt with each child resolved, in order, and any other value is
/// itself. The first failure ends the resolution.
pub open spec fn resolve_spec(version: Version, template: SpecValue, context: SpecValue) -> Result<
    SpecValue,
    SpecResolveError,
>
    decreases template, 0nat,
{
    match template {
        SpecValue::String(s) => resolve_string_spec(version, s, context),
        SpecValue::Array(items) => match collect(resolve_each(version, items, context)) {
            Ok(values) => Ok(SpecValue::Array(values)),
            Err(e) => Err(e),
        },
        SpecValue::Object(members) => match collect(resolve_members(version, members, context)) {
            Ok(resolved) => Ok(SpecValue::Object(resolved)),
            Err(e) => Err(e),
        },
        other => Ok(other),
    }
}

/// The outcome of resolving each of `items`, in order.
pub open spec fn resolve_each(version: Version, items: Seq<SpecValue>, context: SpecValue) -> Seq<
    Result<SpecValue, SpecResolveError>,
>
    decreases items, 1nat,
{
    Seq::new(
        items.len(),
        |i: int|
            if 0 <= i < items.len() {
                resolve_spec(version, items[i], context)
            } else {
                Ok(SpecValue::Null)
            },
    )
}

/// The outcome of resolving one member: its name with its resolved value.
pub open spec fn resolve_member(version: Version, m: (Seq<char>, SpecValue), context: SpecValue)
    -> Result<(Seq<char>, SpecValue), SpecResolveError>
    decreases m, 1nat,
{
    match resolve_spec(version, m.1, context) {
        Ok(v) => Ok((m.0, v)),
        Err(e) => Err(e),
    }
}

/// The outcome of resolving each of `members`, in order.
pub open spec fn resolve_members(
    version: Version,
    members: Seq<(Seq<char>, SpecValue)>,
    context: SpecValue,
) -> Seq<Result<(Seq<char>, SpecValue), SpecResolveError>>
    decreases members, 2nat,
{
    Seq::new(
        members.len(),
        |i: int|
            if 0 <= i < members.len() {
                resolve_member(version, members[i], context)
            } else {
                Ok((Seq::empty(), SpecValue::Null))
            },
    )
}

/// The outcome of a resolution as a mathematical value.
pub open spec fn resolve_view(res: Result<Value, ResolveError>) -> Result<
    SpecValue,
    SpecResolveError,
> {
    match res {
        Ok(v) => Ok(v@),
        Err(e) => Err(e@),
    }
}

/// `text` before what `rest` holds; the error of `rest` if it is one.
pub open spec fn prefixed(text: Seq<char>, rest: Result<Seq<char>, SpecResolveError>) -> Result<
    Seq<char>,
    SpecResolveError,
> {
    match rest {
        Ok(more) => Ok(text + more),
        Err(e) => Err(e),
    }
}

fn find_literal(tokens: &Vec<Token>, i: usize) -> (at: usize)
    requires
        i <= tokens.len(),
    ensures
        at == next_literal(token_views(tokens@), i as int),
        i <= at <= tokens.len(),
{
    let mut k: usize = i;
    while k < tokens.len() && !matches!(tokens[k], Token::Literal(_))
        invariant
            i <= k <= tokens.len(),
            next_literal(token_views(tokens@), i as int) == next_literal(
                token_views(tokens@),
                k as int,
            ),
        decreases tokens.len() - k,
    {
        k = k + 1;
    }
    k
}

fn span_tokens(tokens: &Vec<Token>, from: usize, to: usize) -> (out: Vec<Token>)
    requires
        from <= to <= tokens.len(),
    ensures
        token_views(out@) == token_views(tokens@).subrange(from as int, to as int),
{
    let mut out: Vec<Token> = Vec::new();
    let mut k: usize = from;
    while k < to
        invariant
            from <= k <= to <= tokens.len(),
            out.len() == k - from,
            forall|j: int| 0 <= j < out.len() ==> out[j]@ == tokens[from + j]@,
        decreases to - k,
    {
        out.push(tokens[k].duplicate());
        k = k + 1;
    }
    assert(token_views(out@) =~= token_views(tokens@).subrange(from as int, to as int));
    out
}

/// Parses and evaluates the span whose tokens stand from `from` up to `to`.
fn evaluate_span(version: Version, tokens: &Vec<Token>, from: usize, to: usize, context: &Value)
    -> (res: Result<Value, ResolveError>)
    requires
        from <= to <= tokens.len(),
    ensures
        resolve_view(res) == span_value(
            version,
            token_views(tokens@),
            from as int,
            to as int,
            context@,
        ),
{
    let span = span_tokens(tokens, from, to);
    match parse(&span) {
        Err(e) => Err(ResolveError::Parse(e)),
        Ok(expr) => match evaluate(version, &expr, context) {
            Ok(v) => Ok(v),
            Err(e) => Err(ResolveError::Function(e)),
        },
    }
}

fn is_empty_literal(token: &Token) -> (b: bool)
    ensures
        b == (token@ == SpecToken::Literal(Seq::empty())),
{
    match token {
        Token::Literal(text) => {
            let empty = text.as_str().is_empty();
            assert(empty ==> text@ =~= Seq::empty());
            empty
        },
        _ => false,
    }
}

/// Resolves a template string against a context.
///
/// A string that is one `${...}` span and nothing else yields the value of its expression,
/// of whatever type. Any other string yields a string: its text, with each span replaced by
/// the text of its value, which must then be a scalar.
pub fn resolve_string(version: Version, template: &str, context: &Value) -> (res: Result<
    Value,
    ResolveError,
>)
    ensures
        resolve_view(res) == resolve_string_spec(version, template@, context@),
{
    let tokens = match scan(template) {
        Ok(tokens) => tokens,
        Err(e) => {
            return Err(ResolveError::Scan(e));
        },
    };
    let ghost all = token_views(tokens@);
    let n = tokens.len();
    if n >= 2 && is_empty_literal(&tokens[0]) && is_empty_literal(&tokens[n - 1]) && find_literal(
        &tokens,
        1,
    ) == n - 1 {
        return evaluate_span(version, &tokens, 1, n - 1, context);
    }
    let mut out = String::new();
    let mut i: usize = 0;
    proof {
        if let Ok(text) = splice_from(version, all, 0, context@) {
            assert(out@ + text =~= text);
        }
    }
    while i < n
        invariant
            all == token_views(tokens@),
            n == tokens.len(),
            i <= n,
            resolve_string_spec(version, template@, context@) == (match splice_from(
                version,
                all,
                0,
                context@,
            ) {
                Ok(text) => Ok::<_, SpecResolveError>(SpecValue::String(text)),
                Err(e) => Err(e),
            }),
            splice_from(version, all, 0, context@) == prefixed(
                out@,
                splice_from(version, all, i as int, context@),
            ),
        decreases n - i,
    {
        let ghost before = out@;
        let ghost literal = literal_text(all[i as int]);
        match &tokens[i] {
            Token::Literal(text) => {
                out.append(text.as_str());
            },
            _ => {},
        }
        assert(out@ =~= before + literal);
        if i + 1 >= n {
            return Ok(Value::String(out));
        }
        let end = find_literal(&tokens, i + 1);
        match evaluate_span(version, &tokens, i + 1, end, context) {
            Err(e) => {
                return Err(e);
            },
            Ok(v) => match render_scalar(&v) {
                None => {
                    return Err(
                        ResolveError::Function(
                            FunctionCallError::InvalidArgument(
                                String::from_str(
                                    "an expression inside a string must not yield an array or an object",
                                ),
                            ),
                        ),
                    );
                },
                Some(text) => {
                    out.append(text.as_str());
                    proof {
                        if let Ok(rest) = splice_from(version, all, end as int, context@) {
                            assert((before + literal + text@) + rest =~= before + (literal + text@
                                + rest));
                        }
                    }
                    i = end;
                },
            },
        }
    }
    proof {
        assert(out@ + Seq::<char>::empty() =~= out@);
    }
    Ok(Value::String(out))
}

/// Resolves a template against a context, with the template functions of `version`.
///
/// Every string of the template is resolved as a template string; arrays and objects are
/// rebuilt around their resolved children, and the other scalars are copied. The children
/// are taken in order, and the first failure is the failure of the whole.
pub fn resolve(version: Version, template: &Value, context: &Value) -> (res: Result<
    Value,
    ResolveError,
>)
    ensures
        resolve_view(res) == resolve_spec(version, template@, context@),
    decreases template,
{
    match template {
        Value::String(s) => resolve_string(version, s.as_str(), context),
        Value::Array(items) => {
            let ghost outcomes = resolve_each(version, views(items@), context@);
            proof {
                lemma_array_view(*items);
            }
            let mut values: Vec<Value> = Vec::new();
            let mut i: usize = 0;
            assert(outcomes.take(0) =~= Seq::empty());
            assert(views(values@) =~= Seq::empty());
            while i < items.len()
                invariant
                    template == Value::Array(*items),
                    template@ == SpecValue::Array(views(items@)),
                    i <= items.len(),
                    outcomes == resolve_each(version, views(items@), context@),
                    collect(outcomes.take(i as int)) == Ok::<_, SpecResolveError>(views(values@)),
                decreases items.len() - i,
            {
                let ghost before = views(values@);
                assert(outcomes.take(i + 1).drop_last() =~= outcomes.take(i as int));
                match resolve(version, &items[i], context) {
                    Ok(v) => {
                        values.push(v);
                        assert(views(values@) =~= before.push(outcomes[i as int]->Ok_0));
                    },
                    Err(e) => {
                        proof {
                            lemma_collect_fails(outcomes, i as int);
                        }
                        return Err(e);
                    },
                }
                i = i + 1;
            }
            proof {
                assert(outcomes.take(i as int) =~= outcomes);
                lemma_array_view(values);
            }
            Ok(Value::Array(values))
        },
        Value::Object(members) => {
            let ghost outcomes = resolve_members(version, member_views(members@), context@);
            proof {
                lemma_object_view(*members);
            }
            let mut resolved: Vec<(String, Value)> = Vec::new();
            let mut i: usize = 0;
            assert(outcomes.take(0) =~= Seq::empty());
            assert(member_views(resolved@) =~= Seq::empty());
            while i < members.len()
                invariant
                    template == Value::Object(*members),
                    template@ == SpecValue::Object(member_views(members@)),
                    i <= members.len(),
                    outcomes == resolve_members(version, member_views(members@), context@),
                    collect(outcomes.take(i as int)) == Ok::<_, SpecResolveError>(
                        member_views(resolved@),
                    ),
                decreases members.len() - i,
            {
                let ghost before = member_views(resolved@);
                assert(outcomes.take(i + 1).drop_last() =~= outcomes.take(i as int));
                assert(outcomes[i as int] == resolve_member(
                    version,
                    member_views(members@)[i as int],
                    context@,
                ));
                match resolve(version, &members[i].1, context) {
                    Ok(v) => {
                        resolved.push((members[i].0.clone(), v));
                        assert(member_views(resolved@) =~= before.push(outcomes[i as int]->Ok_0));
                    },
                    Err(e) => {
                        proof {
                            lemma_collect_fails(outcomes, i as int);
                        }
                        return Err(e);
                    },
                }
                i = i + 1;
            }
            proof {
                assert(outcomes.take(i as int) =~= outcomes);
                lemma_object_view(resolved);
            }
            Ok(Value::Object(resolved))
        },
        other => Ok(other.duplicate()),
    }
}

/// Resolving is repeatable: two resolutions of one template against one context, with the
/// functions of one version, agree in their value or in their failure.
pub proof fn lemma_resolve_is_repeatable(
    version: Version,
    template: Value,
    context: Value,
    first: Result<Value, ResolveError>,
    second: Result<Value, ResolveError>,
)
    requires
        resolve_view(first) == resolve_spec(version, template@, context@),
        resolve_view(second) == resolve_spec(version, template@, context@),
    ensures
        resolve_view(first) == resolve_view(second),
        first is Ok <==> second is Ok,
        first matches Ok(a) ==> second matches Ok(b) && a@ == b@,
{
}

/// Evaluating is repeatable: two evaluations of one expression against one context agree in
/// their value or in their failure.
pub proof fn lemma_evaluate_is_repeatable(
    version: Version,
    expr: Expression,
    context: Value,
    first: Result<Value, FunctionCallError>,
    second: Result<Value, FunctionCallError>,
)
    requires
        call_view(first) == eval_spec(version, expr@, context@),
        call_view(second) == eval_spec(version, expr@, context@),
    ensures
        call_view(first) == call_view(second),
        first matches Ok(a) ==> second matches Ok(b) && a@ == b@,
{
}

/// Whether a context holds a value at every segment of a path, from the segment at index `i`
/// on.
pub open spec fn path_present(v: SpecValue, path: Seq<Seq<char>>, i: int) -> bool
    decreases path.len() - i,
{
    if i < 0 || i >= path.len() {
        true
    } else {
        match member(v, path[i]) {
            Some(inner) => path_present(inner, path, i + 1),
            None => false,
        }
    }
}

/// A context reference evaluates to a value exactly where the context holds a value at every
/// segment of its path.
pub proof fn lemma_reference_resolves(version: Version, path: Seq<Seq<char>>, context: SpecValue)
    ensures
        eval_spec(version, SpecExpression::ContextRef(path), context) is Ok <==> path_present(
            context,
            path,
            0,
        ),
{
    lemma_lookup_present(context, path, 0);
}

proof fn lemma_lookup_present(v: SpecValue, path: Seq<Seq<char>>, i: int)
    ensures
        lookup_from(v, path, i) is Ok <==> path_present(v, path, i),
    decreases path.len() - i,
{
    if 0 <= i < path.len() {
        if let Some(inner) = member(v, path[i]) {
            lemma_lookup_present(inner, path, i + 1);
        }
    }
}

/// An array that resolves yields an array of the same length, whose items are the resolved
/// items of the template, each at its place.
pub proof fn lemma_resolve_array(version: Version, items: Seq<SpecValue>, context: SpecValue)
    ensures
        match resolve_spec(version, SpecValue::Array(items), context) {
            Ok(resolved) => resolved matches SpecValue::Array(values) && values.len()
                == items.len() && forall|i: int|
                0 <= i < items.len() ==> resolve_spec(version, items[i], context) == Ok::<
                    SpecValue,
                    SpecResolveError,
                >(#[trigger] values[i]),
            Err(e) => exists|i: int|
                0 <= i < items.len() && #[trigger] resolve_spec(version, items[i], context) == Err::<
                    SpecValue,
                    SpecResolveError,
                >(e),
        },
{
    let outcomes = resolve_each(version, items, context);
    lemma_collect(outcomes);
    match collect(outcomes) {
        Ok(values) => {
            assert forall|i: int| 0 <= i < items.len() implies resolve_spec(
                version,
                items[i],
                context,
            ) == Ok::<SpecValue, SpecResolveError>(#[trigger] values[i]) by {
                assert(outcomes[i] == resolve_spec(version, items[i], context));
            }
        },
        Err(e) => {
            let i = choose|i: int|
                0 <= i < outcomes.len() && outcomes[i] == Err::<SpecValue, SpecResolveError>(e)
                    && forall|j: int| 0 <= j < i ==> (#[trigger] outcomes[j]) is Ok;
            assert(outcomes[i] == resolve_spec(version, items[i], context));
        },
    }
}

/// An object that resolves yields an object with the same names in the same order, whose
/// values are the resolved values of the template, each under its name.
pub proof fn lemma_resolve_object(
    version: Version,
    members: Seq<(Seq<char>, SpecValue)>,
    context: SpecValue,
)
    ensures
        resolve_spec(version, SpecValue::Object(members), context) matches Ok(resolved)
            ==> resolved matches SpecValue::Object(out) && out.len() == members.len()
            && forall|i: int|
            0 <= i < members.len() ==> (#[trigger] out[i]).0 == members[i].0 && resolve_spec(
                version,
                members[i].1,
                context,
            ) == Ok::<SpecValue, SpecResolveError>(out[i].1),
{
    let outcomes = resolve_members(version, members, context);
    lemma_collect(outcomes);
    if let Ok(out) = collect(outcomes) {
        assert forall|i: int| 0 <= i < members.len() implies (#[trigger] out[i]).0
            == members[i].0 && resolve_spec(version, members[i].1, context) == Ok::<
            SpecValue,
            SpecResolveError,
        >(out[i].1) by {
            assert(outcomes[i] == resolve_member(version, members[i], context));
        }
    }
}

} // verus!
