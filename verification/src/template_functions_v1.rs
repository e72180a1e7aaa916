use crate::errors::FunctionCallError;
use crate::errors::SpecFunctionCallError;
use crate::text::chars_of;
use crate::text::decimal_chars;
use crate::text::decimal_text;
use crate::text::signed_text;
use crate::text::string_of;
use crate::text::unsigned_text;
use crate::value::views;
use crate::value::Number;
use crate::value::SpecNumber;
use crate::value::SpecValue;
use crate::value::Value;
use vstd::prelude::*;
use vstd::string::StringExecFns;

verus! {

/// Whether the two-character placeholder `{}` starts at index `i` of `s`.
pub open spec fn is_placeholder_at(s: Seq<char>, i: int) -> bool {
    0 <= i && i + 1 < s.len() && s[i] == '{' && s[i + 1] == '}'
}

/// The number of placeholders of `s` that start at index `i` or later.
pub open spec fn placeholders_from(s: Seq<char>, i: int) -> nat
    decreases s.len() - i,
{
    if i < 0 || i + 1 >= s.len() {
        0
    } else if is_placeholder_at(s, i) {
        1 + placeholders_from(s, i + 1)
    } else {
        placeholders_from(s, i + 1)
    }
}

/// The number of placeholders in `s`.
pub open spec fn placeholder_count(s: Seq<char>) -> nat {
    placeholders_from(s, 0)
}

/// The index of the first placeholder of `s` that starts at index `i` or later.
pub open spec fn first_placeholder_from(s: Seq<char>, i: int) -> Option<int>
    decreases s.len() - i,
{
    if i < 0 || i + 1 >= s.len() {
        None
    } else if is_placeholder_at(s, i) {
        Some(i)
    } else {
        first_placeholder_from(s, i + 1)
    }
}

/// The index of the leftmost placeholder of `s`, if it has one.
pub open spec fn first_placeholder(s: Seq<char>) -> Option<int> {
    first_placeholder_from(s, 0)
}

/// The leftmost placeholder is a placeholder, and no placeholder starts before it; where there
/// is none, no index of `s` starts a placeholder.
pub proof fn lemma_first_placeholder(s: Seq<char>)
    ensures
        match first_placeholder(s) {
            Some(i) => is_placeholder_at(s, i) && forall|j: int|
                0 <= j < i ==> !is_placeholder_at(s, j),
            None => forall|j: int| !is_placeholder_at(s, j),
        },
{
    lemma_first_placeholder_from(s, 0);
}

proof fn lemma_first_placeholder_from(s: Seq<char>, i: int)
    requires
        0 <= i,
    ensures
        match first_placeholder_from(s, i) {
            Some(k) => i <= k && is_placeholder_at(s, k) && forall|j: int|
                i <= j < k ==> !is_placeholder_at(s, j),
            None => forall|j: int| i <= j ==> !is_placeholder_at(s, j),
        },
    decreases s.len() - i,
{
    if i + 1 < s.len() && !is_placeholder_at(s, i) {
        lemma_first_placeholder_from(s, i + 1);
    }
}

/// `s` with its leftmost placeholder replaced by `with`; `s` itself if it has none.
pub open spec fn replace_first(s: Seq<char>, with: Seq<char>) -> Seq<char> {
    match first_placeholder(s) {
        Some(i) => s.subrange(0, i) + with + s.subrange(i + 2, s.len() as int),
        None => s,
    }
}

/// The text that stands for a scalar when it is spliced into a string; none for a container.
pub open spec fn scalar_text(v: SpecValue) -> Option<Seq<char>> {
    match v {
        SpecValue::Null => Some("null"@),
        SpecValue::Bool(b) => Some(
            if b {
                "true"@
            } else {
                "false"@
            },
        ),
        SpecValue::Number(SpecNumber::Int(n)) => Some(decimal_text(n)),
        SpecValue::Number(SpecNumber::Float(t)) => Some(t),
        SpecValue::String(s) => Some(s),
        SpecValue::Array(_) => None,
        SpecValue::Object(_) => None,
    }
}

/// Substitutes the values one after the other, each for the leftmost placeholder of the text
/// built so far; stops with an error at the first value that is a container.
pub open spec fn fill(text: Seq<char>, values: Seq<SpecValue>) -> Result<
    SpecValue,
    SpecFunctionCallError,
>
    decreases values.len(),
{
    if values.len() == 0 {
        Ok(SpecValue::String(text))
    } else {
        match scalar_text(values[0]) {
            Some(t) => fill(replace_first(text, t), values.subrange(1, values.len() as int)),
            None => Err(
                SpecFunctionCallError::InvalidArgument(
                    "format function does not support arrays or objects as arguments"@,
                ),
            ),
        }
    }
}

/// The diagnostic for a call whose number of values differs from the `count` placeholders.
pub open spec fn count_mismatch_message(count: nat) -> Seq<char> {
    "format function requires "@ + decimal_text(count as int)
        + " arguments after the format string, one for each \"{}\" placeholder"@
}

/// What `format` returns for the given arguments.
pub open spec fn format_spec(args: Seq<SpecValue>) -> Result<SpecValue, SpecFunctionCallError> {
    if args.len() < 1 {
        Err(
            SpecFunctionCallError::IncorrectNumberOfArguments(
                "format function requires at least one argument"@,
            ),
        )
    } else if let SpecValue::String(template) = args[0] {
        if args.len() - 1 != placeholder_count(template) {
            Err(
                SpecFunctionCallError::IncorrectNumberOfArguments(
                    count_mismatch_message(placeholder_count(template)),
                ),
            )
        } else {
            fill(template, args.subrange(1, args.len() as int))
        }
    } else {
        Err(
            SpecFunctionCallError::InvalidArgument(
                "format function requires the first argument to be a string"@,
            ),
        )
    }
}

/// The outcome of a function call as a mathematical value.
pub open spec fn call_view(res: Result<Value, FunctionCallError>) -> Result<
    SpecValue,
    SpecFunctionCallError,
> {
    match res {
        Ok(v) => Ok(v@),
        Err(e) => Err(e@),
    }
}

/// Counts the placeholders in `text`.
pub fn count_placeholders(text: &Vec<char>) -> (n: usize)
    ensures
        n == placeholder_count(text@),
{
    let mut n: usize = 0;
    let mut i: usize = text.len();
    if i < 2 {
        return 0;
    }
    i = i - 1;
    while i > 0
        invariant
            i + 1 <= text.len(),
            n == placeholders_from(text@, i as int),
            n + i + 1 <= text.len(),
        decreases i,
    {
        i = i - 1;
        if text[i] == '{' && text[i + 1] == '}' {
            n = n + 1;
        }
    }
    n
}

/// Finds the leftmost placeholder of `text`.
pub fn find_placeholder(text: &Vec<char>) -> (at: Option<usize>)
    ensures
        match at {
            Some(i) => first_placeholder(text@) == Some(i as int),
            None => first_placeholder(text@) is None,
        },
{
    if text.len() < 2 {
        return None;
    }
    let last: usize = text.len() - 1;
    let mut i: usize = 0;
    while i < last
        invariant
            last + 1 == text.len(),
            i <= last,
            first_placeholder(text@) == first_placeholder_from(text@, i as int),
        decreases last - i,
    {
        if text[i] == '{' && text[i + 1] == '}' {
            return Some(i);
        }
        i = i + 1;
    }
    None
}

/// Replaces the leftmost placeholder of `text` by `with`; copies `text` if it has none.
pub fn replace_placeholder(text: &Vec<char>, with: &Vec<char>) -> (out: Vec<char>)
    ensures
        out@ == replace_first(text@, with@),
{
    let mut out: Vec<char> = Vec::new();
    proof {
        lemma_first_placeholder(text@);
    }
    match find_placeholder(text) {
        Some(at) => {
            let mut i: usize = 0;
            while i < at
                invariant
                    i <= at < text.len(),
                    out@ == text@.subrange(0, i as int),
                decreases at - i,
            {
                out.push(text[i]);
                i = i + 1;
            }
            let mut j: usize = 0;
            while j < with.len()
                invariant
                    j <= with.len(),
                    out@ == text@.subrange(0, at as int) + with@.subrange(0, j as int),
                decreases with.len() - j,
            {
                out.push(with[j]);
                j = j + 1;
            }
            let mut k: usize = at + 2;
            while k < text.len()
                invariant
                    at + 2 <= k <= text.len(),
                    out@ == text@.subrange(0, at as int) + with@ + text@.subrange(
                        at + 2,
                        k as int,
                    ),
                decreases text.len() - k,
            {
                out.push(text[k]);
                k = k + 1;
            }
            out
        },
        None => {
            let mut i: usize = 0;
            while i < text.len()
                invariant
                    i <= text.len(),
                    out@ == text@.subrange(0, i as int),
                decreases text.len() - i,
            {
                out.push(text[i]);
                i = i + 1;
            }
            assert(out@ =~= text@);
            out
        },
    }
}

/// Renders a scalar as the text that is spliced into a string; a container has none.
pub fn render_scalar(v: &Value) -> (out: Option<String>)
    ensures
        match out {
            Some(t) => scalar_text(v@) == Some(t@),
            None => scalar_text(v@) is None,
        },
{
    match v {
        Value::Null => Some(String::from_str("null")),
        Value::Bool(b) => if *b {
            Some(String::from_str("true"))
        } else {
            Some(String::from_str("false"))
        },
        Value::Number(Number::PosInt(u)) => Some(unsigned_text(*u)),
        Value::Number(Number::NegInt(i)) => Some(signed_text(*i)),
        Value::Number(Number::Float(t)) => Some(t.clone()),
        Value::String(s) => Some(s.clone()),
        Value::Array(_) => None,
        Value::Object(_) => None,
    }
}

/// The template function `format`: the first argument is a format string, and each further
/// argument is substituted for one `{}` of it, from left to right.
///
/// The call is refused without arguments, with a first argument that is no string, with a
/// number of further arguments that differs from the number of placeholders, and with an
/// array or an object among them.
pub fn format(args: Vec<Value>) -> (res: Result<Value, FunctionCallError>)
    ensures
        call_view(res) == format_spec(views(args@)),
{
    if args.len() < 1 {
        return Err(
            FunctionCallError::IncorrectNumberOfArguments(
                String::from_str("format function requires at least one argument"),
            ),
        );
    }
    let template: Vec<char> = match &args[0] {
        Value::String(s) => chars_of(s.as_str()),
        _ => {
            return Err(
                FunctionCallError::InvalidArgument(
                    String::from_str("format function requires the first argument to be a string"),
                ),
            );
        },
    };
    let count: usize = count_placeholders(&template);
    if args.len() - 1 != count {
        let mut message = String::from_str("format function requires ");
        message.append(string_of(&decimal_chars(count as u64)).as_str());
        message.append(" arguments after the format string, one for each \"{}\" placeholder");
        return Err(FunctionCallError::IncorrectNumberOfArguments(message));
    }
    let ghost values = views(args@);
    let ghost total = args.len() as int;
    let ghost start = template@;
    let mut text: Vec<char> = template;
    let mut i: usize = 1;
    while i < args.len()
        invariant
            1 <= i <= args.len(),
            values == views(args@),
            total == args.len(),
            format_spec(values) == fill(start, values.subrange(1, total)),
            fill(start, values.subrange(1, total)) == fill(text@, values.subrange(i as int, total)),
        decreases args.len() - i,
    {
        assert(values.subrange(i as int, total).subrange(1, total - i) =~= values.subrange(
            i + 1,
            total,
        ));
        match render_scalar(&args[i]) {
            Some(t) => {
                text = replace_placeholder(&text, &chars_of(t.as_str()));
            },
            None => {
                return Err(
                    FunctionCallError::InvalidArgument(
                        String::from_str(
                            "format function does not support arrays or objects as arguments",
                        ),
                    ),
                );
            },
        }
        i = i + 1;
    }
    Ok(Value::String(string_of(&text)))
}

/// Whether a text holds neither `{` nor `}`.
pub open spec fn brace_free(t: Seq<char>) -> bool {
    forall|k: int| 0 <= k < t.len() ==> (#[trigger] t[k]) != '{' && t[k] != '}'
}

/// Whether every value is a scalar whose text is not empty and holds no brace.
pub open spec fn plain_values(values: Seq<SpecValue>) -> bool {
    forall|i: int|
        0 <= i < values.len() ==> (scalar_text(#[trigger] values[i]) matches Some(t) && t.len() > 0
            && brace_free(t))
}

/// The text with the texts of the values in the places of its placeholders: the first value
/// for the first placeholder, the second for the second, and so on. Placeholders for which
/// no value is left stay as they are.
pub open spec fn positional(text: Seq<char>, values: Seq<SpecValue>) -> Seq<char>
    decreases values.len(),
{
    if values.len() == 0 {
        text
    } else {
        match (first_placeholder(text), scalar_text(values[0])) {
            (Some(i), Some(t)) => text.subrange(0, i) + t + positional(
                text.subrange(i + 2, text.len() as int),
                values.subrange(1, values.len() as int),
            ),
            _ => text,
        }
    }
}

proof fn lemma_first_placeholder_is(s: Seq<char>, k: int)
    requires
        is_placeholder_at(s, k),
        forall|j: int| 0 <= j < k ==> !is_placeholder_at(s, j),
    ensures
        first_placeholder(s) == Some(k),
{
    lemma_first_placeholder(s);
}

proof fn lemma_placeholder_after_prefix(p: Seq<char>, r: Seq<char>)
    requires
        forall|j: int| !is_placeholder_at(p, j),
        p.len() == 0 || p.last() != '{',
    ensures
        first_placeholder(p + r) == (match first_placeholder(r) {
            Some(k) => Some(p.len() + k),
            None => None,
        }),
        forall|t: Seq<char>| #[trigger] replace_first(p + r, t) == p + replace_first(r, t),
{
    let whole = p + r;
    assert forall|j: int| is_placeholder_at(whole, j) <==> (j >= p.len() && is_placeholder_at(
        r,
        j - p.len(),
    )) by {
        if 0 <= j && j + 1 < whole.len() {
            if j + 1 < p.len() {
                assert(!is_placeholder_at(p, j));
                assert(whole[j] == p[j] && whole[j + 1] == p[j + 1]);
            } else if j + 1 == p.len() {
                assert(whole[j] == p.last());
            } else {
                assert(whole[j] == r[j - p.len()] && whole[j + 1] == r[j + 1 - p.len()]);
            }
        }
    }
    lemma_first_placeholder(r);
    lemma_first_placeholder(whole);
    match first_placeholder(r) {
        Some(k) => {
            assert(is_placeholder_at(whole, p.len() + k));
            assert forall|j: int| 0 <= j < p.len() + k implies !is_placeholder_at(whole, j) by {
                if j >= p.len() {
                    assert(!is_placeholder_at(r, j - p.len()));
                }
            }
            lemma_first_placeholder_is(whole, p.len() + k);
            assert forall|t: Seq<char>| #[trigger] replace_first(whole, t) == p + replace_first(
                r,
                t,
            ) by {
                let at = p.len() + k;
                assert(whole.subrange(0, at) =~= p + r.subrange(0, k));
                assert(whole.subrange(at + 2, whole.len() as int) =~= r.subrange(
                    k + 2,
                    r.len() as int,
                ));
                assert(replace_first(whole, t) =~= p + replace_first(r, t));
            }
        },
        None => {
            if let Some(i) = first_placeholder(whole) {
                assert(is_placeholder_at(r, i - p.len()));
            }
        },
    }
}

/// The outcome `rest` with `p` before its text.
pub open spec fn with_prefix(p: Seq<char>, rest: Result<SpecValue, SpecFunctionCallError>) -> Result<
    SpecValue,
    SpecFunctionCallError,
> {
    match rest {
        Ok(SpecValue::String(x)) => Ok(SpecValue::String(p + x)),
        other => other,
    }
}

proof fn lemma_fill_after_prefix(p: Seq<char>, r: Seq<char>, values: Seq<SpecValue>)
    requires
        forall|j: int| !is_placeholder_at(p, j),
        p.len() == 0 || p.last() != '{',
    ensures
        fill(p + r, values) == with_prefix(p, fill(r, values)),
    decreases values.len(),
{
    if values.len() > 0 {
        if let Some(t) = scalar_text(values[0]) {
            lemma_placeholder_after_prefix(p, r);
            assert(replace_first(p + r, t) == p + replace_first(r, t));
            lemma_fill_after_prefix(
                p,
                replace_first(r, t),
                values.subrange(1, values.len() as int),
            );
        }
    }
}

/// Where every value is a scalar whose text is not empty and holds no brace, substituting
/// the values one after the other puts each into the place of its own placeholder: the
/// value with index `i` stands where the placeholder with index `i` stood.
pub proof fn lemma_fill_is_positional(text: Seq<char>, values: Seq<SpecValue>)
    requires
        plain_values(values),
    ensures
        fill(text, values) == Ok::<SpecValue, SpecFunctionCallError>(
            SpecValue::String(positional(text, values)),
        ),
    decreases values.len(),
{
    if values.len() > 0 {
        let rest = values.subrange(1, values.len() as int);
        assert(plain_values(rest)) by {
            assert forall|i: int| 0 <= i < rest.len() implies (scalar_text(
                #[trigger] rest[i],
            ) matches Some(t) && t.len() > 0 && brace_free(t)) by {
                assert(rest[i] == values[i + 1]);
            }
        }
        let t = scalar_text(values[0])->0;
        lemma_first_placeholder(text);
        match first_placeholder(text) {
            Some(i) => {
                let head = text.subrange(0, i);
                let p = head + t;
                let r = text.subrange(i + 2, text.len() as int);
                assert(replace_first(text, t) =~= p + r);
                assert forall|j: int| !is_placeholder_at(p, j) by {
                    if 0 <= j && j + 1 < p.len() {
                        if j + 1 < i {
                            assert(!is_placeholder_at(text, j));
                            assert(p[j] == text[j] && p[j + 1] == text[j + 1]);
                        } else if j + 1 == i {
                            assert(p[j + 1] == t[0]);
                        } else {
                            assert(p[j] == t[j - i]);
                        }
                    }
                }
                assert(p.last() == t.last());
                lemma_fill_after_prefix(p, r, rest);
                lemma_fill_is_positional(r, rest);
                assert(p + positional(r, rest) =~= head + t + positional(r, rest));
            },
            None => {
                lemma_fill_is_positional(text, rest);
                lemma_positional_without_placeholder(text, rest);
            },
        }
    }
}

proof fn lemma_positional_without_placeholder(text: Seq<char>, values: Seq<SpecValue>)
    requires
        first_placeholder(text) is None,
    ensures
        positional(text, values) == text,
{
}

} // verus!
