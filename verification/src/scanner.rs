use crate::text::chars_of;
use crate::text::string_of;
use crate::value::Number;
use crate::value::SpecNumber;
use vstd::prelude::*;

verus! {

/// A token as a mathematical value.
pub enum SpecToken {
    Literal(Seq<char>),
    Identifier(Seq<char>),
    StringLit(Seq<char>),
    NumberLit(SpecNumber),
    BoolLit(bool),
    LParen,
    RParen,
    Comma,
    Dot,
}

/// One token of a template string.
#[derive(Debug)]
pub enum Token {
    /// Text outside any `${...}` span, taken as it stands.
    Literal(String),
    /// A function name or one segment of a context path.
    Identifier(String),
    /// The characters between the quotes of a quoted string.
    StringLit(String),
    /// A numeric literal.
    NumberLit(Number),
    /// `true` or `false`.
    BoolLit(bool),
    LParen,
    RParen,
    Comma,
    Dot,
}

impl View for Token {
    type V = SpecToken;

    open spec fn view(&self) -> SpecToken {
        match self {
            Token::Literal(t) => SpecToken::Literal(t@),
            Token::Identifier(t) => SpecToken::Identifier(t@),
            Token::StringLit(t) => SpecToken::StringLit(t@),
            Token::NumberLit(n) => SpecToken::NumberLit(n@),
            Token::BoolLit(b) => SpecToken::BoolLit(*b),
            Token::LParen => SpecToken::LParen,
            Token::RParen => SpecToken::RParen,
            Token::Comma => SpecToken::Comma,
            Token::Dot => SpecToken::Dot,
        }
    }
}

impl Token {
    /// A copy of the token.
    pub fn duplicate(&self) -> (out: Token)
        ensures
            out@ == self@,
    {
        match self {
            Token::Literal(t) => Token::Literal(t.clone()),
            Token::Identifier(t) => Token::Identifier(t.clone()),
            Token::StringLit(t) => Token::StringLit(t.clone()),
            Token::NumberLit(n) => Token::NumberLit(n.duplicate()),
            Token::BoolLit(b) => Token::BoolLit(*b),
            Token::LParen => Token::LParen,
            Token::RParen => Token::RParen,
            Token::Comma => Token::Comma,
            Token::Dot => Token::Dot,
        }
    }
}

/// The views of a sequence of tokens, in order.
pub open spec fn token_views(tokens: Seq<Token>) -> Seq<SpecToken> {
    Seq::new(tokens.len(), |i: int| tokens[i]@)
}

/// Why a template string could not be tokenized.
#[derive(Clone, Copy, Debug, PartialEq, Eq, Structural)]
pub enum ScanErrorKind {
    /// A `${` has no closing `}`.
    UnterminatedExpression,
    /// A quoted string has no closing quote.
    UnterminatedString,
    /// A character that starts no token stands where a token is expected.
    UnexpectedCharacter,
}

/// A failure to tokenize, with the place where it was noticed.
#[derive(Clone, Copy, Debug, PartialEq, Eq, Structural)]
pub struct ScanError {
    pub kind: ScanErrorKind,
    /// The index, in characters, at which scanning stopped.
    pub offset: usize,
    /// The character found there; none at the end of the input.
    pub found: Option<char>,
}

/// Whether a character is white space that separates tokens inside a span.
pub open spec fn is_space(c: char) -> bool {
    c == ' ' || c == '\t' || c == '\n' || c == '\r'
}

/// Whether a character is a decimal digit.
pub open spec fn is_digit(c: char) -> bool {
    '0' <= c <= '9'
}

/// Whether a character may start an identifier: a letter of the Latin alphabet or `_`.
pub open spec fn is_ident_start(c: char) -> bool {
    ('a' <= c <= 'z') || ('A' <= c <= 'Z') || c == '_'
}

/// Whether a character may continue an identifier: one that may start it, or a digit.
pub open spec fn is_ident_part(c: char) -> bool {
    is_ident_start(c) || is_digit(c)
}

/// A class of characters that a token is made of.
#[derive(Clone, Copy, Debug, PartialEq, Eq, Structural)]
pub enum CharClass {
    /// A decimal digit.
    Digit,
    /// A character that may continue an identifier.
    IdentPart,
    /// Anything but a double quote.
    Unquoted,
}

/// Whether a character belongs to a class.
pub open spec fn in_class(class: CharClass, c: char) -> bool {
    match class {
        CharClass::Digit => is_digit(c),
        CharClass::IdentPart => is_ident_part(c),
        CharClass::Unquoted => c != '"',
    }
}

/// The first index from `i` on whose character is not in `class`; the length of `s` if all
/// characters from `i` on are.
pub open spec fn run_end(s: Seq<char>, i: int, class: CharClass) -> int
    decreases s.len() - i,
{
    if i < 0 || i >= s.len() {
        i
    } else if in_class(class, s[i]) {
        run_end(s, i + 1, class)
    } else {
        i
    }
}

/// A run ends at or after its start and within the text, and holds only characters of its
/// class; the character at its end, if there is one, is not of the class.
pub proof fn lemma_run_end(s: Seq<char>, i: int, class: CharClass)
    requires
        0 <= i <= s.len(),
    ensures
        i <= run_end(s, i, class) <= s.len(),
        forall|k: int| i <= k < run_end(s, i, class) ==> in_class(class, s[k]),
        run_end(s, i, class) < s.len() ==> !in_class(class, s[run_end(s, i, class)]),
    decreases s.len() - i,
{
    if i < s.len() && in_class(class, s[i]) {
        lemma_run_end(s, i + 1, class);
    }
}

/// Whether the opening marker `${` starts at index `i`.
pub open spec fn is_open_at(s: Seq<char>, i: int) -> bool {
    0 <= i && i + 1 < s.len() && s[i] == '$' && s[i + 1] == '{'
}

/// The first index from `i` on at which `${` starts; the length of `s` if there is none.
pub open spec fn next_open(s: Seq<char>, i: int) -> int
    decreases s.len() - i,
{
    if i < 0 || i >= s.len() {
        s.len() as int
    } else if is_open_at(s, i) {
        i
    } else {
        next_open(s, i + 1)
    }
}

/// The number written by a run of decimal digits.
pub open spec fn digits_value(s: Seq<char>) -> nat
    decreases s.len(),
{
    if s.len() == 0 {
        0
    } else {
        (digits_value(s.drop_last()) * 10 + (s.last() as int - '0' as int)) as nat
    }
}

/// The number that a numeric literal stands for: an integer where the literal has no
/// fraction and its value lies between `i64::MIN` and `u64::MAX` (a negative one no lower
/// than `i64::MIN`); otherwise the literal's own text.
pub open spec fn literal_number(lexeme: Seq<char>, negative: bool, whole: Seq<char>, fraction: bool)
    -> SpecNumber {
    if fraction {
        SpecNumber::Float(lexeme)
    } else if negative {
        if digits_value(whole) <= 0x8000_0000_0000_0000 {
            SpecNumber::Int(-(digits_value(whole) as int))
        } else {
            SpecNumber::Float(lexeme)
        }
    } else {
        if digits_value(whole) <= u64::MAX {
            SpecNumber::Int(digits_value(whole) as int)
        } else {
            SpecNumber::Float(lexeme)
        }
    }
}

/// The text before the next `${` starts at or after the start, and no `${` starts within it.
pub proof fn lemma_next_open(s: Seq<char>, i: int)
    requires
        0 <= i <= s.len(),
    ensures
        i <= next_open(s, i) <= s.len(),
        forall|k: int| i <= k < next_open(s, i) ==> !is_open_at(s, k),
        next_open(s, i) < s.len() ==> is_open_at(s, next_open(s, i)),
    decreases s.len() - i,
{
    if i < s.len() && !is_open_at(s, i) {
        lemma_next_open(s, i + 1);
    }
}

/// What the scanner does at one place inside a `${...}` span.
pub enum SpecStep {
    /// It reads the token, and goes on at the index.
    Read(SpecToken, int),
    /// It passes over one character of white space.
    Skip,
    /// It finds the `}` that closes the span.
    Close,
    /// It stops.
    Fail(ScanError),
}

/// The token that a word stands for: a boolean literal or an identifier.
pub open spec fn word_token(word: Seq<char>) -> SpecToken {
    if word =~= seq!['t', 'r', 'u', 'e'] {
        SpecToken::BoolLit(true)
    } else if word =~= seq!['f', 'a', 'l', 's', 'e'] {
        SpecToken::BoolLit(false)
    } else {
        SpecToken::Identifier(word)
    }
}

/// Whether a numeric literal starts at index `i`: a digit, or a minus sign before a digit.
pub open spec fn is_number_at(s: Seq<char>, i: int) -> bool {
    0 <= i < s.len() && (is_digit(s[i]) || (s[i] == '-' && i + 1 < s.len() && is_digit(s[i + 1])))
}

/// Where the digits before the fraction of the numeric literal at `i` start.
pub open spec fn whole_start(s: Seq<char>, i: int) -> int {
    if s[i] == '-' {
        i + 1
    } else {
        i
    }
}

/// Whether a fraction, a point before a digit, starts at index `i`.
pub open spec fn is_fraction_at(s: Seq<char>, i: int) -> bool {
    0 <= i && i + 1 < s.len() && s[i] == '.' && is_digit(s[i + 1])
}

/// Where the numeric literal that starts at `i` ends.
pub open spec fn number_end(s: Seq<char>, i: int) -> int {
    let whole_end = run_end(s, whole_start(s, i), CharClass::Digit);
    if is_fraction_at(s, whole_end) {
        run_end(s, whole_end + 1, CharClass::Digit)
    } else {
        whole_end
    }
}

/// The number that the numeric literal at `i` stands for.
pub open spec fn number_at(s: Seq<char>, i: int) -> SpecNumber {
    let whole_end = run_end(s, whole_start(s, i), CharClass::Digit);
    literal_number(
        s.subrange(i, number_end(s, i)),
        s[i] == '-',
        s.subrange(whole_start(s, i), whole_end),
        is_fraction_at(s, whole_end),
    )
}

/// The step that the scanner takes at index `i` inside a span.
pub open spec fn expr_step(s: Seq<char>, i: int) -> SpecStep {
    if i < 0 || i >= s.len() {
        SpecStep::Fail(
            ScanError {
                kind: ScanErrorKind::UnterminatedExpression,
                offset: s.len() as usize,
                found: None,
            },
        )
    } else if is_space(s[i]) {
        SpecStep::Skip
    } else if s[i] == '}' {
        SpecStep::Close
    } else if s[i] == '(' {
        SpecStep::Read(SpecToken::LParen, i + 1)
    } else if s[i] == ')' {
        SpecStep::Read(SpecToken::RParen, i + 1)
    } else if s[i] == ',' {
        SpecStep::Read(SpecToken::Comma, i + 1)
    } else if s[i] == '.' {
        SpecStep::Read(SpecToken::Dot, i + 1)
    } else if s[i] == '"' {
        let end = run_end(s, i + 1, CharClass::Unquoted);
        if end >= s.len() {
            SpecStep::Fail(
                ScanError {
                    kind: ScanErrorKind::UnterminatedString,
                    offset: s.len() as usize,
                    found: None,
                },
            )
        } else {
            SpecStep::Read(SpecToken::StringLit(s.subrange(i + 1, end)), end + 1)
        }
    } else if is_number_at(s, i) {
        SpecStep::Read(SpecToken::NumberLit(number_at(s, i)), number_end(s, i))
    } else if is_ident_start(s[i]) {
        let end = run_end(s, i + 1, CharClass::IdentPart);
        SpecStep::Read(word_token(s.subrange(i, end)), end)
    } else {
        SpecStep::Fail(
            ScanError {
                kind: ScanErrorKind::UnexpectedCharacter,
                offset: i as usize,
                found: Some(s[i]),
            },
        )
    }
}

/// A token that is read ends after the place where it starts, and within the text.
pub proof fn lemma_expr_step_advances(s: Seq<char>, i: int)
    requires
        0 <= i,
    ensures
        expr_step(s, i) matches SpecStep::Read(_, next) ==> i < next <= s.len(),
{
    if i < s.len() {
        lemma_run_end(s, i + 1, CharClass::Unquoted);
        lemma_run_end(s, i + 1, CharClass::IdentPart);
        if is_number_at(s, i) {
            let start = whole_start(s, i);
            lemma_run_end(s, start, CharClass::Digit);
            let whole_end = run_end(s, start, CharClass::Digit);
            assert(in_class(CharClass::Digit, s[start]));
            if is_fraction_at(s, whole_end) {
                lemma_run_end(s, whole_end + 1, CharClass::Digit);
            }
        }
    }
}

/// `tokens` before what `rest` holds; the error of `rest` if it is one.
pub open spec fn prepend(tokens: Seq<SpecToken>, rest: Result<Seq<SpecToken>, ScanError>) -> Result<
    Seq<SpecToken>,
    ScanError,
> {
    match rest {
        Ok(more) => Ok(tokens + more),
        Err(e) => Err(e),
    }
}

/// The tokens of `s` from index `i` on, where `inside` tells whether `i` lies in a span.
pub open spec fn scan_from(s: Seq<char>, i: int, inside: bool) -> Result<Seq<SpecToken>, ScanError>
    decreases s.len() - i,
    when 0 <= i
    via scan_from_decreases
{
    if inside {
        match expr_step(s, i) {
            SpecStep::Read(token, next) => prepend(seq![token], scan_from(s, next, true)),
            SpecStep::Skip => scan_from(s, i + 1, true),
            SpecStep::Close => scan_from(s, i + 1, false),
            SpecStep::Fail(e) => Err(e),
        }
    } else if i > s.len() {
        Ok(Seq::empty())
    } else {
        let open = next_open(s, i);
        let literal = seq![SpecToken::Literal(s.subrange(i, open))];
        if open >= s.len() {
            Ok(literal)
        } else {
            prepend(literal, scan_from(s, open + 2, true))
        }
    }
}

#[via_fn]
proof fn scan_from_decreases(s: Seq<char>, i: int, inside: bool) {
    lemma_expr_step_advances(s, i);
    if i <= s.len() {
        lemma_next_open(s, i);
    }
}

/// The tokens of a template string: the text before the first `${...}` span as a literal,
/// then in turn the tokens of each span and the text after it as a literal.
pub open spec fn scan_spec(s: Seq<char>) -> Result<Seq<SpecToken>, ScanError> {
    scan_from(s, 0, false)
}

fn class_holds(class: CharClass, c: char) -> (b: bool)
    ensures
        b == in_class(class, c),
{
    match class {
        CharClass::Digit => '0' <= c && c <= '9',
        CharClass::IdentPart => ('a' <= c && c <= 'z') || ('A' <= c && c <= 'Z') || c == '_' || (
        '0' <= c && c <= '9'),
        CharClass::Unquoted => c != '"',
    }
}

/// Finds where the run of characters of `class` that starts at `i` ends.
fn find_run_end(s: &Vec<char>, i: usize, class: CharClass) -> (end: usize)
    requires
        i <= s.len(),
    ensures
        end == run_end(s@, i as int, class),
        i <= end <= s.len(),
{
    let mut k: usize = i;
    while k < s.len() && class_holds(class, s[k])
        invariant
            i <= k <= s.len(),
            run_end(s@, i as int, class) == run_end(s@, k as int, class),
        decreases s.len() - k,
    {
        k = k + 1;
    }
    k
}

/// Finds where the next `${` at or after `i` starts.
fn find_open(s: &Vec<char>, i: usize) -> (open: usize)
    requires
        i <= s.len(),
    ensures
        open == next_open(s@, i as int),
        i <= open <= s.len(),
{
    let mut k: usize = i;
    while k < s.len()
        invariant
            i <= k <= s.len(),
            next_open(s@, i as int) == next_open(s@, k as int),
        decreases s.len() - k,
    {
        if s[k] == '$' && k + 1 < s.len() && s[k + 1] == '{' {
            return k;
        }
        k = k + 1;
    }
    k
}

/// The characters of `s` from `from` up to `to`, as a string.
fn slice_text(s: &Vec<char>, from: usize, to: usize) -> (out: String)
    requires
        from <= to <= s.len(),
    ensures
        out@ == s@.subrange(from as int, to as int),
{
    let mut part: Vec<char> = Vec::new();
    let mut k: usize = from;
    while k < to
        invariant
            from <= k <= to <= s.len(),
            part@ == s@.subrange(from as int, k as int),
        decreases to - k,
    {
        part.push(s[k]);
        k = k + 1;
    }
    string_of(&part)
}

/// A run of digits is worth at least as much as any of its prefixes.
proof fn lemma_digits_value_grows(s: Seq<char>, k: int)
    requires
        0 <= k <= s.len(),
        forall|j: int| 0 <= j < s.len() ==> is_digit(s[j]),
    ensures
        digits_value(s.subrange(0, k)) <= digits_value(s),
    decreases s.len(),
{
    if k == s.len() {
        assert(s.subrange(0, k) =~= s);
    } else {
        lemma_digits_value_grows(s.drop_last(), k);
        assert(s.drop_last().subrange(0, k) =~= s.subrange(0, k));
    }
}

/// The value of the digits of `s` from `from` up to `to`, if it fits.
fn whole_value(s: &Vec<char>, from: usize, to: usize) -> (out: Option<u64>)
    requires
        from <= to <= s.len(),
        forall|j: int| from <= j < to ==> is_digit(s[j]),
    ensures
        match out {
            Some(v) => v == digits_value(s@.subrange(from as int, to as int)),
            None => digits_value(s@.subrange(from as int, to as int)) > u64::MAX,
        },
{
    let ghost all = s@.subrange(from as int, to as int);
    let mut acc: u64 = 0;
    let mut k: usize = from;
    while k < to
        invariant
            from <= k <= to <= s.len(),
            all == s@.subrange(from as int, to as int),
            forall|j: int| from <= j < to ==> is_digit(s[j]),
            acc == digits_value(s@.subrange(from as int, k as int)),
        decreases to - k,
    {
        let d: u64 = (s[k] as u32 - '0' as u32) as u64;
        proof {
            let next = s@.subrange(from as int, k + 1);
            assert(next.drop_last() =~= s@.subrange(from as int, k as int));
            assert(next.last() == s[k as int]);
            assert(all.subrange(0, k + 1 - from) =~= next);
            lemma_digits_value_grows(all, k + 1 - from);
        }
        if acc > (u64::MAX - d) / 10 {
            return None;
        }
        acc = acc * 10 + d;
        k = k + 1;
    }
    Some(acc)
}

/// Reads the numeric literal that starts at `i`.
fn read_number(s: &Vec<char>, i: usize) -> (out: (Number, usize))
    requires
        is_number_at(s@, i as int),
    ensures
        out.0@ == number_at(s@, i as int),
        out.1 == number_end(s@, i as int),
        i < out.1 <= s.len(),
{
    let negative = s[i] == '-';
    let start: usize = if negative {
        i + 1
    } else {
        i
    };
    let whole_end = find_run_end(s, start, CharClass::Digit);
    proof {
        lemma_run_end(s@, start as int, CharClass::Digit);
        assert(in_class(CharClass::Digit, s@[start as int]));
    }
    let fraction = whole_end < s.len() && s[whole_end] == '.' && whole_end + 1 < s.len() && '0'
        <= s[whole_end + 1] && s[whole_end + 1] <= '9';
    if fraction {
        let end = find_run_end(s, whole_end + 1, CharClass::Digit);
        return (Number::Float(slice_text(s, i, end)), end);
    }
    match whole_value(s, start, whole_end) {
        Some(v) => {
            if !negative {
                (Number::PosInt(v), whole_end)
            } else if v <= 0x7fff_ffff_ffff_ffff {
                (Number::NegInt(0 - (v as i64)), whole_end)
            } else if v == 0x8000_0000_0000_0000 {
                (Number::NegInt(i64::MIN), whole_end)
            } else {
                (Number::Float(slice_text(s, i, whole_end)), whole_end)
            }
        },
        None => (Number::Float(slice_text(s, i, whole_end)), whole_end),
    }
}

/// What the scanner does at one place inside a `${...}` span.
#[derive(Debug)]
pub enum Step {
    /// It reads the token, and goes on at the index.
    Read(Token, usize),
    /// It passes over one character of white space.
    Skip,
    /// It finds the `}` that closes the span.
    Close,
    /// It stops.
    Fail(ScanError),
}

impl View for Step {
    type V = SpecStep;

    open spec fn view(&self) -> SpecStep {
        match self {
            Step::Read(token, next) => SpecStep::Read(token@, *next as int),
            Step::Skip => SpecStep::Skip,
            Step::Close => SpecStep::Close,
            Step::Fail(e) => SpecStep::Fail(*e),
        }
    }
}

/// The token that the word from `from` up to `to` stands for.
fn read_word(s: &Vec<char>, from: usize, to: usize) -> (token: Token)
    requires
        from <= to <= s.len(),
    ensures
        token@ == word_token(s@.subrange(from as int, to as int)),
{
    let ghost word = s@.subrange(from as int, to as int);
    if to - from == 4 && s[from] == 't' && s[from + 1] == 'r' && s[from + 2] == 'u' && s[from + 3]
        == 'e' {
        assert(word =~= seq!['t', 'r', 'u', 'e']);
        Token::BoolLit(true)
    } else if to - from == 5 && s[from] == 'f' && s[from + 1] == 'a' && s[from + 2] == 'l' && s[from
        + 3] == 's' && s[from + 4] == 'e' {
        assert(word =~= seq!['f', 'a', 'l', 's', 'e']);
        Token::BoolLit(false)
    } else {
        assert(!(word =~= seq!['t', 'r', 'u', 'e'])) by {
            if word =~= seq!['t', 'r', 'u', 'e'] {
                assert(word.len() == 4);
                assert(word[0] == 't' && word[1] == 'r' && word[2] == 'u' && word[3] == 'e');
            }
        }
        assert(!(word =~= seq!['f', 'a', 'l', 's', 'e'])) by {
            if word =~= seq!['f', 'a', 'l', 's', 'e'] {
                assert(word.len() == 5);
                assert(word[0] == 'f' && word[1] == 'a' && word[2] == 'l' && word[3] == 's'
                    && word[4] == 'e');
            }
        }
        Token::Identifier(slice_text(s, from, to))
    }
}

/// Takes one step at index `i` inside a `${...}` span of `s`.
pub fn scan_step(s: &Vec<char>, i: usize) -> (step: Step)
    ensures
        step@ == expr_step(s@, i as int),
        step matches Step::Read(_, next) ==> i < next <= s.len(),
{
    proof {
        lemma_expr_step_advances(s@, i as int);
    }
    if i >= s.len() {
        return Step::Fail(
            ScanError { kind: ScanErrorKind::UnterminatedExpression, offset: s.len(), found: None },
        );
    }
    let c = s[i];
    if c == ' ' || c == '\t' || c == '\n' || c == '\r' {
        Step::Skip
    } else if c == '}' {
        Step::Close
    } else if c == '(' {
        Step::Read(Token::LParen, i + 1)
    } else if c == ')' {
        Step::Read(Token::RParen, i + 1)
    } else if c == ',' {
        Step::Read(Token::Comma, i + 1)
    } else if c == '.' {
        Step::Read(Token::Dot, i + 1)
    } else if c == '"' {
        let end = find_run_end(s, i + 1, CharClass::Unquoted);
        if end >= s.len() {
            Step::Fail(
                ScanError { kind: ScanErrorKind::UnterminatedString, offset: s.len(), found: None },
            )
        } else {
            Step::Read(Token::StringLit(slice_text(s, i + 1, end)), end + 1)
        }
    } else if ('0' <= c && c <= '9') || (c == '-' && i + 1 < s.len() && '0' <= s[i + 1] && s[i + 1]
        <= '9') {
        let (number, end) = read_number(s, i);
        Step::Read(Token::NumberLit(number), end)
    } else if ('a' <= c && c <= 'z') || ('A' <= c && c <= 'Z') || c == '_' {
        let end = find_run_end(s, i + 1, CharClass::IdentPart);
        Step::Read(read_word(s, i, end), end)
    } else {
        Step::Fail(ScanError { kind: ScanErrorKind::UnexpectedCharacter, offset: i, found: Some(c) })
    }
}

/// The tokens of a text end with a literal; read from outside a span, they also start with
/// one.
pub proof fn lemma_scan_from_ends_with_literal(s: Seq<char>, i: int, inside: bool)
    requires
        0 <= i <= s.len(),
    ensures
        scan_from(s, i, inside) matches Ok(tokens) ==> tokens.len() >= 1 && tokens.last()
            is Literal && (!inside ==> tokens[0] is Literal),
    decreases s.len() - i,
{
    if inside {
        lemma_expr_step_advances(s, i);
        match expr_step(s, i) {
            SpecStep::Read(token, next) => {
                lemma_scan_from_ends_with_literal(s, next, true);
            },
            SpecStep::Skip => {
                lemma_scan_from_ends_with_literal(s, i + 1, true);
            },
            SpecStep::Close => {
                lemma_scan_from_ends_with_literal(s, i + 1, false);
            },
            SpecStep::Fail(_) => {},
        }
    } else {
        lemma_next_open(s, i);
        let open = next_open(s, i);
        if open < s.len() {
            lemma_scan_from_ends_with_literal(s, open + 2, true);
        }
    }
}

/// The tokens of a template string start and end with a literal: every span stands between
/// two literals.
pub proof fn lemma_scan_is_delimited(s: Seq<char>)
    ensures
        scan_spec(s) matches Ok(tokens) ==> tokens.len() >= 1 && tokens[0] is Literal
            && tokens.last() is Literal,
{
    lemma_scan_from_ends_with_literal(s, 0, false);
}

/// The outcome of a scan as a mathematical value.
pub open spec fn scan_view(res: Result<Vec<Token>, ScanError>) -> Result<Seq<SpecToken>, ScanError> {
    match res {
        Ok(tokens) => Ok(token_views(tokens@)),
        Err(e) => Err(e),
    }
}

/// Tokenizes a template string.
///
/// Text outside `${...}` is handed on as literals: one before the first span, one after each
/// span, empty where nothing stands there. Inside a span white space separates tokens. The
/// scan fails where a span or a quoted string is not closed, and where a character inside a
/// span starts no token.
pub fn scan(template: &str) -> (res: Result<Vec<Token>, ScanError>)
    ensures
        scan_view(res) == scan_spec(template@),
{
    let chars = chars_of(template);
    let mut tokens: Vec<Token> = Vec::new();
    let mut i: usize = 0;
    let mut inside = false;
    assert(token_views(tokens@) =~= Seq::empty());
    proof {
        if let Ok(all) = scan_spec(chars@) {
            assert(Seq::<SpecToken>::empty() + all =~= all);
        }
    }
    loop
        invariant
            chars@ == template@,
            i <= chars.len(),
            scan_spec(chars@) == prepend(
                token_views(tokens@),
                scan_from(chars@, i as int, inside),
            ),
        decreases chars.len() - i,
    {
        let ghost before = token_views(tokens@);
        if inside {
            match scan_step(&chars, i) {
                Step::Read(token, next) => {
                    let ghost read = token@;
                    tokens.push(token);
                    proof {
                        assert(token_views(tokens@) =~= before + seq![read]);
                        let rest = scan_from(chars@, next as int, true);
                        if let Ok(more) = rest {
                            assert(before + (seq![read] + more) =~= (before + seq![read]) + more);
                        }
                    }
                    i = next;
                },
                Step::Skip => {
                    i = i + 1;
                },
                Step::Close => {
                    i = i + 1;
                    inside = false;
                },
                Step::Fail(e) => {
                    return Err(e);
                },
            }
        } else {
            let open = find_open(&chars, i);
            let ghost literal = SpecToken::Literal(chars@.subrange(i as int, open as int));
            tokens.push(Token::Literal(slice_text(&chars, i, open)));
            proof {
                lemma_next_open(chars@, i as int);
                assert(token_views(tokens@) =~= before + seq![literal]);
                if open < chars.len() {
                    let rest = scan_from(chars@, open + 2, true);
                    if let Ok(more) = rest {
                        assert(before + (seq![literal] + more) =~= (before + seq![literal]) + more);
                    }
                }
            }
            if open >= chars.len() {
                return Ok(tokens);
            }
            i = open + 2;
            inside = true;
        }
    }
}

} // verus!
