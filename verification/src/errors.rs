use crate::scanner::ScanError;
use crate::scanner::ScanErrorKind;
use crate::text::decimal_chars;
use crate::text::decimal_text;
use crate::text::string_of;
use crate::template_func_parser::ParseError;
use crate::template_func_parser::SpecParseError;
use vstd::prelude::*;
use vstd::string::StringExecFns;

verus! {

/// A failed call of a template function as a mathematical value.
pub enum SpecFunctionCallError {
    InvalidArgument(Seq<char>),
    IncorrectNumberOfArguments(Seq<char>),
}

/// What went wrong in a call of a template function.
#[derive(Debug)]
pub enum FunctionCallError {
    /// An argument has a type or shape that the function does not accept.
    InvalidArgument(String),
    /// The call has too few or too many arguments.
    IncorrectNumberOfArguments(String),
}

impl View for FunctionCallError {
    type V = SpecFunctionCallError;

    open spec fn view(&self) -> SpecFunctionCallError {
        match self {
            FunctionCallError::InvalidArgument(m) => SpecFunctionCallError::InvalidArgument(m@),
            FunctionCallError::IncorrectNumberOfArguments(m) =>
                SpecFunctionCallError::IncorrectNumberOfArguments(m@),
        }
    }
}

impl SpecFunctionCallError {
    /// The text shown to a user: a prefix naming the kind, then the diagnostic.
    pub open spec fn text(self) -> Seq<char> {
        match self {
            SpecFunctionCallError::InvalidArgument(m) =>
                "function call error: invalid argument: "@ + m,
            SpecFunctionCallError::IncorrectNumberOfArguments(m) =>
                "function call error: incorrect number of arguments: "@ + m,
        }
    }
}

impl FunctionCallError {

    /// Renders the error for a user.
    pub fn to_string(&self) -> (out: String)
        ensures
            out@ == self@.text(),
    {
        match self {
            FunctionCallError::InvalidArgument(m) => {
                String::from_str("function call error: invalid argument: ").concat(m.as_str())
            },
            FunctionCallError::IncorrectNumberOfArguments(m) => {
                String::from_str("function call error: incorrect number of arguments: ").concat(
                    m.as_str(),
                )
            },
        }
    }
}

/// A failed resolution of a template as a mathematical value.
pub enum SpecResolveError {
    Scan(ScanError),
    Parse(SpecParseError),
    Function(SpecFunctionCallError),
}

/// Why a template could not be resolved, by the stage that failed.
#[derive(Debug)]
pub enum ResolveError {
    /// A string of the template could not be tokenized.
    Scan(ScanError),
    /// The tokens of a `${...}` span are no expression.
    Parse(ParseError),
    /// An expression could not be evaluated.
    Function(FunctionCallError),
}

impl View for ResolveError {
    type V = SpecResolveError;

    open spec fn view(&self) -> SpecResolveError {
        match self {
            ResolveError::Scan(e) => SpecResolveError::Scan(*e),
            ResolveError::Parse(e) => SpecResolveError::Parse(e@),
            ResolveError::Function(e) => SpecResolveError::Function(e@),
        }
    }
}

/// The text that tells a user of a failed scan: what was wrong, and at which character.
pub open spec fn scan_error_text(e: ScanError) -> Seq<char> {
    (match e.kind {
        ScanErrorKind::UnterminatedExpression => "scan error: unterminated expression at offset "@,
        ScanErrorKind::UnterminatedString => "scan error: unterminated string at offset "@,
        ScanErrorKind::UnexpectedCharacter => "scan error: unexpected character at offset "@,
    }) + decimal_text(e.offset as int)
}

/// The text that tells a user of a failed parse.
pub open spec fn parse_error_text(e: SpecParseError) -> Seq<char> {
    match e {
        SpecParseError::UnexpectedToken { position, .. } =>
            "parse error: unexpected token at position "@ + decimal_text(position),
        SpecParseError::UnexpectedEnd => "parse error: unexpected end of expression"@,
    }
}

impl SpecResolveError {
    /// The stable code by which retry and catch policies match the failure.
    pub open spec fn code(self) -> Seq<char> {
        match self {
            SpecResolveError::Scan(_) => "Template.ScanError"@,
            SpecResolveError::Parse(_) => "Template.ParseError"@,
            SpecResolveError::Function(SpecFunctionCallError::InvalidArgument(_)) =>
                "Template.InvalidArgument"@,
            SpecResolveError::Function(SpecFunctionCallError::IncorrectNumberOfArguments(_)) =>
                "Template.IncorrectNumberOfArguments"@,
        }
    }

    /// The text shown to a user.
    pub open spec fn text(self) -> Seq<char> {
        match self {
            SpecResolveError::Scan(e) => scan_error_text(e),
            SpecResolveError::Parse(e) => parse_error_text(e),
            SpecResolveError::Function(e) => e.text(),
        }
    }
}

/// Renders a failed scan for a user.
pub fn describe_scan_error(e: &ScanError) -> (out: String)
    ensures
        out@ == scan_error_text(*e),
{
    let mut out = match e.kind {
        ScanErrorKind::UnterminatedExpression => String::from_str(
            "scan error: unterminated expression at offset ",
        ),
        ScanErrorKind::UnterminatedString => String::from_str(
            "scan error: unterminated string at offset ",
        ),
        ScanErrorKind::UnexpectedCharacter => String::from_str(
            "scan error: unexpected character at offset ",
        ),
    };
    out.append(string_of(&decimal_chars(e.offset as u64)).as_str());
    out
}

/// Renders a failed parse for a user.
pub fn describe_parse_error(e: &ParseError) -> (out: String)
    ensures
        out@ == parse_error_text(e@),
{
    match e {
        ParseError::UnexpectedToken { position, .. } => {
            let mut out = String::from_str("parse error: unexpected token at position ");
            out.append(string_of(&decimal_chars(*position as u64)).as_str());
            out
        },
        ParseError::UnexpectedEnd => String::from_str("parse error: unexpected end of expression"),
    }
}

impl ResolveError {
    /// The stable code by which retry and catch policies match the failure.
    pub fn code(&self) -> (out: String)
        ensures
            out@ == self@.code(),
    {
        match self {
            ResolveError::Scan(_) => String::from_str("Template.ScanError"),
            ResolveError::Parse(_) => String::from_str("Template.ParseError"),
            ResolveError::Function(FunctionCallError::InvalidArgument(_)) => String::from_str(
                "Template.InvalidArgument",
            ),
            ResolveError::Function(FunctionCallError::IncorrectNumberOfArguments(_)) =>
                String::from_str("Template.IncorrectNumberOfArguments"),
        }
    }

    /// Renders the error for a user.
    pub fn to_string(&self) -> (out: String)
        ensures
            out@ == self@.text(),
    {
        match self {
            ResolveError::Scan(e) => describe_scan_error(e),
            ResolveError::Parse(e) => describe_parse_error(e),
            ResolveError::Function(e) => e.to_string(),
        }
    }
}

} // verus!
