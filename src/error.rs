//! Errors of parsing and rendering, and their models.
use vstd::prelude::*;
use crate::interface::VariableTy;

verus! {

/// What went wrong while parsing a template.
#[derive(Debug, Clone, PartialEq, Eq, Hash)]
pub enum ParseErrorKind {
    /// A token that does not fit the grammar.
    UnexpectedToken { expected: String, found: String },
    /// The input ended while a block still awaited its closing tag.
    UnexpectedEOF { expected_what: String },
    /// An identifier could not be read.
    InvalidIdentifier { at_char: String },
    /// A `{{% word` whose word is no keyword.
    UnknownKeyword { keyword: String },
    /// Something specific was expected and not found.
    Expected { description: String },
    /// Any other failure.
    Message(String),
}

/// The model of a `ParseErrorKind`.
pub enum KindModel {
    UnexpectedToken(Seq<char>, Seq<char>),
    UnexpectedEOF(Seq<char>),
    InvalidIdentifier(Seq<char>),
    UnknownKeyword(Seq<char>),
    Expected(Seq<char>),
    Message(Seq<char>),
}

impl View for ParseErrorKind {
    type V = KindModel;

    open spec fn view(&self) -> KindModel {
        match self {
            ParseErrorKind::UnexpectedToken { expected, found } => KindModel::UnexpectedToken(
                expected@,
                found@,
            ),
            ParseErrorKind::UnexpectedEOF { expected_what } => KindModel::UnexpectedEOF(
                expected_what@,
            ),
            ParseErrorKind::InvalidIdentifier { at_char } => KindModel::InvalidIdentifier(at_char@),
            ParseErrorKind::UnknownKeyword { keyword } => KindModel::UnknownKeyword(keyword@),
            ParseErrorKind::Expected { description } => KindModel::Expected(description@),
            ParseErrorKind::Message(m) => KindModel::Message(m@),
        }
    }
}

/// The text of an end-of-input error: empty, or ` (expected '<closer>')`.
pub open spec fn eof_note(expected: Option<Seq<char>>) -> Seq<char> {
    match expected {
        Some(e) => " (expected '"@ + e + "')"@,
        None => Seq::empty(),
    }
}

impl ParseErrorKind {
    /// The end-of-input error, naming what was expected if anything.
    pub fn unexpected_eof(expected: Option<String>) -> (r: Self)
        ensures
            r@ == KindModel::UnexpectedEOF(
                eof_note(
                    match expected {
                        Some(e) => Some(e@),
                        None => None,
                    },
                ),
            ),
    {
        let expected_what = match expected {
            Some(e) => {
                let mut t = String::from_str(" (expected '");
                t.append(e.as_str());
                t.append("')");
                t
            },
            None => String::new(),
        };
        ParseErrorKind::UnexpectedEOF { expected_what }
    }
}

/// A parse failure with the 1-based line and column (in bytes) where it happened.
#[derive(Debug, Clone, PartialEq, Eq, Hash)]
pub struct ParseError {
    pub line: usize,
    pub column: usize,
    pub kind: ParseErrorKind,
}

/// Everything that can go wrong when adding or rendering a template.
#[derive(Debug, Clone, PartialEq, Eq, Hash)]
pub enum MinilateError {
    /// Adding this template would overwrite an existing one.
    TemplateExists { template_name: String },
    /// The requested template was not found.
    MissingTemplate { template_name: String },
    /// A variable was referenced but is not in the context.
    MissingVariable { variable_name: String },
    /// A variable is in the context but has no (or empty) data.
    MissingVariableData { variable_name: String },
    /// A variable has another declared type than its use needs.
    TypeMismatch { variable_name: String, expected: VariableTy, found: VariableTy },
    /// Structural misuse found while rendering.
    RenderError { message: String },
    /// The template text does not parse.
    Parse(ParseError),
}

/// The model of a `MinilateError`.
pub enum ErrorModel {
    TemplateExists(Seq<char>),
    MissingTemplate(Seq<char>),
    MissingVariable(Seq<char>),
    MissingVariableData(Seq<char>),
    TypeMismatch(Seq<char>, VariableTy, VariableTy),
    RenderError(Seq<char>),
    Parse(usize, usize, KindModel),
}

impl View for MinilateError {
    type V = ErrorModel;

    open spec fn view(&self) -> ErrorModel {
        match self {
            MinilateError::TemplateExists { template_name } => ErrorModel::TemplateExists(
                template_name@,
            ),
            MinilateError::MissingTemplate { template_name } => ErrorModel::MissingTemplate(
                template_name@,
            ),
            MinilateError::MissingVariable { variable_name } => ErrorModel::MissingVariable(
                variable_name@,
            ),
            MinilateError::MissingVariableData { variable_name } =>
                ErrorModel::MissingVariableData(variable_name@),
            MinilateError::TypeMismatch { variable_name, expected, found } =>
                ErrorModel::TypeMismatch(variable_name@, *expected, *found),
            MinilateError::RenderError { message } => ErrorModel::RenderError(message@),
            MinilateError::Parse(e) => ErrorModel::Parse(e.line, e.column, e.kind@),
        }
    }
}

} // verus!
