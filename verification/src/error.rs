//! Error types of the evaluator and of the public expression API.

use crate::text::{chars_of, decimal_digits, push_decimal, push_str, string_of};
use vstd::prelude::*;

verus! {

/// An error raised while evaluating a rule.
#[derive(Clone, Debug, PartialEq, Eq)]
pub enum EvalError {
    /// A fact that a resolver chose to report as missing.
    UnknownAttribute { object: String, field: String },
    /// A value of the wrong type, with the place where it was met.
    TypeMismatch { expected: String, got: String, context: String },
    /// A well-typed operation that cannot be carried out.
    InvalidOperation(String),
    /// Rule text that is not an expression.
    ParseError(String),
}

/// The mathematical content of an [`EvalError`].
pub enum EvalErrorView {
    UnknownAttribute { object: Seq<char>, field: Seq<char> },
    TypeMismatch { expected: Seq<char>, got: Seq<char>, context: Seq<char> },
    InvalidOperation(Seq<char>),
    ParseError(Seq<char>),
}

impl View for EvalError {
    type V = EvalErrorView;

    open spec fn view(&self) -> EvalErrorView {
        match self {
            EvalError::UnknownAttribute { object, field } => EvalErrorView::UnknownAttribute {
                object: object@,
                field: field@,
            },
            EvalError::TypeMismatch { expected, got, context } => EvalErrorView::TypeMismatch {
                expected: expected@,
                got: got@,
                context: context@,
            },
            EvalError::InvalidOperation(m) => EvalErrorView::InvalidOperation(m@),
            EvalError::ParseError(m) => EvalErrorView::ParseError(m@),
        }
    }
}

/// The one-line description of an evaluation error.
pub open spec fn eval_error_text(e: EvalErrorView) -> Seq<char> {
    match e {
        EvalErrorView::UnknownAttribute { object, field } => "Unknown attribute: "@ + object
            + "."@ + field,
        EvalErrorView::TypeMismatch { expected, got, context } => "Type mismatch in "@ + context
            + ": expected "@ + expected + ", got "@ + got,
        EvalErrorView::InvalidOperation(m) => "Invalid operation: "@ + m,
        EvalErrorView::ParseError(m) => "Parse error: "@ + m,
    }
}

/// The text that [`HelError::from`] stores for an evaluation error.
pub open spec fn converted_message(e: EvalErrorView) -> Seq<char> {
    match e {
        EvalErrorView::ParseError(m) => m,
        EvalErrorView::InvalidOperation(m) => m,
        _ => eval_error_text(e),
    }
}

/// The kind under which [`HelError::from`] files an evaluation error.
pub open spec fn converted_kind(e: EvalErrorView) -> ErrorKind {
    match e {
        EvalErrorView::ParseError(_) => ErrorKind::ParseError,
        EvalErrorView::TypeMismatch { .. } => ErrorKind::TypeError,
        EvalErrorView::UnknownAttribute { .. } => ErrorKind::UnknownAttribute,
        EvalErrorView::InvalidOperation(_) => ErrorKind::EvaluationError,
    }
}

impl EvalError {
    /// The one-line description of the error.
    pub fn message(&self) -> (r: String)
        ensures
            r@ == eval_error_text(self@),
    {
        let mut out: Vec<char> = Vec::new();
        match self {
            EvalError::UnknownAttribute { object, field } => {
                push_str(&mut out, "Unknown attribute: ");
                push_str(&mut out, object.as_str());
                push_str(&mut out, ".");
                push_str(&mut out, field.as_str());
            },
            EvalError::TypeMismatch { expected, got, context } => {
                push_str(&mut out, "Type mismatch in ");
                push_str(&mut out, context.as_str());
                push_str(&mut out, ": expected ");
                push_str(&mut out, expected.as_str());
                push_str(&mut out, ", got ");
                push_str(&mut out, got.as_str());
            },
            EvalError::InvalidOperation(m) => {
                push_str(&mut out, "Invalid operation: ");
                push_str(&mut out, m.as_str());
            },
            EvalError::ParseError(m) => {
                push_str(&mut out, "Parse error: ");
                push_str(&mut out, m.as_str());
            },
        }
        assert(out@ =~= eval_error_text(self@));
        string_of(&out)
    }
}

/// The class of a [`HelError`].
#[derive(Clone, Copy, Debug, PartialEq, Eq, Structural)]
pub enum ErrorKind {
    ParseError,
    EvaluationError,
    TypeError,
    UnknownAttribute,
}

/// The name of an error kind, as it appears in rendered errors.
pub open spec fn kind_name(kind: ErrorKind) -> Seq<char> {
    match kind {
        ErrorKind::ParseError => "ParseError"@,
        ErrorKind::EvaluationError => "EvaluationError"@,
        ErrorKind::TypeError => "TypeError"@,
        ErrorKind::UnknownAttribute => "UnknownAttribute"@,
    }
}

/// An error of the public expression API, with its place in the source
/// text where one is known.
#[derive(Clone, Debug, PartialEq, Eq)]
pub struct HelError {
    pub message: String,
    pub line: Option<usize>,
    pub column: Option<usize>,
    pub kind: ErrorKind,
}

/// The mathematical content of a [`HelError`].
pub struct HelErrorView {
    pub message: Seq<char>,
    pub line: Option<usize>,
    pub column: Option<usize>,
    pub kind: ErrorKind,
}

impl View for HelError {
    type V = HelErrorView;

    open spec fn view(&self) -> HelErrorView {
        HelErrorView {
            message: self.message@,
            line: self.line,
            column: self.column,
            kind: self.kind,
        }
    }
}

/// The rendered form of an error: its kind, its place if known, its message.
pub open spec fn hel_error_text(e: HelErrorView) -> Seq<char> {
    if e.line is Some && e.column is Some {
        "HEL "@ + kind_name(e.kind) + " at line "@ + decimal_digits(e.line->0 as nat)
            + ", column "@ + decimal_digits(e.column->0 as nat) + ": "@ + e.message
    } else {
        "HEL "@ + kind_name(e.kind) + ": "@ + e.message
    }
}

impl HelError {
    /// A parse error without a position.
    pub fn parse_error(message: String) -> (r: HelError)
        ensures
            r@ == (HelErrorView {
                message: message@,
                line: None,
                column: None,
                kind: ErrorKind::ParseError,
            }),
    {
        HelError { message, line: None, column: None, kind: ErrorKind::ParseError }
    }

    /// A parse error at a line and column, both counted from 1.
    pub fn parse_error_at(message: String, line: usize, column: usize) -> (r: HelError)
        ensures
            r@ == (HelErrorView {
                message: message@,
                line: Some(line),
                column: Some(column),
                kind: ErrorKind::ParseError,
            }),
    {
        HelError { message, line: Some(line), column: Some(column), kind: ErrorKind::ParseError }
    }

    /// An evaluation error.
    pub fn eval_error(message: String) -> (r: HelError)
        ensures
            r@ == (HelErrorView {
                message: message@,
                line: None,
                column: None,
                kind: ErrorKind::EvaluationError,
            }),
    {
        HelError { message, line: None, column: None, kind: ErrorKind::EvaluationError }
    }

    /// A type error.
    pub fn type_error(message: String) -> (r: HelError)
        ensures
            r@ == (HelErrorView {
                message: message@,
                line: None,
                column: None,
                kind: ErrorKind::TypeError,
            }),
    {
        HelError { message, line: None, column: None, kind: ErrorKind::TypeError }
    }

    /// An unknown-attribute error.
    pub fn unknown_attribute(message: String) -> (r: HelError)
        ensures
            r@ == (HelErrorView {
                message: message@,
                line: None,
                column: None,
                kind: ErrorKind::UnknownAttribute,
            }),
    {
        HelError { message, line: None, column: None, kind: ErrorKind::UnknownAttribute }
    }

    /// The error that stands for an evaluation error in the public API.
    pub fn from_eval(err: EvalError) -> (r: HelError)
        ensures
            r@ == (HelErrorView {
                message: converted_message(err@),
                line: None,
                column: None,
                kind: converted_kind(err@),
            }),
    {
        match err {
            EvalError::ParseError(msg) => HelError::parse_error(msg),
            EvalError::InvalidOperation(msg) => HelError::eval_error(msg),
            EvalError::TypeMismatch { expected, got, context } => {
                let e = EvalError::TypeMismatch { expected, got, context };
                HelError::type_error(e.message())
            },
            EvalError::UnknownAttribute { object, field } => {
                let e = EvalError::UnknownAttribute { object, field };
                HelError::unknown_attribute(e.message())
            },
        }
    }

    /// The rendered form of the error.
    pub fn to_text(&self) -> (r: String)
        ensures
            r@ == hel_error_text(self@),
    {
        let mut out: Vec<char> = Vec::new();
        push_str(&mut out, "HEL ");
        match self.kind {
            ErrorKind::ParseError => push_str(&mut out, "ParseError"),
            ErrorKind::EvaluationError => push_str(&mut out, "EvaluationError"),
            ErrorKind::TypeError => push_str(&mut out, "TypeError"),
            ErrorKind::UnknownAttribute => push_str(&mut out, "UnknownAttribute"),
        }
        match (self.line, self.column) {
            (Some(line), Some(column)) => {
                push_str(&mut out, " at line ");
                push_decimal(&mut out, line as u64);
                push_str(&mut out, ", column ");
                push_decimal(&mut out, column as u64);
                push_str(&mut out, ": ");
            },
            _ => {
                push_str(&mut out, ": ");
            },
        }
        let m = chars_of(self.message.as_str());
        crate::text::push_chars(&mut out, &m);
        assert(out@ =~= hel_error_text(self@));
        string_of(&out)
    }
}

impl From<EvalError> for HelError {
    fn from(err: EvalError) -> (r: HelError)
        ensures
            r@ == (HelErrorView {
                message: converted_message(err@),
                line: None,
                column: None,
                kind: converted_kind(err@),
            }),
    {
        HelError::from_eval(err)
    }
}

impl vstd::std_specs::convert::FromSpecImpl<EvalError> for HelError {
    open spec fn obeys_from_spec() -> bool {
        false
    }

    open spec fn from_spec(err: EvalError) -> HelError {
        arbitrary()
    }
}

} // verus!
