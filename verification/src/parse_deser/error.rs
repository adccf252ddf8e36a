//! What can go wrong when a command is read from a document.

use vstd::prelude::*;
use vstd::string::StringExecFns;

verus! {

/// A part of the text of a document: where it begins, in bytes, and how
/// long it is.
#[derive(Debug, Copy, Clone, PartialEq, Eq, Structural)]
pub struct Span {
    pub offset: usize,
    pub len: usize,
}

/// Why a text is no KDL document, as the parser reports it.
#[derive(Debug, PartialEq, Eq)]
pub struct SyntaxError {
    pub message: String,
    pub span: Span,
    pub label: Option<String>,
    pub help: Option<String>,
}

/// Why a KDL document does not describe a command.
#[derive(Debug, PartialEq, Eq)]
pub enum ParseError {
    /// A node holds a child that is not among the children it may have.
    UnexpectedChild { child_name: String, allowed: String, span: Span },
    /// A node holds two children of one name.
    DuplicateChild { child_name: String, span: Span, prev_span: Span },
    /// A command has two flags of one spelling.
    DuplicateFlag { flag: String, span: Span, prev_span: Span },
    /// A form of a flag is not a string alone.
    InvalidFlag { msg: String, span: Span },
    /// A description is not a single string.
    InvalidDescription(Span),
    /// A node `type` has no children.
    EmptyType(Span),
    /// A type of a name that is not known.
    InvalidType(String, Span),
    /// A type `run` without a command.
    MissingCommand(Span),
    /// Any other fault, with the words that report it.
    Generic { error: String, span: Span, label: String, help: Option<String> },
}

/// An error encountered when deserializing KDL specifically
#[derive(Debug, PartialEq, Eq)]
pub enum KdlDeserError {
    /// The text is no KDL document.
    SyntaxError(SyntaxError),
    /// The document holds no node.
    EmptyFile,
    /// The document holds this many nodes, more than one.
    TooManyNodes(usize),
    /// The text was valid KDL but could not be read as a command
    ParseError { source_code: String, error: ParseError },
}

/// Why a file cannot be read as a command, by its name alone.
#[derive(Debug, PartialEq, Eq)]
pub enum Error {
    /// The name of the file has no extension.
    NoExtension { file_path: String },
    /// The extension is that of no format that is read.
    UnrecognizableExtension { file_path: String },
}

/// The mathematical value of a [`SyntaxError`].
pub struct SyntaxErrorView {
    pub message: Seq<char>,
    pub span: Span,
    pub label: Option<Seq<char>>,
    pub help: Option<Seq<char>>,
}

/// The mathematical value of a [`ParseError`].
pub enum ParseErrorView {
    UnexpectedChild { child_name: Seq<char>, allowed: Seq<char>, span: Span },
    DuplicateChild { child_name: Seq<char>, span: Span, prev_span: Span },
    DuplicateFlag { flag: Seq<char>, span: Span, prev_span: Span },
    InvalidFlag { msg: Seq<char>, span: Span },
    InvalidDescription(Span),
    EmptyType(Span),
    InvalidType(Seq<char>, Span),
    MissingCommand(Span),
    Generic { error: Seq<char>, span: Span, label: Seq<char>, help: Option<Seq<char>> },
}

/// The mathematical value of a [`KdlDeserError`].
pub enum KdlDeserErrorView {
    SyntaxError(SyntaxErrorView),
    EmptyFile,
    TooManyNodes(usize),
    ParseError { source_code: Seq<char>, error: ParseErrorView },
}

/// The mathematical value of an [`Error`].
pub enum ErrorView {
    NoExtension { file_path: Seq<char> },
    UnrecognizableExtension { file_path: Seq<char> },
}

impl View for SyntaxError {
    type V = SyntaxErrorView;

    open spec fn view(&self) -> SyntaxErrorView {
        SyntaxErrorView {
            message: self.message@,
            span: self.span,
            label: crate::opt_view(self.label),
            help: crate::opt_view(self.help),
        }
    }
}

impl View for ParseError {
    type V = ParseErrorView;

    open spec fn view(&self) -> ParseErrorView {
        match self {
            ParseError::UnexpectedChild { child_name, allowed, span } => {
                ParseErrorView::UnexpectedChild {
                    child_name: child_name@,
                    allowed: allowed@,
                    span: *span,
                }
            },
            ParseError::DuplicateChild { child_name, span, prev_span } => {
                ParseErrorView::DuplicateChild {
                    child_name: child_name@,
                    span: *span,
                    prev_span: *prev_span,
                }
            },
            ParseError::DuplicateFlag { flag, span, prev_span } => ParseErrorView::DuplicateFlag {
                flag: flag@,
                span: *span,
                prev_span: *prev_span,
            },
            ParseError::InvalidFlag { msg, span } => ParseErrorView::InvalidFlag {
                msg: msg@,
                span: *span,
            },
            ParseError::InvalidDescription(span) => ParseErrorView::InvalidDescription(*span),
            ParseError::EmptyType(span) => ParseErrorView::EmptyType(*span),
            ParseError::InvalidType(name, span) => ParseErrorView::InvalidType(name@, *span),
            ParseError::MissingCommand(span) => ParseErrorView::MissingCommand(*span),
            ParseError::Generic { error, span, label, help } => ParseErrorView::Generic {
                error: error@,
                span: *span,
                label: label@,
                help: crate::opt_view(*help),
            },
        }
    }
}

impl View for KdlDeserError {
    type V = KdlDeserErrorView;

    open spec fn view(&self) -> KdlDeserErrorView {
        match self {
            KdlDeserError::SyntaxError(e) => KdlDeserErrorView::SyntaxError(e@),
            KdlDeserError::EmptyFile => KdlDeserErrorView::EmptyFile,
            KdlDeserError::TooManyNodes(n) => KdlDeserErrorView::TooManyNodes(*n),
            KdlDeserError::ParseError { source_code, error } => KdlDeserErrorView::ParseError {
                source_code: source_code@,
                error: error@,
            },
        }
    }
}

impl View for Error {
    type V = ErrorView;

    open spec fn view(&self) -> ErrorView {
        match self {
            Error::NoExtension { file_path } => ErrorView::NoExtension { file_path: file_path@ },
            Error::UnrecognizableExtension { file_path } => ErrorView::UnrecognizableExtension {
                file_path: file_path@,
            },
        }
    }
}

/// The sentence that reports an error of the name of a file.
pub open spec fn report(e: ErrorView) -> Seq<char> {
    match e {
        ErrorView::NoExtension { file_path } => file_path + " has no extension"@,
        ErrorView::UnrecognizableExtension { file_path } => file_path
            + " has an unrecognizable extension"@,
    }
}

impl Error {
    /// The sentence that reports this error.
    pub fn message(&self) -> (r: String)
        ensures
            r@ == report(self@),
    {
        match self {
            Error::NoExtension { file_path } => {
                let mut r = file_path.clone();
                r.append(" has no extension");
                r
            },
            Error::UnrecognizableExtension { file_path } => {
                let mut r = file_path.clone();
                r.append(" has an unrecognizable extension");
                r
            },
        }
    }
}

} // verus!
