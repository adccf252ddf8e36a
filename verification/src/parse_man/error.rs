//! What can go wrong with the page of one command.

use vstd::prelude::*;
use vstd::string::StringExecFns;

verus! {

/// Why a command of the tree has no flags of its own.
#[derive(Debug, PartialEq, Eq)]
pub enum Error {
    /// The page at `path` could not be read; `message` says why.
    Io { path: String, message: String },
    /// No parser found a flag in the page at `path`.
    UnsupportedFormat { path: String },
    /// The command has subcommands with pages, but no page of its own.
    ManpageNotFound { cmd_name: String },
}

/// The mathematical value of an [`Error`].
pub enum ErrorView {
    Io { path: Seq<char>, message: Seq<char> },
    UnsupportedFormat { path: Seq<char> },
    ManpageNotFound { cmd_name: Seq<char> },
}

impl View for Error {
    type V = ErrorView;

    open spec fn view(&self) -> ErrorView {
        match self {
            Error::Io { path, message } => ErrorView::Io { path: path@, message: message@ },
            Error::UnsupportedFormat { path } => ErrorView::UnsupportedFormat { path: path@ },
            Error::ManpageNotFound { cmd_name } => ErrorView::ManpageNotFound {
                cmd_name: cmd_name@,
            },
        }
    }
}

/// The values of a list of errors.
pub open spec fn errors_view(v: Seq<Error>) -> Seq<ErrorView> {
    Seq::new(v.len(), |i: int| v[i]@)
}

/// The sentence that reports an error.
pub open spec fn report(e: ErrorView) -> Seq<char> {
    match e {
        ErrorView::Io { path, message } => message,
        ErrorView::UnsupportedFormat { path } => "Unsupported manpage format for "@ + path,
        ErrorView::ManpageNotFound { cmd_name } => "Could not find manpage for "@ + cmd_name,
    }
}

impl Error {
    /// The sentence that reports this error.
    pub fn message(&self) -> (r: String)
        ensures
            r@ == report(self@),
    {
        match self {
            Error::Io { path, message } => message.clone(),
            Error::UnsupportedFormat { path } => {
                let mut r = String::from_str("Unsupported manpage format for ");
                r.append(path.as_str());
                r
            },
            Error::ManpageNotFound { cmd_name } => {
                let mut r = String::from_str("Could not find manpage for ");
                r.append(cmd_name.as_str());
                r
            },
        }
    }
}

} // verus!
