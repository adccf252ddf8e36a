//! For parsing completions from a serialization language (KDL or JSON)

use vstd::prelude::*;
use vstd::string::StringExecFns;
use crate::parse_deser::error::{Error, ErrorView};
use crate::parse_man::read::{extension, extension_of};
use crate::text::{chars_of, same_chars};

pub mod error;
pub mod kdl;

verus! {

/// The languages that a command can be read from
#[derive(Debug, Copy, Clone, PartialEq, Eq, Structural)]
pub enum InputFormat {
    Kdl,
    Json,
}

/// The format that the extension of `file_path` stands for.
pub open spec fn format_of(file_path: Seq<char>) -> Result<InputFormat, ErrorView> {
    match extension(file_path) {
        Some(ext) => if ext == "json"@ {
            Ok(InputFormat::Json)
        } else if ext == "kdl"@ {
            Ok(InputFormat::Kdl)
        } else {
            Err(ErrorView::UnrecognizableExtension { file_path })
        },
        None => Err(ErrorView::NoExtension { file_path }),
    }
}

/// The format of a file, or the error for its name, as values.
pub open spec fn format_view(r: Result<InputFormat, Error>) -> Result<InputFormat, ErrorView> {
    match r {
        Ok(f) => Ok(f),
        Err(e) => Err(e@),
    }
}

/// The language in which the file at `file_path` is written, by its
/// extension: `json` or `kdl`.
pub fn input_format(file_path: &str) -> (r: Result<InputFormat, Error>)
    ensures
        format_view(r) == format_of(file_path@),
{
    match extension_of(file_path) {
        Some(ext) => {
            if same_chars(&ext, &chars_of("json")) {
                Ok(InputFormat::Json)
            } else if same_chars(&ext, &chars_of("kdl")) {
                Ok(InputFormat::Kdl)
            } else {
                Err(Error::UnrecognizableExtension { file_path: String::from_str(file_path) })
            }
        },
        None => Err(Error::NoExtension { file_path: String::from_str(file_path) }),
    }
}

} // verus!
