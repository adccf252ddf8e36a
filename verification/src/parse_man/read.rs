//! The text of a page, from the bytes of its file.

use std::io::Read;
use vstd::prelude::*;
use vstd::string::StringExecFns;
use vstd::utf8::{decode_utf8, encode_utf8, valid_utf8};
use crate::parse_man::{after_last, after_last_chars};
use crate::pattern::{contains, contains_pattern, lit, Pat};
use crate::text::{chars_of, same_chars, slice_of};

verus! {

/// How the file of a page is packed.
#[derive(Debug, Copy, Clone, PartialEq, Eq, Structural)]
pub enum Packing {
    Gzip,
    Bzip2,
    Plain,
}

/// The extension of a file: what follows the last full stop of its name,
/// the name being what follows the last `/` of the path. A name without a
/// full stop has none, and neither has one that only begins with its one
/// full stop.
pub open spec fn extension(file_path: Seq<char>) -> Option<Seq<char>> {
    let name = after_last(file_path, '/');
    if name.len() > 0 && contains(Pat::Lit("."@), name.skip(1)) {
        Some(after_last(name, '.'))
    } else {
        None
    }
}

/// How the file at `path` is packed, by its extension: `gz`, `bz2`, or
/// anything else for a file that is not packed.
pub open spec fn packing_of(path: Seq<char>) -> Packing {
    if extension(path) == Some("gz"@) {
        Packing::Gzip
    } else if extension(path) == Some("bz2"@) {
        Packing::Bzip2
    } else {
        Packing::Plain
    }
}

/// What the `flate2` crate makes of the bytes of a gzip file: the text that
/// was packed, or the words of its error.
pub uninterp spec fn gunzipped(bytes: Seq<u8>) -> Result<Seq<char>, Seq<char>>;

/// What the `bzip2` crate makes of the bytes of a bzip2 file: the text that
/// was packed, or the words of its error.
pub uninterp spec fn bunzipped(bytes: Seq<u8>) -> Result<Seq<char>, Seq<char>>;

/// What is reported of a file that is no text.
pub open spec fn not_utf8() -> Seq<char> {
    "stream did not contain valid UTF-8"@
}

/// The text of the page at `path` whose file holds `bytes`: unpacked as the
/// extension says, and read as UTF-8.
pub open spec fn page_text(path: Seq<char>, bytes: Seq<u8>) -> Result<Seq<char>, Seq<char>> {
    match packing_of(path) {
        Packing::Gzip => gunzipped(bytes),
        Packing::Bzip2 => bunzipped(bytes),
        Packing::Plain => if valid_utf8(bytes) {
            Ok(decode_utf8(bytes))
        } else {
            Err(not_utf8())
        },
    }
}

/// A text or the words of an error, as characters.
pub open spec fn text_view(r: Result<String, String>) -> Result<Seq<char>, Seq<char>> {
    match r {
        Ok(text) => Ok(text@),
        Err(e) => Err(e@),
    }
}

/// Reads all of a `flate2::bufread::GzDecoder` over the bytes into a
/// string: the result is what the crate makes of the bytes, named
/// [`gunzipped`], with the words of the error where it reports one.
#[verifier::external_body]
fn gunzip(bytes: &Vec<u8>) -> (r: Result<String, String>)
    ensures
        text_view(r) == gunzipped(bytes@),
{
    let mut text = String::new();
    match flate2::bufread::GzDecoder::new(bytes.as_slice()).read_to_string(&mut text) {
        Ok(_) => Ok(text),
        Err(e) => Err(e.to_string()),
    }
}

/// Reads all of a `bzip2::bufread::BzDecoder` over the bytes into a string:
/// the result is what the crate makes of the bytes, named [`bunzipped`],
/// with the words of the error where it reports one.
#[verifier::external_body]
fn bunzip2(bytes: &Vec<u8>) -> (r: Result<String, String>)
    ensures
        text_view(r) == bunzipped(bytes@),
{
    let mut text = String::new();
    match bzip2::bufread::BzDecoder::new(bytes.as_slice()).read_to_string(&mut text) {
        Ok(_) => Ok(text),
        Err(e) => Err(e.to_string()),
    }
}

/// `String::from_utf8`: the string whose bytes are the given ones, if they
/// are valid UTF-8, and nothing if they are not.
#[verifier::external_body]
fn from_utf8(bytes: Vec<u8>) -> (r: Option<String>)
    ensures
        r is Some <==> valid_utf8(bytes@),
        match r {
            Some(text) => encode_utf8(text@) == bytes@,
            None => true,
        },
{
    String::from_utf8(bytes).ok()
}

/// The extension of the file at `file_path`
pub(crate) fn extension_of(file_path: &str) -> (r: Option<Vec<char>>)
    ensures
        crate::text::opt_chars_view(r) == extension(file_path@),
{
    let name = after_last_chars(&chars_of(file_path), '/');
    if name.len() == 0 {
        return None;
    }
    let rest = slice_of(&name, 1, name.len());
    assert(rest@ =~= name@.skip(1));
    if contains_pattern(&lit("."), &rest) {
        Some(after_last_chars(&name, '.'))
    } else {
        None
    }
}

/// How the file at `path` is packed
pub fn packing(path: &str) -> (r: Packing)
    ensures
        r == packing_of(path@),
{
    match extension_of(path) {
        Some(ext) => {
            if same_chars(&ext, &chars_of("gz")) {
                Packing::Gzip
            } else if same_chars(&ext, &chars_of("bz2")) {
                Packing::Bzip2
            } else {
                Packing::Plain
            }
        },
        None => Packing::Plain,
    }
}

/// Decompress a manpage if necessary
///
/// `bytes` is what the file at `manpage_path` holds. Fails if the file is a
/// .gz or .bz2 file and cannot be decompressed, or if it is no text.
pub fn read_manpage(manpage_path: &str, bytes: Vec<u8>) -> (r: Result<String, String>)
    ensures
        text_view(r) == page_text(manpage_path@, bytes@),
{
    match packing(manpage_path) {
        Packing::Gzip => gunzip(&bytes),
        Packing::Bzip2 => bunzip2(&bytes),
        Packing::Plain => {
            let ghost given = bytes@;
            match from_utf8(bytes) {
                Some(text) => {
                    proof {
                        vstd::utf8::encode_utf8_decode_utf8(text@);
                    }
                    Ok(text)
                },
                None => Err(String::from_str("stream did not contain valid UTF-8")),
            }
        },
    }
}

} // verus!
