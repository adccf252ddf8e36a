//! Pages whose section `"OPTIONS"` holds one paragraph for each option.

use vstd::prelude::*;
use crate::parse_man::list::{entries_chars, lemma_split_nonempty, listed, Dialect, ListDialect};
use crate::parse_man::util::{
    flag_from_chars, flag_of, opt_flag_view, plain, plain_chars, section, section_chars,
};
use crate::pattern::{find, find_at, lit, split, split_chars, Pat};
use crate::text::{chars_of, slice_of};
use crate::{flags_view, Flag, FlagView};

verus! {

/// The flag of one paragraph: the text before `.RE`, without its markup, is
/// the option line, then `.RS 4`, then the description. A paragraph without
/// `.RE` is no flag.
pub open spec fn entry(para: Seq<char>) -> Option<FlagView> {
    match find(Pat::Lit(".RE"@), para, 0) {
        Some(end) => {
            let pieces = split(Pat::Lit(".RS 4"@), plain(para.take(end)));
            flag_of(
                pieces[0],
                if pieces.len() > 1 {
                    Some(pieces[1])
                } else {
                    None
                },
            )
        },
        None => None,
    }
}

/// The flags of a page in this dialect: those of the paragraphs that `.PP`
/// begins in the section `"OPTIONS"`. A page without that section has none.
pub open spec fn flags(page_text: Seq<char>) -> Seq<FlagView> {
    match section("\"OPTIONS\""@, page_text) {
        Some(content) => listed(Dialect::Type1, Pat::Lit(".PP"@), content),
        None => Seq::empty(),
    }
}

pub(crate) fn entry_chars(para: &Vec<char>) -> (r: Option<Flag>)
    ensures
        opt_flag_view(r) == entry(para@),
{
    match find_at(&lit(".RE"), para, 0) {
        Some((end, _)) => {
            let data = plain_chars(&slice_of(para, 0, end));
            let pieces = split_chars(&lit(".RS 4"), &data);
            proof {
                lemma_split_nonempty(Pat::Lit(".RS 4"@), data@);
            }
            if pieces.len() > 1 {
                flag_from_chars(&pieces[0], Some(&pieces[1]))
            } else {
                flag_from_chars(&pieces[0], None)
            }
        },
        None => None,
    }
}

pub(crate) fn parse_chars(page_text: &Vec<char>) -> (r: Vec<Flag>)
    ensures
        flags_view(r@) == flags(page_text@),
{
    match section_chars("\"OPTIONS\"", page_text) {
        Some(content) => {
            let paras = split_chars(&lit(".PP"), &content);
            proof {
                lemma_split_nonempty(Pat::Lit(".PP"@), content@);
            }
            entries_chars(&ListDialect::Type1, &paras)
        },
        None => {
            let r: Vec<Flag> = Vec::new();
            assert(flags_view(r@) =~= Seq::<FlagView>::empty());
            r
        },
    }
}

/// Parses a page whose options are `.PP` paragraphs of the section
/// `"OPTIONS"`, with the descriptions between `.RS 4` and `.RE`.
pub fn parse(cmd_name: &str, page_text: &str) -> (r: Vec<Flag>)
    ensures
        flags_view(r@) == flags(page_text@),
{
    parse_chars(&chars_of(page_text))
}

/// The flag of a paragraph has a form, and its forms begin with hyphens.
pub proof fn lemma_entry_well_formed(para: Seq<char>)
    ensures
        match entry(para) {
            Some(flag) => flag.well_formed(),
            None => true,
        },
{
    match find(Pat::Lit(".RE"@), para, 0) {
        Some(end) => {
            let pieces = split(Pat::Lit(".RS 4"@), plain(para.take(end)));
            crate::parse_man::util::lemma_flag_has_forms(pieces[0], Some(pieces[1]));
            crate::parse_man::util::lemma_flag_has_forms(pieces[0], None);
        },
        None => {},
    }
}

/// The flags of a page have forms, and their forms begin with hyphens.
pub proof fn lemma_flags_well_formed(page_text: Seq<char>)
    ensures
        forall|i: int| 0 <= i < flags(page_text).len() ==> (#[trigger] flags(page_text)[i]).well_formed(),
{
    match section("\"OPTIONS\""@, page_text) {
        Some(content) => {
            crate::parse_man::list::lemma_entries_well_formed(
                Dialect::Type1,
                split(Pat::Lit(".PP"@), content).skip(1),
            );
        },
        None => {},
    }
}

} // verus!
