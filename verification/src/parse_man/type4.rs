//! Pages whose section `FUNCTION LETTERS` holds one `.TP` item for each option.

use vstd::prelude::*;
use crate::parse_man::list::{entries_chars, lemma_split_nonempty, listed, Dialect, ListDialect};
use crate::parse_man::util::{
    flag_from_chars, flag_of, opt_flag_view, plain, plain_chars, section, section_chars,
};
use crate::pattern::{lit, split_chars, split_once, split_once_chars, Pat};
use crate::text::{chars_of, trim, trim_chars};
use crate::{flags_view, Flag, FlagView};

verus! {

/// The flag of one item: the first line of its text is the option line, the
/// rest the description. An item of one line is no flag.
pub open spec fn entry(item: Seq<char>) -> Option<FlagView> {
    match split_once(Pat::Lit("\n"@), trim(plain(item))) {
        Some((options, desc)) => flag_of(options, Some(desc)),
        None => None,
    }
}

/// The flags of a page in this dialect: those of the `.TP` items of the
/// section `FUNCTION LETTERS`. A page without that section has none.
pub open spec fn flags(page_text: Seq<char>) -> Seq<FlagView> {
    match section("FUNCTION LETTERS"@, page_text) {
        Some(content) => listed(Dialect::Type4, Pat::Lit(".TP"@), content),
        None => Seq::empty(),
    }
}

pub(crate) fn entry_chars(item: &Vec<char>) -> (r: Option<Flag>)
    ensures
        opt_flag_view(r) == entry(item@),
{
    let data = trim_chars(&plain_chars(item));
    match split_once_chars(&lit("\n"), &data) {
        Some((options, desc)) => flag_from_chars(&options, Some(&desc)),
        None => None,
    }
}

pub(crate) fn parse_chars(page_text: &Vec<char>) -> (r: Vec<Flag>)
    ensures
        flags_view(r@) == flags(page_text@),
{
    match section_chars("FUNCTION LETTERS", page_text) {
        Some(content) => {
            let items = split_chars(&lit(".TP"), &content);
            proof {
                lemma_split_nonempty(Pat::Lit(".TP"@), content@);
            }
            entries_chars(&ListDialect::Type4, &items)
        },
        None => {
            let r: Vec<Flag> = Vec::new();
            assert(flags_view(r@) =~= Seq::<FlagView>::empty());
            r
        },
    }
}

/// Parses a page whose options are the `.TP` items of the section
/// `FUNCTION LETTERS`.
pub fn parse(cmd_name: &str, page_text: &str) -> (r: Vec<Flag>)
    ensures
        flags_view(r@) == flags(page_text@),
{
    parse_chars(&chars_of(page_text))
}

/// The flag of an item has a form, and its forms begin with hyphens.
pub proof fn lemma_entry_well_formed(item: Seq<char>)
    ensures
        match entry(item) {
            Some(flag) => flag.well_formed(),
            None => true,
        },
{
    match split_once(Pat::Lit("\n"@), trim(plain(item))) {
        Some((options, desc)) => {
            crate::parse_man::util::lemma_flag_has_forms(options, Some(desc));
        },
        None => {},
    }
}

/// The flags of a page have forms, and their forms begin with hyphens.
pub proof fn lemma_flags_well_formed(page_text: Seq<char>)
    ensures
        forall|i: int| 0 <= i < flags(page_text).len() ==> (#[trigger] flags(page_text)[i]).well_formed(),
{
    match section("FUNCTION LETTERS"@, page_text) {
        Some(content) => {
            crate::parse_man::list::lemma_entries_well_formed(
                Dialect::Type4,
                crate::pattern::split(Pat::Lit(".TP"@), content).skip(1),
            );
        },
        None => {},
    }
}

} // verus!
