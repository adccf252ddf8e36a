//! Pages whose section `OPTIONS` holds one `.IP` or `.TP` item for each option.

use vstd::prelude::*;
use crate::parse_man::list::{entries_chars, lemma_split_nonempty, listed, Dialect, ListDialect};
use crate::parse_man::util::{
    flag_from_chars, flag_of, opt_flag_view, plain, plain_chars, section, section_chars,
};
use crate::pattern::{find, find_at, lit, split_chars, split_once, split_once_chars, Pat, Pattern};
use crate::text::{chars_of, slice_of, trim, trim_chars};
use crate::{flags_view, Flag, FlagView};

verus! {

/// The text of an item: what stands before the next directive that ends a
/// paragraph, without markup and without the whitespace around it.
pub open spec fn item_text(item: Seq<char>) -> Seq<char> {
    match find(Pat::ParagraphEnd, item, 0) {
        Some(end) => trim(plain(item.take(end))),
        None => trim(plain(item)),
    }
}

/// The flag of one item: its first line is the option line, the rest the
/// description. An item of one line has no description.
pub open spec fn entry(item: Seq<char>) -> Option<FlagView> {
    match split_once(Pat::Lit("\n"@), item_text(item)) {
        Some((options, desc)) => flag_of(options, Some(desc)),
        None => flag_of(item_text(item), None),
    }
}

/// The flags of a page in this dialect: those of the items of the section
/// `OPTIONS`. A page without that section has none.
pub open spec fn flags(page_text: Seq<char>) -> Seq<FlagView> {
    match section("OPTIONS"@, page_text) {
        Some(content) => listed(Dialect::Type2, Pat::ListItem, content),
        None => Seq::empty(),
    }
}

pub(crate) fn entry_chars(item: &Vec<char>) -> (r: Option<Flag>)
    ensures
        opt_flag_view(r) == entry(item@),
{
    let data = match find_at(&Pattern::ParagraphEnd, item, 0) {
        Some((end, _)) => trim_chars(&plain_chars(&slice_of(item, 0, end))),
        None => trim_chars(&plain_chars(item)),
    };
    match split_once_chars(&lit("\n"), &data) {
        Some((options, desc)) => flag_from_chars(&options, Some(&desc)),
        None => flag_from_chars(&data, None),
    }
}

pub(crate) fn parse_chars(page_text: &Vec<char>) -> (r: Vec<Flag>)
    ensures
        flags_view(r@) == flags(page_text@),
{
    match section_chars("OPTIONS", page_text) {
        Some(content) => {
            let items = split_chars(&Pattern::ListItem, &content);
            proof {
                lemma_split_nonempty(Pat::ListItem, content@);
            }
            entries_chars(&ListDialect::Type2, &items)
        },
        None => {
            let r: Vec<Flag> = Vec::new();
            assert(flags_view(r@) =~= Seq::<FlagView>::empty());
            r
        },
    }
}

/// Parses a page whose options are the `.IP` or `.TP` items of the section
/// `OPTIONS`.
pub fn parse(cmd_name: &str, page_text: &str) -> (r: Vec<Flag>)
    ensures
        flags_view(r@) == flags(page_text@),
{
    parse_chars(&chars_of(page_text))
}

/// The flag of an item has a form, and its forms begin with hyphens.
pub proof fn lemma_entry_well_formed(item: Seq<char>)
    ensures
        match entry(item) {
            Some(flag) => flag.well_formed(),
            None => true,
        },
{
    match split_once(Pat::Lit("\n"@), item_text(item)) {
        Some((options, desc)) => {
            crate::parse_man::util::lemma_flag_has_forms(options, Some(desc));
        },
        None => {
            crate::parse_man::util::lemma_flag_has_forms(item_text(item), None);
        },
    }
}

/// The flags of a page have forms, and their forms begin with hyphens.
pub proof fn lemma_flags_well_formed(page_text: Seq<char>)
    ensures
        forall|i: int| 0 <= i < flags(page_text).len() ==> (#[trigger] flags(page_text)[i]).well_formed(),
{
    match section("OPTIONS"@, page_text) {
        Some(content) => {
            crate::parse_man::list::lemma_entries_well_formed(
                Dialect::Type2,
                crate::pattern::split(Pat::ListItem, content).skip(1),
            );
        },
        None => {},
    }
}

} // verus!
