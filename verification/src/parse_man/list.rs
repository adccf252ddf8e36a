//! The dialects that list their options as the items of one section.

use vstd::prelude::*;
use crate::parse_man::util::opt_flag_view;
use crate::parse_man::{darwin, type1, type2, type4};
use crate::pattern::{split, texts_view, Pat};
use crate::{flags_view, Flag, FlagView};

verus! {

/// A dialect whose options are the items of a list.
pub enum Dialect {
    /// Paragraphs after `.PP`, the description indented by `.RS 4`.
    Type1,
    /// Items after `.IP` or `.TP`.
    Type2,
    /// Items after `.TP`, each with a description.
    Type4,
    /// Items after `.It`, in a page of the command of the given name.
    Darwin(Seq<char>),
}

/// A dialect, as the parsers hold it.
pub enum ListDialect {
    Type1,
    Type2,
    Type4,
    Darwin(Vec<char>),
}

impl View for ListDialect {
    type V = Dialect;

    open spec fn view(&self) -> Dialect {
        match self {
            ListDialect::Type1 => Dialect::Type1,
            ListDialect::Type2 => Dialect::Type2,
            ListDialect::Type4 => Dialect::Type4,
            ListDialect::Darwin(name) => Dialect::Darwin(name@),
        }
    }
}

/// The flag that one item of the list stands for, if it is one.
pub open spec fn entry(d: Dialect, item: Seq<char>) -> Option<FlagView> {
    match d {
        Dialect::Type1 => type1::entry(item),
        Dialect::Type2 => type2::entry(item),
        Dialect::Type4 => type4::entry(item),
        Dialect::Darwin(name) => darwin::entry(name, item),
    }
}

/// The flags of the given items, in the order of the items.
pub open spec fn entries(d: Dialect, items: Seq<Seq<char>>) -> Seq<FlagView>
    decreases items.len(),
{
    if items.len() == 0 {
        Seq::empty()
    } else {
        match entry(d, items.last()) {
            Some(flag) => entries(d, items.drop_last()).push(flag),
            None => entries(d, items.drop_last()),
        }
    }
}

/// The flags of a list: those of its items, without what stands before the
/// first item.
pub open spec fn listed(d: Dialect, item: Pat, content: Seq<char>) -> Seq<FlagView> {
    entries(d, split(item, content).skip(1))
}

/// A text has at least one piece, whatever it is split at.
pub proof fn lemma_split_nonempty(p: Pat, s: Seq<char>)
    ensures
        split(p, s).len() >= 1,
{
}

fn entry_chars(d: &ListDialect, item: &Vec<char>) -> (r: Option<Flag>)
    ensures
        opt_flag_view(r) == entry(d@, item@),
{
    match d {
        ListDialect::Type1 => type1::entry_chars(item),
        ListDialect::Type2 => type2::entry_chars(item),
        ListDialect::Type4 => type4::entry_chars(item),
        ListDialect::Darwin(name) => darwin::entry_chars(name, item),
    }
}

/// The flags of the items of a list that was split into `pieces`.
pub(crate) fn entries_chars(d: &ListDialect, pieces: &Vec<Vec<char>>) -> (r: Vec<Flag>)
    requires
        pieces.len() >= 1,
    ensures
        flags_view(r@) == entries(d@, texts_view(pieces@).skip(1)),
{
    let mut flags: Vec<Flag> = Vec::new();
    let mut i: usize = 1;
    let ghost items = texts_view(pieces@).skip(1);
    assert(flags_view(flags@) =~= entries(d@, items.take(0)));
    while i < pieces.len()
        invariant
            1 <= i <= pieces.len(),
            items == texts_view(pieces@).skip(1),
            flags_view(flags@) == entries(d@, items.take(i - 1)),
        decreases pieces.len() - i,
    {
        let ghost before = flags_view(flags@);
        assert(items.take(i as int).drop_last() =~= items.take(i - 1));
        assert(items.take(i as int).last() == pieces@[i as int]@);
        match entry_chars(d, &pieces[i]) {
            Some(flag) => {
                let ghost value = flag@;
                flags.push(flag);
                assert(flags_view(flags@) =~= before.push(value));
            },
            None => {},
        }
        i += 1;
    }
    assert(items.take(pieces.len() - 1) =~= items);
    flags
}

/// The flag of an item has a form, and its forms begin with hyphens.
pub proof fn lemma_entry_well_formed(d: Dialect, item: Seq<char>)
    ensures
        match entry(d, item) {
            Some(flag) => flag.well_formed(),
            None => true,
        },
{
    match d {
        Dialect::Type1 => type1::lemma_entry_well_formed(item),
        Dialect::Type2 => type2::lemma_entry_well_formed(item),
        Dialect::Type4 => type4::lemma_entry_well_formed(item),
        Dialect::Darwin(name) => darwin::lemma_entry_well_formed(name, item),
    }
}

/// The flags of a list have forms, and their forms begin with hyphens.
pub proof fn lemma_entries_well_formed(d: Dialect, items: Seq<Seq<char>>)
    ensures
        forall|i: int| 0 <= i < entries(d, items).len() ==> (#[trigger] entries(d, items)[i]).well_formed(),
    decreases items.len(),
{
    if items.len() > 0 {
        lemma_entries_well_formed(d, items.drop_last());
        lemma_entry_well_formed(d, items.last());
        let rest = entries(d, items.drop_last());
        assert forall|i: int| 0 <= i < entries(d, items).len() implies (#[trigger] entries(
            d,
            items,
        )[i]).well_formed() by {
            if i < rest.len() {
                assert(entries(d, items)[i] == rest[i]);
            }
        }
    }
}

} // verus!
