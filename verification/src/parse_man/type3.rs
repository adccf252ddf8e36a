//! Pages whose section `DESCRIPTION` holds the options as hanging paragraphs:
//! runs that `.HP` or `.TP` begins.

use vstd::prelude::*;
use crate::parse_man::util::{
    flag_from_chars, flag_of, opt_flag_view, plain, plain_chars, section, section_chars,
};
use crate::pattern::{find, find_at, lit, split_once, split_once_chars, Pat, Pattern};
use crate::text::{chars_of, slice_of, trim, trim_chars};
use crate::{flags_view, Flag, FlagView};

verus! {

/// The flag of one run. Where the run holds `.IP`, the option line stands
/// before it and the description after it. Else the first line of the run is
/// the option line and the rest the description, and a run of one line is
/// no flag.
pub open spec fn entry(run: Seq<char>) -> Option<FlagView> {
    match split_once(Pat::Lit(".IP"@), run) {
        Some((options, desc)) => flag_of(plain(options), Some(plain(desc))),
        None => match split_once(Pat::Lit("\n"@), trim(plain(run))) {
            Some((options, desc)) => flag_of(options, Some(desc)),
            None => None,
        },
    }
}

/// Where the run that begins at `start` ends: at the next `.HP`, `.PP` or
/// `.TP` after its own marker, or at the end of the text.
pub open spec fn run_end(content: Seq<char>, start: int) -> int {
    match find(Pat::HangingEnd, content, start + 3) {
        Some(end) => end,
        None => content.len() as int,
    }
}

/// The flags of the runs of `content` that begin at or after `from`.
pub open spec fn runs(content: Seq<char>, from: int) -> Seq<FlagView>
    decreases content.len() - from,
{
    match find(Pat::HangingStart, content, from) {
        Some(start) => {
            let end = run_end(content, start);
            if from <= start && start + 3 <= end <= content.len() {
                let rest = runs(content, end);
                match entry(content.subrange(start + 3, end)) {
                    Some(flag) => seq![flag] + rest,
                    None => rest,
                }
            } else {
                Seq::empty()
            }
        },
        None => Seq::empty(),
    }
}

/// The flags of a page in this dialect: those of the runs of the section
/// `DESCRIPTION`. A page without that section has none.
pub open spec fn flags(page_text: Seq<char>) -> Seq<FlagView> {
    match section("DESCRIPTION"@, page_text) {
        Some(content) => runs(content, 0),
        None => Seq::empty(),
    }
}

fn entry_chars(run: &Vec<char>) -> (r: Option<Flag>)
    ensures
        opt_flag_view(r) == entry(run@),
{
    match split_once_chars(&lit(".IP"), run) {
        Some((options, desc)) => flag_from_chars(&plain_chars(&options), Some(&plain_chars(&desc))),
        None => {
            let data = trim_chars(&plain_chars(run));
            match split_once_chars(&lit("\n"), &data) {
                Some((options, desc)) => flag_from_chars(&options, Some(&desc)),
                None => None,
            }
        },
    }
}

fn runs_chars(content: &Vec<char>) -> (r: Vec<Flag>)
    ensures
        flags_view(r@) == runs(content@, 0),
{
    let mut flags: Vec<Flag> = Vec::new();
    let mut last_end: usize = 0;
    assert(flags_view(flags@) =~= Seq::<FlagView>::empty());
    loop
        invariant_except_break
            last_end <= content.len(),
            runs(content@, 0) == flags_view(flags@) + runs(content@, last_end as int),
        ensures
            flags_view(flags@) == runs(content@, 0),
        decreases content.len() - last_end,
    {
        let ghost before = flags_view(flags@);
        match find_at(&Pattern::HangingStart, content, last_end) {
            Some((start, n)) => {
                let end = match find_at(&Pattern::HangingEnd, content, start + 3) {
                    Some((end, _)) => end,
                    None => content.len(),
                };
                let ghost rest = runs(content@, end as int);
                match entry_chars(&slice_of(content, start + 3, end)) {
                    Some(flag) => {
                        let ghost value = flag@;
                        flags.push(flag);
                        assert(flags_view(flags@) + rest =~= before + (seq![value] + rest));
                    },
                    None => {},
                }
                last_end = end;
            },
            None => {
                assert(before + Seq::<FlagView>::empty() =~= before);
                break ;
            },
        }
    }
    flags
}

pub(crate) fn parse_chars(page_text: &Vec<char>) -> (r: Vec<Flag>)
    ensures
        flags_view(r@) == flags(page_text@),
{
    match section_chars("DESCRIPTION", page_text) {
        Some(content) => runs_chars(&content),
        None => {
            let r: Vec<Flag> = Vec::new();
            assert(flags_view(r@) =~= Seq::<FlagView>::empty());
            r
        },
    }
}

/// Parses a page whose options are hanging paragraphs of the section
/// `DESCRIPTION`: `.TP` runs, and `.HP` runs with the description after `.IP`.
pub fn parse(cmd_name: &str, page_text: &str) -> (r: Vec<Flag>)
    ensures
        flags_view(r@) == flags(page_text@),
{
    parse_chars(&chars_of(page_text))
}

/// The flag of a run has a form, and its forms begin with hyphens.
pub proof fn lemma_entry_well_formed(run: Seq<char>)
    ensures
        match entry(run) {
            Some(flag) => flag.well_formed(),
            None => true,
        },
{
    match split_once(Pat::Lit(".IP"@), run) {
        Some((options, desc)) => {
            crate::parse_man::util::lemma_flag_has_forms(plain(options), Some(plain(desc)));
        },
        None => match split_once(Pat::Lit("\n"@), trim(plain(run))) {
            Some((options, desc)) => {
                crate::parse_man::util::lemma_flag_has_forms(options, Some(desc));
            },
            None => {},
        },
    }
}

/// The flags of the runs have forms, and their forms begin with hyphens.
pub proof fn lemma_runs_well_formed(content: Seq<char>, from: int)
    ensures
        forall|i: int|
            0 <= i < runs(content, from).len() ==> (#[trigger] runs(content, from)[i]).well_formed(),
    decreases content.len() - from,
{
    match find(Pat::HangingStart, content, from) {
        Some(start) => {
            let end = run_end(content, start);
            if from <= start && start + 3 <= end <= content.len() {
                lemma_runs_well_formed(content, end);
                lemma_entry_well_formed(content.subrange(start + 3, end));
                let rest = runs(content, end);
                assert forall|i: int| 0 <= i < runs(content, from).len() implies (#[trigger] runs(
                    content,
                    from,
                )[i]).well_formed() by {
                    match entry(content.subrange(start + 3, end)) {
                        Some(flag) => {
                            if i > 0 {
                                assert(runs(content, from)[i] == rest[i - 1]);
                            }
                        },
                        None => {},
                    }
                }
            }
        },
        None => {},
    }
}

/// The flags of a page have forms, and their forms begin with hyphens.
pub proof fn lemma_flags_well_formed(page_text: Seq<char>)
    ensures
        forall|i: int| 0 <= i < flags(page_text).len() ==> (#[trigger] flags(page_text)[i]).well_formed(),
{
    match section("DESCRIPTION"@, page_text) {
        Some(content) => {
            lemma_runs_well_formed(content, 0);
        },
        None => {},
    }
}

} // verus!
