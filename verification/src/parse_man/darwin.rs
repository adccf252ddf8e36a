//! Pages in the mdoc markup of Darwin: the options are the `.It` items that
//! follow `.Sh DESCRIPTION`.

use vstd::prelude::*;
use crate::parse_man::list::{entries_chars, lemma_split_nonempty, listed, Dialect, ListDialect};
use crate::parse_man::util::{flag_from_chars, flag_of, opt_flag_view};
use crate::pattern::{
    find, find_at, lit, replace_all, replace_all_chars, replace_first, replace_first_chars,
    split_chars, split_once, split_once_chars, Pat, Pattern,
};
use crate::text::chars_of;
use crate::{flags_view, Flag, FlagView};

verus! {

/// Whether `s` begins with a macro and its argument ` Fl `: a full stop, two
/// characters of the same line, and ` Fl `.
pub open spec fn is_flag_macro(s: Seq<char>) -> bool {
    s.len() >= 7 && s[0] == '.' && s[1] != '\n' && s[2] != '\n' && s[3] == ' ' && s[4] == 'F'
        && s[5] == 'l' && s[6] == ' '
}

/// `s` with a hyphen in place of each `Fl ` that is the argument of a macro:
/// `.It Fl a` becomes `.It -a`.
pub open spec fn dashed(s: Seq<char>) -> Seq<char>
    decreases s.len(),
{
    if s.len() == 0 {
        s
    } else if is_flag_macro(s) {
        s.take(3) + seq![' ', '-'] + dashed(s.skip(7))
    } else {
        seq![s[0]] + dashed(s.skip(1))
    }
}

/// The list of the page: the text from `.Sh DESCRIPTION` on, with hyphens
/// for the macro `Fl`.
pub open spec fn list_text(page_text: Seq<char>, start: int) -> Seq<char> {
    replace_all(Pat::Lit(".Fl "@), dashed(page_text.skip(start)), "-"@)
}

/// The flag of one item: its first line is the option line. The rest is the
/// description, with the name of the command for `.Nm`, up to the end of
/// the list, `.El` at the start of a line.
pub open spec fn entry(cmd_name: Seq<char>, item: Seq<char>) -> Option<FlagView> {
    match split_once(Pat::Lit("\n"@), item) {
        Some((options, desc)) => flag_of(
            options,
            Some(
                replace_first(
                    Pat::Rest("\n.El"@),
                    replace_all(Pat::Lit(".Nm"@), desc, cmd_name),
                    ""@,
                ),
            ),
        ),
        None => flag_of(item, None),
    }
}

/// The flags of a page in this dialect: those of the `.It` items after
/// `.Sh DESCRIPTION`. A page without that heading has none.
pub open spec fn flags(cmd_name: Seq<char>, page_text: Seq<char>) -> Seq<FlagView> {
    match find(Pat::Lit(".Sh DESCRIPTION"@), page_text, 0) {
        Some(start) => listed(
            Dialect::Darwin(cmd_name),
            Pat::Lit(".It"@),
            list_text(page_text, start),
        ),
        None => Seq::empty(),
    }
}

fn flag_macro_at(v: &Vec<char>, at: usize) -> (r: bool)
    requires
        at <= v.len(),
    ensures
        r == is_flag_macro(v@.skip(at as int)),
{
    v.len() - at >= 7 && v[at] == '.' && v[at + 1] != '\n' && v[at + 2] != '\n' && v[at + 3]
        == ' ' && v[at + 4] == 'F' && v[at + 5] == 'l' && v[at + 6] == ' '
}

fn dash_chars(v: &Vec<char>, from: usize) -> (r: Vec<char>)
    requires
        from <= v.len(),
    ensures
        r@ == dashed(v@.skip(from as int)),
{
    let mut r: Vec<char> = Vec::new();
    let mut i: usize = from;
    while i < v.len()
        invariant
            from <= i <= v.len(),
            dashed(v@.skip(from as int)) == r@ + dashed(v@.skip(i as int)),
        decreases v.len() - i,
    {
        let ghost before = r@;
        let ghost s = v@.skip(i as int);
        if flag_macro_at(v, i) {
            r.push(v[i]);
            r.push(v[i + 1]);
            r.push(v[i + 2]);
            r.push(' ');
            r.push('-');
            assert(s.skip(7) =~= v@.skip(i + 7));
            assert(r@ + dashed(s.skip(7)) =~= before + (s.take(3) + seq![' ', '-'] + dashed(
                s.skip(7),
            )));
            i += 7;
        } else {
            r.push(v[i]);
            assert(s.skip(1) =~= v@.skip(i + 1));
            assert(r@ + dashed(s.skip(1)) =~= before + (seq![s[0]] + dashed(s.skip(1))));
            i += 1;
        }
    }
    assert(r@ + Seq::<char>::empty() =~= r@);
    r
}

pub(crate) fn entry_chars(cmd_name: &Vec<char>, item: &Vec<char>) -> (r: Option<Flag>)
    ensures
        opt_flag_view(r) == entry(cmd_name@, item@),
{
    match split_once_chars(&lit("\n"), item) {
        Some((options, desc)) => {
            let desc = replace_all_chars(&lit(".Nm"), &desc, cmd_name);
            let desc = replace_first_chars(&Pattern::Rest(chars_of("\n.El")), &desc, &chars_of(""));
            flag_from_chars(&options, Some(&desc))
        },
        None => flag_from_chars(item, None),
    }
}

pub(crate) fn parse_chars(cmd_name: &str, page_text: &Vec<char>) -> (r: Vec<Flag>)
    ensures
        flags_view(r@) == flags(cmd_name@, page_text@),
{
    match find_at(&lit(".Sh DESCRIPTION"), page_text, 0) {
        Some((start, _)) => {
            let content = replace_all_chars(&lit(".Fl "), &dash_chars(page_text, start), &chars_of("-"));
            let items = split_chars(&lit(".It"), &content);
            proof {
                lemma_split_nonempty(Pat::Lit(".It"@), content@);
            }
            entries_chars(&ListDialect::Darwin(chars_of(cmd_name)), &items)
        },
        None => {
            let r: Vec<Flag> = Vec::new();
            assert(flags_view(r@) =~= Seq::<FlagView>::empty());
            r
        },
    }
}

/// Parses a page in the mdoc markup of Darwin.
pub fn parse(cmd_name: &str, page_text: &str) -> (r: Vec<Flag>)
    ensures
        flags_view(r@) == flags(cmd_name@, page_text@),
{
    parse_chars(cmd_name, &chars_of(page_text))
}

/// The flag of an item has a form, and its forms begin with hyphens.
pub proof fn lemma_entry_well_formed(cmd_name: Seq<char>, item: Seq<char>)
    ensures
        match entry(cmd_name, item) {
            Some(flag) => flag.well_formed(),
            None => true,
        },
{
    match split_once(Pat::Lit("\n"@), item) {
        Some((options, desc)) => {
            crate::parse_man::util::lemma_flag_has_forms(
                options,
                Some(
                    replace_first(
                        Pat::Rest("\n.El"@),
                        replace_all(Pat::Lit(".Nm"@), desc, cmd_name),
                        ""@,
                    ),
                ),
            );
        },
        None => {
            crate::parse_man::util::lemma_flag_has_forms(item, None);
        },
    }
}

/// The flags of a page have forms, and their forms begin with hyphens.
pub proof fn lemma_flags_well_formed(cmd_name: Seq<char>, page_text: Seq<char>)
    ensures
        forall|i: int|
            0 <= i < flags(cmd_name, page_text).len() ==> (#[trigger] flags(
                cmd_name,
                page_text,
            )[i]).well_formed(),
{
    match find(Pat::Lit(".Sh DESCRIPTION"@), page_text, 0) {
        Some(start) => {
            crate::parse_man::list::lemma_entries_well_formed(
                Dialect::Darwin(cmd_name),
                crate::pattern::split(Pat::Lit(".It"@), list_text(page_text, start)).skip(1),
            );
        },
        None => {},
    }
}

} // verus!
