//! The values that a caller gives on the command line, taken apart.

use vstd::prelude::*;
use vstd::string::StringExecFns;
use crate::parse_man::detect::strings_of;
use crate::parse_man::{cmd_name_of, get_cmd_name};
use crate::pattern::{lit, split, split_chars, split_once, split_once_chars, Pat};
use crate::text::{
    ascii_digit, chars_of, is_ascii_digit, is_regex, matching, regex_match, slice_of, string_of,
};
use crate::strs_view;

verus! {

/// The number that the decimal digits `s` stand for.
pub open spec fn digits_value(s: Seq<char>) -> nat
    decreases s.len(),
{
    if s.len() == 0 {
        0
    } else {
        digits_value(s.drop_last()) * 10 + (s.last() as nat - '0' as nat) as nat
    }
}

/// `s` without the plus sign that it may begin with.
pub open spec fn unsigned(s: Seq<char>) -> Seq<char> {
    if s.len() > 0 && s[0] == '+' {
        s.skip(1)
    } else {
        s
    }
}

/// Whether `s` is a number: decimal digits, at least one, possibly after a
/// plus sign.
pub open spec fn is_number(s: Seq<char>) -> bool {
    unsigned(s).len() > 0 && forall|i: int| 0 <= i < unsigned(s).len() ==> is_ascii_digit(unsigned(s)[i])
}

/// The section of the manual that `s` names: a number from 1 to 8.
pub open spec fn section_of(s: Seq<char>) -> Result<u8, Seq<char>> {
    if is_number(s) && digits_value(unsigned(s)) <= u8::MAX {
        if 1 <= digits_value(unsigned(s)) <= 8 {
            Ok(digits_value(unsigned(s)) as u8)
        } else {
            Err("must be between 1 and 8"@)
        }
    } else {
        Err("should be an int between 1 and 8"@)
    }
}

/// What is wrong with a mapping that has no `=`.
pub open spec fn mapping_form() -> Seq<char> {
    "subcommand mapping should be in the form 'manpage-name=sub command'"@
}

/// The page and the command of a mapping `manpage-name=sub command`: the
/// name before the first `=`, and the words after it, which single spaces
/// separate.
pub open spec fn mapping_of(s: Seq<char>) -> Result<(Seq<char>, Seq<Seq<char>>), Seq<char>> {
    match split_once(Pat::Lit("="@), s) {
        Some((page_name, as_subcmd)) => Ok((page_name, split(Pat::Lit(" "@), as_subcmd))),
        None => Err(mapping_form()),
    }
}

/// A number or a message, as values.
pub open spec fn section_view(r: Result<u8, String>) -> Result<u8, Seq<char>> {
    match r {
        Ok(n) => Ok(n),
        Err(e) => Err(e@),
    }
}

/// A mapping or a message, as values.
pub open spec fn mapping_view(r: Result<(String, Vec<String>), String>) -> Result<
    (Seq<char>, Seq<Seq<char>>),
    Seq<char>,
> {
    match r {
        Ok((page, words)) => Ok((page@, strs_view(words@))),
        Err(e) => Err(e@),
    }
}

/// The value of digits grows with each further digit.
proof fn lemma_value_grows(s: Seq<char>, i: int)
    requires
        0 <= i < s.len(),
        forall|k: int| 0 <= k < s.len() ==> is_ascii_digit(s[k]),
    ensures
        digits_value(s.take(i)) <= digits_value(s.take(i + 1)),
        digits_value(s.take(i + 1)) == digits_value(s.take(i)) * 10 + (s[i] as nat - '0' as nat),
{
    assert(s.take(i + 1).drop_last() =~= s.take(i));
}

/// Once the digits read so far stand for more than 255, all of them do.
proof fn lemma_value_stays_large(s: Seq<char>, i: int)
    requires
        0 <= i <= s.len(),
        forall|k: int| 0 <= k < s.len() ==> is_ascii_digit(s[k]),
        digits_value(s.take(i)) > u8::MAX,
    ensures
        digits_value(s) > u8::MAX,
    decreases s.len() - i,
{
    if i < s.len() {
        lemma_value_grows(s, i);
        lemma_value_stays_large(s, i + 1);
    } else {
        assert(s.take(i) =~= s);
    }
}

/// Reads the number of a section of the manual, from 1 to 8
pub fn section_num_parser(s: &str) -> (r: Result<u8, String>)
    ensures
        section_view(r) == section_of(s@),
{
    let v = chars_of(s);
    let digits = if v.len() > 0 && v[0] == '+' {
        slice_of(&v, 1, v.len())
    } else {
        slice_of(&v, 0, v.len())
    };
    assert(digits@ =~= unsigned(s@));
    if digits.len() == 0 {
        return Err(String::from_str("should be an int between 1 and 8"));
    }
    let mut acc: u32 = 0;
    let mut i: usize = 0;
    while i < digits.len()
        invariant
            i <= digits.len(),
            digits@ == unsigned(s@),
            forall|k: int| 0 <= k < i ==> is_ascii_digit(digits@[k]),
            acc == digits_value(digits@.take(i as int)),
            acc <= u8::MAX,
        decreases digits.len() - i,
    {
        let c = digits[i];
        if !ascii_digit(c) {
            return Err(String::from_str("should be an int between 1 and 8"));
        }
        let d: u32 = c as u32 - '0' as u32;
        assert(digits@.take(i + 1).drop_last() =~= digits@.take(i as int));
        if acc * 10 + d > 255 {
            let mut j: usize = i + 1;
            while j < digits.len()
                invariant
                    i < j <= digits.len(),
                    digits@ == unsigned(s@),
                    digits_value(digits@.take(i + 1)) > u8::MAX,
                    forall|k: int| 0 <= k < j ==> is_ascii_digit(digits@[k]),
                decreases digits.len() - j,
            {
                if !ascii_digit(digits[j]) {
                    return Err(String::from_str("should be an int between 1 and 8"));
                }
                j += 1;
            }
            proof {
                lemma_value_stays_large(digits@, i + 1);
            }
            return Err(String::from_str("should be an int between 1 and 8"));
        }
        acc = acc * 10 + d;
        i += 1;
    }
    assert(digits@.take(digits.len() as int) =~= digits@);
    if 1 <= acc && acc <= 8 {
        Ok(acc as u8)
    } else {
        Err(String::from_str("must be between 1 and 8"))
    }
}

/// Reads a mapping of the form `manpage-name=sub command`
pub fn subcmd_map_parser(s: &str) -> (r: Result<(String, Vec<String>), String>)
    ensures
        mapping_view(r) == mapping_of(s@),
{
    match split_once_chars(&lit("="), &chars_of(s)) {
        Some((page_name, as_subcmd)) => {
            let words = strings_of(&split_chars(&lit(" "), &as_subcmd));
            Ok((string_of(&page_name), words))
        },
        None => Err(
            String::from_str("subcommand mapping should be in the form 'manpage-name=sub command'"),
        ),
    }
}

/// The paths of a list in which colons separate them
pub fn split_paths(paths: &str) -> (r: Vec<String>)
    ensures
        strs_view(r@) == split(Pat::Lit(":"@), paths@),
{
    strings_of(&split_chars(&lit(":"), &chars_of(paths)))
}

/// What becomes of a page, given what the filters say of its command.
#[derive(Debug, Copy, Clone, PartialEq, Eq, Structural)]
pub enum Selection {
    /// The page is taken.
    Keep,
    /// The page is left out.
    Skip,
    /// The page is left out, though it was asked for by name: the command is
    /// both included and excluded.
    Conflict,
}

/// What becomes of a page: `included` says whether the filter of the
/// commands to take matches its command, `excluded` whether the filter of
/// the commands to leave out does; a filter that was not given says
/// nothing. A page is taken if no filter speaks against it, and exclusion
/// wins over inclusion.
pub open spec fn selection(included: Option<bool>, excluded: Option<bool>) -> Selection {
    if included == Some(false) {
        Selection::Skip
    } else if excluded != Some(true) {
        Selection::Keep
    } else if included == Some(true) {
        Selection::Conflict
    } else {
        Selection::Skip
    }
}

/// Decides whether a page is taken, from what the two filters say of its
/// command
pub fn select(included: Option<bool>, excluded: Option<bool>) -> (r: Selection)
    ensures
        r == selection(included, excluded),
{
    let wanted = match included {
        Some(matches) => matches,
        None => true,
    };
    let unwanted = match excluded {
        Some(matches) => matches,
        None => false,
    };
    if !wanted {
        Selection::Skip
    } else if !unwanted {
        Selection::Keep
    } else if included.is_some() {
        Selection::Conflict
    } else {
        Selection::Skip
    }
}

/// What a filter says of a name: nothing where no filter was given.
pub open spec fn filtered(filter: Option<Seq<char>>, name: Seq<char>) -> Option<bool> {
    match filter {
        Some(pattern) => Some(regex_match(pattern, name)),
        None => None,
    }
}

/// What is said of the page at index `i`: nothing where `said` does not
/// reach so far.
pub open spec fn said_of(said: Seq<Option<bool>>, i: int) -> Option<bool> {
    if 0 <= i < said.len() {
        said[i]
    } else {
        None
    }
}

/// The pages among the first `n` of `paths` that are taken, given what the
/// filters say of each.
pub open spec fn taken(paths: Seq<Seq<char>>, included: Seq<Option<bool>>, excluded: Seq<Option<bool>>, n: int) -> Seq<
    Seq<char>,
>
    decreases n,
{
    if n <= 0 || n > paths.len() {
        Seq::empty()
    } else if selection(said_of(included, n - 1), said_of(excluded, n - 1)) == Selection::Keep {
        taken(paths, included, excluded, n - 1).push(paths[n - 1])
    } else {
        taken(paths, included, excluded, n - 1)
    }
}

/// The commands of the pages among the first `n` of `paths` that are both
/// included and excluded, given what the filters say of each.
pub open spec fn conflicts(paths: Seq<Seq<char>>, included: Seq<Option<bool>>, excluded: Seq<Option<bool>>, n: int) -> Seq<
    Seq<char>,
>
    decreases n,
{
    if n <= 0 || n > paths.len() {
        Seq::empty()
    } else if selection(said_of(included, n - 1), said_of(excluded, n - 1)) == Selection::Conflict {
        conflicts(paths, included, excluded, n - 1).push(cmd_name_of(paths[n - 1]))
    } else {
        conflicts(paths, included, excluded, n - 1)
    }
}

/// What the filter `filter` says of the command of each of `paths`.
pub open spec fn verdicts(filter: Option<Seq<char>>, paths: Seq<Seq<char>>) -> Seq<Option<bool>> {
    Seq::new(paths.len(), |i: int| filtered(filter, cmd_name_of(paths[i])))
}

/// Whether a filter that was given is a regular expression.
pub open spec fn filter_ok(filter: Option<Seq<char>>) -> bool {
    match filter {
        Some(pattern) => is_regex(pattern),
        None => true,
    }
}

/// The pages that are taken, and the commands that are both included and
/// excluded.
#[derive(Debug, PartialEq, Eq)]
pub struct Pages {
    pub taken: Vec<String>,
    pub conflicts: Vec<String>,
}

/// What a filter says of each name
fn filter_names(filter: Option<&str>, names: &Vec<String>) -> (r: Option<Vec<Option<bool>>>)
    ensures
        r is Some <==> filter_ok(crate::text::opt_str_view(filter)),
        match r {
            Some(said) => said@.len() == names@.len() && forall|i: int|
                0 <= i < names@.len() ==> said@[i] == filtered(
                    crate::text::opt_str_view(filter),
                    #[trigger] names@[i]@,
                ),
            None => true,
        },
{
    let mut said: Vec<Option<bool>> = Vec::new();
    match filter {
        Some(pattern) => {
            match matching(pattern, names) {
                Some(found) => {
                    let mut i: usize = 0;
                    while i < found.len()
                        invariant
                            i <= found.len(),
                            found@.len() == names@.len(),
                            said@.len() == i,
                            forall|k: int| 0 <= k < i ==> said@[k] == Some(found@[k]),
                        decreases found.len() - i,
                    {
                        said.push(Some(found[i]));
                        i += 1;
                    }
                    Some(said)
                },
                None => None,
            }
        },
        None => {
            let mut i: usize = 0;
            while i < names.len()
                invariant
                    i <= names.len(),
                    said@.len() == i,
                    forall|k: int| 0 <= k < i ==> said@[k] == None::<bool>,
                decreases names.len() - i,
            {
                said.push(None);
                i += 1;
            }
            Some(said)
        },
    }
}

/// Picks the pages that are taken, given what the two filters say of the
/// command of each: `included[i]` and `excluded[i]` are what they say of
/// `paths[i]`, and nothing is said of a page that they do not reach.
pub fn pick_pages(paths: &Vec<String>, included: &Vec<Option<bool>>, excluded: &Vec<Option<bool>>) -> (r:
    Pages)
    ensures
        strs_view(r.taken@) == taken(strs_view(paths@), included@, excluded@, paths.len() as int),
        strs_view(r.conflicts@) == conflicts(
            strs_view(paths@),
            included@,
            excluded@,
            paths.len() as int,
        ),
{
    let ghost all = strs_view(paths@);
    let mut res: Vec<String> = Vec::new();
    let mut clashes: Vec<String> = Vec::new();
    let mut n: usize = 0;
    assert(strs_view(res@) =~= taken(all, included@, excluded@, 0));
    assert(strs_view(clashes@) =~= conflicts(all, included@, excluded@, 0));
    while n < paths.len()
        invariant
            n <= paths.len(),
            all == strs_view(paths@),
            strs_view(res@) == taken(all, included@, excluded@, n as int),
            strs_view(clashes@) == conflicts(all, included@, excluded@, n as int),
        decreases paths.len() - n,
    {
        let ghost kept = strs_view(res@);
        let ghost clashed = strs_view(clashes@);
        let wanted = if n < included.len() {
            included[n]
        } else {
            None
        };
        let unwanted = if n < excluded.len() {
            excluded[n]
        } else {
            None
        };
        match select(wanted, unwanted) {
            Selection::Keep => {
                res.push(paths[n].clone());
                assert(strs_view(res@) =~= kept.push(all[n as int]));
            },
            Selection::Skip => {},
            Selection::Conflict => {
                let name = get_cmd_name(paths[n].as_str());
                clashes.push(name);
                assert(strs_view(clashes@) =~= clashed.push(cmd_name_of(all[n as int])));
            },
        }
        n += 1;
    }
    Pages { taken: res, conflicts: clashes }
}

/// Picks the man pages whose commands are asked for
///
/// `paths` are the pages that were found. `wanted` is the regular expression
/// of the commands to take, `unwanted` that of the commands to leave out. A
/// command that both match is left out, and named in the result. Returns
/// nothing where a filter is no regular expression.
pub fn enumerate_manpages(paths: &Vec<String>, wanted: Option<&str>, unwanted: Option<&str>) -> (r:
    Option<Pages>)
    ensures
        r is Some <==> filter_ok(crate::text::opt_str_view(wanted)) && filter_ok(
            crate::text::opt_str_view(unwanted),
        ),
        match r {
            Some(pages) => strs_view(pages.taken@) == taken(
                strs_view(paths@),
                verdicts(crate::text::opt_str_view(wanted), strs_view(paths@)),
                verdicts(crate::text::opt_str_view(unwanted), strs_view(paths@)),
                paths.len() as int,
            ) && strs_view(pages.conflicts@) == conflicts(
                strs_view(paths@),
                verdicts(crate::text::opt_str_view(wanted), strs_view(paths@)),
                verdicts(crate::text::opt_str_view(unwanted), strs_view(paths@)),
                paths.len() as int,
            ),
            None => true,
        },
{
    let mut names: Vec<String> = Vec::new();
    let mut i: usize = 0;
    while i < paths.len()
        invariant
            i <= paths.len(),
            names@.len() == i,
            forall|k: int| 0 <= k < i ==> names@[k]@ == cmd_name_of(paths@[k]@),
        decreases paths.len() - i,
    {
        names.push(get_cmd_name(paths[i].as_str()));
        i += 1;
    }
    let included = match filter_names(wanted, &names) {
        Some(said) => said,
        None => {
            return None;
        },
    };
    let excluded = match filter_names(unwanted, &names) {
        Some(said) => said,
        None => {
            return None;
        },
    };
    assert(included@ =~= verdicts(crate::text::opt_str_view(wanted), strs_view(paths@))) by {
        assert forall|k: int| 0 <= k < paths@.len() implies included@[k] == filtered(
            crate::text::opt_str_view(wanted),
            cmd_name_of(strs_view(paths@)[k]),
        ) by {
            assert(included@[k] == filtered(crate::text::opt_str_view(wanted), names@[k]@));
        }
    }
    assert(excluded@ =~= verdicts(crate::text::opt_str_view(unwanted), strs_view(paths@))) by {
        assert forall|k: int| 0 <= k < paths@.len() implies excluded@[k] == filtered(
            crate::text::opt_str_view(unwanted),
            cmd_name_of(strs_view(paths@)[k]),
        ) by {
            assert(excluded@[k] == filtered(crate::text::opt_str_view(unwanted), names@[k]@));
        }
    }
    Some(pick_pages(paths, &included, &excluded))
}

} // verus!
