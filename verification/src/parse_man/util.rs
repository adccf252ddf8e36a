//! What the parsers of the dialects share: sections, markup, flags.

use vstd::prelude::*;
use crate::pattern::{
    contains, contains_pattern, find, find_at, lemma_cut_drawn, lemma_split_drawn, lemma_split_free, lit,
    replace_all,
    replace_all_chars, replace_first, replace_first_chars, split, split_chars, texts_view, Pat,
    Pattern,
};
use crate::text::{
    chars_of, drawn_from, lemma_drawn_from_twice, lemma_subrange_drawn, lemma_trim_end_drawn,
    lemma_trim_end_last, lemma_trim_start_drawn, push_all, slice_of, string_of, trim, trim_chars, trim_end,
    trim_end_chars, trim_set, trim_set_chars, trim_start, whitespace,
};
use crate::{Flag, FlagView};

verus! {

/// The length after which a description is cut.
pub const MAX_DESC_LEN: usize = 80;

/// What stands at the end of a description that was cut.
pub open spec fn ellipsis() -> Seq<char> {
    seq!['.', '.', '.']
}

/// `desc` cut to [`MAX_DESC_LEN`] characters, the last three of them an
/// ellipsis; a description that is not longer is left as it is.
pub open spec fn abbreviated(desc: Seq<char>) -> Seq<char> {
    if desc.len() > MAX_DESC_LEN {
        desc.take(MAX_DESC_LEN - 3) + ellipsis()
    } else {
        desc
    }
}

/// `s` without the whitespace around it, its newlines turned into spaces,
/// cut to at most `len` characters.
pub open spec fn truncated(s: Seq<char>, len: nat) -> Seq<char> {
    let line = replace_all(Pat::Lit("\n"@), trim(s), " "@);
    if line.len() > len {
        line.take(len as int)
    } else {
        line
    }
}

/// `desc` with one space after each full stop that whitespace follows, then
/// abbreviated.
pub open spec fn trimmed_desc(desc: Seq<char>) -> Seq<char> {
    abbreviated(replace_all(Pat::SentenceGap, desc, ". "@))
}

/// The heading that opens the section `title`.
pub open spec fn heading(title: Seq<char>) -> Seq<char> {
    ".SH "@ + title
}

/// The text of the first section headed `title`: what stands between its
/// heading and the next `.SH`, or the end of the page.
pub open spec fn section(title: Seq<char>, text: Seq<char>) -> Option<Seq<char>> {
    match find(Pat::Lit(heading(title)), text, 0) {
        Some(i) => {
            let start = i + heading(title).len();
            match find(Pat::Lit(".SH"@), text, start) {
                Some(end) => Some(text.subrange(start, end)),
                None => Some(text.skip(start)),
            }
        },
        None => None,
    }
}

/// The replacements that take the markup out of a text, in the order in
/// which they are made: each marker with what takes its place.
pub open spec fn markup() -> Seq<(Pat, Seq<char>)> {
    seq![
        (Pat::Lit("\\fI"@), ""@),
        (Pat::Lit("\\fP"@), ""@),
        (Pat::Lit("\\f1"@), ""@),
        (Pat::Lit("\\fB"@), ""@),
        (Pat::Lit("\\fR"@), ""@),
        (Pat::Lit("\\e"@), ""@),
        (Pat::ParagraphDistance, ""@),
        (Pat::Lit(".BI"@), ""@),
        (Pat::Lit(".BR"@), ""@),
        (Pat::Lit(".B"@), ""@),
        (Pat::Lit("0.5i"@), ""@),
        (Pat::Lit(".rb"@), ""@),
        (Pat::Lit("\\^"@), ""@),
        (Pat::Lit("{ "@), ""@),
        (Pat::Lit(" }"@), ""@),
        (Pat::Lit("\\ "@), " "@),
        (Pat::Lit("\\-"@), "-"@),
        (Pat::Lit("\\&"@), ""@),
        (Pat::Lit("\u{c}"@), ""@),
        (Pat::QuoteGlyph, "'"@),
        (Pat::Lit(".Pp"@), ""@),
        (Pat::LineSpace, ""@),
    ]
}

/// `s` after the first `n` of the replacements `steps`.
pub open spec fn rewritten(s: Seq<char>, steps: Seq<(Pat, Seq<char>)>, n: nat) -> Seq<char>
    decreases n,
{
    if n == 0 || n > steps.len() {
        s
    } else {
        replace_all(steps[n - 1].0, rewritten(s, steps, (n - 1) as nat), steps[n - 1].1)
    }
}

/// `data` after all the replacements of the markup, made once, in their
/// order.
pub open spec fn once(data: Seq<char>) -> Seq<char> {
    rewritten(data, markup(), markup().len())
}

/// `data` without its font changes, spacing directives and escapes: the
/// replacements of the markup are made, all of them in their order, again
/// and again until they change nothing. Each replacement shortens the
/// text, so this ends, and no marker is left in the result.
pub open spec fn plain(data: Seq<char>) -> Seq<char>
    decreases data.len(),
{
    let next = once(data);
    if next.len() < data.len() {
        plain(next)
    } else {
        next
    }
}

/// `s` without the quotes around it, if it stands in single or in double quotes.
pub open spec fn unquoted(s: Seq<char>) -> Seq<char> {
    if s.len() >= 2 && ((s[0] == '"' && s.last() == '"') || (s[0] == '\'' && s.last() == '\'')) {
        s.subrange(1, s.len() - 1)
    } else {
        s
    }
}

/// The characters that separate the spellings of a flag.
pub open spec fn delimiters() -> Seq<char> {
    seq![' ', ',', '=', '"', '|']
}

/// The characters that are taken off both ends of a spelling.
pub open spec fn punctuation() -> Seq<char> {
    seq![' ', '\t', '\r', '\n', '[', ']', '(', ')', '{', '}', '.', ':', '!']
}

/// A token of the option line without its optional argument in brackets,
/// its placeholder in angle brackets and what follows a hyphen that a
/// bracket or parenthesis comes after, and then without the punctuation
/// around what is left.
pub open spec fn cleaned(token: Seq<char>) -> Seq<char> {
    let t = replace_first(Pat::Bracketed, token, ""@);
    let t = replace_first(Pat::Placeholder, t, ""@);
    let t = replace_first(Pat::HyphenGroup, t, ""@);
    trim_set(t, punctuation())
}

/// Whether `t` is the spelling of a flag: it begins with a hyphen, is more
/// than hyphens alone, and holds no `{}()`.
pub open spec fn is_form(t: Seq<char>) -> bool {
    t.len() > 0 && t[0] == '-' && t != seq!['-'] && t != seq!['-', '-'] && !contains(
        Pat::Lit("{}()"@),
        t,
    )
}

/// The spellings among the cleaned `tokens`, each once, in the order in
/// which they first appear: a cleaned token is kept if it is a form and is
/// not among the forms kept before it.
pub open spec fn forms_of(tokens: Seq<Seq<char>>) -> Seq<Seq<char>>
    decreases tokens.len(),
{
    if tokens.len() == 0 {
        Seq::empty()
    } else {
        let rest = forms_of(tokens.drop_last());
        if is_form(cleaned(tokens.last())) && !rest.contains(cleaned(tokens.last())) {
            rest.push(cleaned(tokens.last()))
        } else {
            rest
        }
    }
}

/// The tokens of an option line: the pieces between its delimiters, once the
/// whitespace and the quotes around the line are gone.
pub open spec fn tokens_of(options: Seq<char>) -> Seq<Seq<char>> {
    split(Pat::OneOf(delimiters()), unquoted(trim(options)))
}

/// The description of a flag as it is kept: without a heading `.SS` and what
/// follows it, on one line, without full stops at its end, without the
/// escapes `\'` and `\.`, with single spaces after its sentences, abbreviated.
pub open spec fn described(desc: Seq<char>) -> Seq<char> {
    let d = replace_first(Pat::Rest(".SS"@), desc, ""@);
    let d = replace_all(Pat::Lit("\n"@), trim(d), " "@);
    let d = trim_end(d, seq!['.']);
    let d = replace_all(Pat::Lit("\\'"@), d, ""@);
    let d = replace_all(Pat::Lit("\\."@), d, ""@);
    trimmed_desc(d)
}

/// The flag that an option line and its description stand for, if the line
/// holds a spelling.
pub open spec fn flag_of(options: Seq<char>, desc: Option<Seq<char>>) -> Option<FlagView> {
    let forms = forms_of(tokens_of(options));
    if forms.len() == 0 {
        None
    } else {
        Some(
            FlagView {
                forms,
                desc: match desc {
                    Some(d) => if described(d).len() == 0 {
                        None
                    } else {
                        Some(described(d))
                    },
                    None => None,
                },
                typ: None,
            },
        )
    }
}

/// The value of an optional flag.
pub open spec fn opt_flag_view(f: Option<Flag>) -> Option<FlagView> {
    match f {
        Some(f) => Some(f@),
        None => None,
    }
}

/// The markers of a list of replacements, with what takes their place.
pub open spec fn steps_view(v: Seq<(Pattern, Vec<char>)>) -> Seq<(Pat, Seq<char>)> {
    Seq::new(v.len(), |i: int| (v[i].0@, v[i].1@))
}

/// `desc` cut to [`MAX_DESC_LEN`] characters, ellipsis included.
pub fn abbreviate_chars(desc: Vec<char>) -> (r: Vec<char>)
    ensures
        r@ == abbreviated(desc@),
{
    if desc.len() > MAX_DESC_LEN {
        let mut r = slice_of(&desc, 0, MAX_DESC_LEN - 3);
        r.push('.');
        r.push('.');
        r.push('.');
        assert(r@ =~= desc@.take(MAX_DESC_LEN - 3) + ellipsis());
        r
    } else {
        desc
    }
}

/// Cuts a description that is longer than [`MAX_DESC_LEN`] characters, and
/// ends it in an ellipsis.
pub fn abbreviate(desc: &str) -> (r: String)
    ensures
        r@ == abbreviated(desc@),
{
    string_of(&abbreviate_chars(chars_of(desc)))
}

/// Truncates to at most `len` characters, as well as trims and removes newlines
pub fn truncate(s: &str, len: usize) -> (r: String)
    ensures
        r@ == truncated(s@, len as nat),
{
    let line = replace_all_chars(&lit("\n"), &trim_chars(&chars_of(s)), &chars_of(" "));
    if line.len() > len {
        string_of(&slice_of(&line, 0, len))
    } else {
        string_of(&line)
    }
}

fn trim_desc_chars(desc: &Vec<char>) -> (r: Vec<char>)
    ensures
        r@ == trimmed_desc(desc@),
{
    abbreviate_chars(replace_all_chars(&Pattern::SentenceGap, desc, &chars_of(". ")))
}

/// Removes the extra spaces after the ends of sentences, and abbreviates.
pub fn trim_desc(desc: &str) -> (r: String)
    ensures
        r@ == trimmed_desc(desc@),
        trimmed_desc(r@) == r@,
{
    proof {
        lemma_trimmed_twice(desc@);
    }
    string_of(&trim_desc_chars(&chars_of(desc)))
}

pub(crate) fn section_chars(title: &str, text: &Vec<char>) -> (r: Option<Vec<char>>)
    ensures
        crate::text::opt_chars_view(r) == section(title@, text@),
{
    let mut head = chars_of(".SH ");
    push_all(&mut head, &chars_of(title));
    let head_len = head.len();
    match find_at(&Pattern::Lit(head), text, 0) {
        Some((i, n)) => {
            let start = i + head_len;
            match find_at(&lit(".SH"), text, start) {
                Some((end, _)) => Some(slice_of(text, start, end)),
                None => Some(slice_of(text, start, text.len())),
            }
        },
        None => None,
    }
}

/// Get the contents of a section with the given title
pub fn get_section(title: &str, text: &str) -> (r: Option<String>)
    ensures
        crate::opt_view(r) == section(title@, text@),
{
    match section_chars(title, &chars_of(text)) {
        Some(content) => Some(string_of(&content)),
        None => None,
    }
}

fn markup_steps() -> (r: Vec<(Pattern, Vec<char>)>)
    ensures
        steps_view(r@) == markup(),
{
    let r = vec![
        (lit("\\fI"), chars_of("")),
        (lit("\\fP"), chars_of("")),
        (lit("\\f1"), chars_of("")),
        (lit("\\fB"), chars_of("")),
        (lit("\\fR"), chars_of("")),
        (lit("\\e"), chars_of("")),
        (Pattern::ParagraphDistance, chars_of("")),
        (lit(".BI"), chars_of("")),
        (lit(".BR"), chars_of("")),
        (lit(".B"), chars_of("")),
        (lit("0.5i"), chars_of("")),
        (lit(".rb"), chars_of("")),
        (lit("\\^"), chars_of("")),
        (lit("{ "), chars_of("")),
        (lit(" }"), chars_of("")),
        (lit("\\ "), chars_of(" ")),
        (lit("\\-"), chars_of("-")),
        (lit("\\&"), chars_of("")),
        (lit("\u{c}"), chars_of("")),
        (Pattern::QuoteGlyph, chars_of("'")),
        (lit(".Pp"), chars_of("")),
        (Pattern::LineSpace, chars_of("")),
    ];
    assert(steps_view(r@) =~= markup());
    r
}

fn once_chars(steps: &Vec<(Pattern, Vec<char>)>, data: &Vec<char>) -> (r: Vec<char>)
    requires
        steps_view(steps@) == markup(),
    ensures
        r@ == once(data@),
{
    let mut r = slice_of(data, 0, data.len());
    assert(r@ =~= data@);
    let mut i: usize = 0;
    while i < steps.len()
        invariant
            i <= steps.len(),
            steps_view(steps@) == markup(),
            r@ == rewritten(data@, markup(), i as nat),
        decreases steps.len() - i,
    {
        assert(steps_view(steps@)[i as int] == markup()[i as int]);
        r = replace_all_chars(&steps[i].0, &r, &steps[i].1);
        i += 1;
    }
    r
}

pub(crate) fn plain_chars(data: &Vec<char>) -> (r: Vec<char>)
    ensures
        r@ == plain(data@),
{
    let steps = markup_steps();
    let mut current = once_chars(&steps, data);
    let mut len: usize = data.len();
    while current.len() < len
        invariant
            steps_view(steps@) == markup(),
            plain(data@) == (if current@.len() < len {
                plain(current@)
            } else {
                current@
            }),
        decreases len,
    {
        len = current.len();
        current = once_chars(&steps, &current);
    }
    current
}

/// Takes the font changes, spacing directives and escapes out of a text,
/// until none is left: to take them out of the result once more changes
/// nothing.
pub fn remove_groff_formatting(data: &str) -> (r: String)
    ensures
        r@ == plain(data@),
        is_plain(r@),
        plain(r@) == r@,
{
    proof {
        lemma_plain_is_plain(data@);
        lemma_plain_twice(data@);
    }
    string_of(&plain_chars(&chars_of(data)))
}

fn unquote_chars(s: Vec<char>) -> (r: Vec<char>)
    ensures
        r@ == unquoted(s@),
{
    let n = s.len();
    if n >= 2 && ((s[0] == '"' && s[n - 1] == '"') || (s[0] == '\'' && s[n - 1] == '\'')) {
        slice_of(&s, 1, n - 1)
    } else {
        s
    }
}

fn clean_chars(token: &Vec<char>) -> (r: Vec<char>)
    ensures
        r@ == cleaned(token@),
{
    let nothing = chars_of("");
    let t = replace_first_chars(&Pattern::Bracketed, token, &nothing);
    let t = replace_first_chars(&Pattern::Placeholder, &t, &nothing);
    let t = replace_first_chars(&Pattern::HyphenGroup, &t, &nothing);
    let set = vec![' ', '\t', '\r', '\n', '[', ']', '(', ')', '{', '}', '.', ':', '!'];
    assert(set@ =~= punctuation());
    trim_set_chars(&t, &set)
}

fn is_form_chars(t: &Vec<char>) -> (r: bool)
    ensures
        r == is_form(t@),
{
    if t.len() == 0 || t[0] != '-' {
        return false;
    }
    if t.len() == 1 {
        assert(t@ =~= seq!['-']);
        return false;
    }
    if t.len() == 2 && t[1] == '-' {
        assert(t@ =~= seq!['-', '-']);
        return false;
    }
    assert(t@ != seq!['-', '-']) by {
        if t@.len() == 2 {
            assert(seq!['-', '-'][1] == '-');
        }
    }
    !contains_pattern(&lit("{}()"), t)
}

fn describe_chars(desc: &Vec<char>) -> (r: Vec<char>)
    ensures
        r@ == described(desc@),
{
    let nothing = chars_of("");
    let d = replace_first_chars(&Pattern::Rest(chars_of(".SS")), desc, &nothing);
    let d = replace_all_chars(&lit("\n"), &trim_chars(&d), &chars_of(" "));
    let stop = vec!['.'];
    assert(stop@ =~= seq!['.']);
    let d = trim_end_chars(&d, &stop);
    let d = replace_all_chars(&lit("\\'"), &d, &nothing);
    let d = replace_all_chars(&lit("\\."), &d, &nothing);
    trim_desc_chars(&d)
}

pub(crate) fn flag_from_chars(options: &Vec<char>, desc: Option<&Vec<char>>) -> (r: Option<Flag>)
    ensures
        opt_flag_view(r) == flag_of(options@, crate::text::opt_ref_view(desc)),
{
    let line = unquote_chars(trim_chars(options));
    let set = vec![' ', ',', '=', '"', '|'];
    assert(set@ =~= delimiters());
    let tokens = split_chars(&Pattern::OneOf(set), &line);
    let mut forms: Vec<String> = Vec::new();
    let mut i: usize = 0;
    assert(crate::strs_view(forms@) =~= forms_of(texts_view(tokens@).take(0)));
    while i < tokens.len()
        invariant
            i <= tokens.len(),
            crate::strs_view(forms@) == forms_of(texts_view(tokens@).take(i as int)),
        decreases tokens.len() - i,
    {
        let ghost all = texts_view(tokens@);
        assert(all.take(i + 1).drop_last() =~= all.take(i as int));
        let ghost before = crate::strs_view(forms@);
        let form = clean_chars(&tokens[i]);
        if is_form_chars(&form) {
            let spelling = string_of(&form);
            if !crate::text::holds(&forms, &spelling) {
                forms.push(spelling);
                assert(crate::strs_view(forms@) =~= before.push(form@));
            }
        }
        i += 1;
    }
    assert(texts_view(tokens@).take(tokens.len() as int) =~= texts_view(tokens@));
    if forms.len() == 0 {
        return None;
    }
    let desc = match desc {
        Some(d) => {
            let d = describe_chars(d);
            if d.len() == 0 {
                None
            } else {
                Some(string_of(&d))
            }
        },
        None => None,
    };
    Some(Flag { forms, desc, typ: None })
}

/// Parse the line of options of a flag and the description after it
///
/// Returns no flag where the line holds no spelling of one.
pub fn make_flag(options: &str, desc: Option<&str>) -> (r: Option<Flag>)
    ensures
        opt_flag_view(r) == flag_of(options@, crate::text::opt_str_view(desc)),
        r is None <==> forms_of(tokens_of(options@)).len() == 0,
        match r {
            Some(flag) => flag@.well_formed() && flag@.typ is None && (forall|i: int|
                0 <= i < flag@.forms.len() ==> is_spelling(#[trigger] flag@.forms[i])) && (forall|
                i: int,
                j: int,
            |
                0 <= i < j < flag@.forms.len() ==> flag@.forms[i] != flag@.forms[j]),
            None => true,
        },
{
    proof {
        lemma_flag_has_forms(options@, crate::text::opt_str_view(desc));
        lemma_forms_are_spellings(options@);
    }
    let options = chars_of(options);
    match desc {
        Some(d) => {
            let d = chars_of(d);
            flag_from_chars(&options, Some(&d))
        },
        None => flag_from_chars(&options, None),
    }
}

/// Whether the token `t`, once it is cleaned, begins with a hyphen.
pub open spec fn hyphen_prefixed(t: Seq<char>) -> bool {
    cleaned(t).len() > 0 && cleaned(t)[0] == '-'
}

/// Every spelling that is kept begins with a hyphen, and is a cleaned token
/// that is a form.
pub proof fn lemma_forms_begin_with_hyphen(tokens: Seq<Seq<char>>)
    ensures
        forall|i: int|
            0 <= i < forms_of(tokens).len() ==> is_form(#[trigger] forms_of(tokens)[i]) && forms_of(
                tokens,
            )[i].len() > 0 && forms_of(tokens)[i][0] == '-',
    decreases tokens.len(),
{
    if tokens.len() > 0 {
        lemma_forms_begin_with_hyphen(tokens.drop_last());
        let rest = forms_of(tokens.drop_last());
        assert forall|i: int| 0 <= i < forms_of(tokens).len() implies is_form(
            #[trigger] forms_of(tokens)[i],
        ) by {
            if i < rest.len() {
                assert(forms_of(tokens)[i] == rest[i]);
            } else {
                assert(forms_of(tokens)[i] == cleaned(tokens.last()));
            }
        }
    }
}

/// Tokens of which none begins with a hyphen, once cleaned, give no spelling.
pub proof fn lemma_no_hyphen_no_form(tokens: Seq<Seq<char>>)
    requires
        forall|i: int| 0 <= i < tokens.len() ==> !hyphen_prefixed(#[trigger] tokens[i]),
    ensures
        forms_of(tokens).len() == 0,
    decreases tokens.len(),
{
    if tokens.len() > 0 {
        assert(!hyphen_prefixed(tokens[tokens.len() - 1]));
        assert forall|i: int| 0 <= i < tokens.drop_last().len() implies !hyphen_prefixed(
            #[trigger] tokens.drop_last()[i],
        ) by {
            assert(tokens.drop_last()[i] == tokens[i]);
        }
        lemma_no_hyphen_no_form(tokens.drop_last());
    }
}

/// No spelling is kept twice.
pub proof fn lemma_forms_distinct(tokens: Seq<Seq<char>>)
    ensures
        forall|i: int, j: int|
            0 <= i < j < forms_of(tokens).len() ==> forms_of(tokens)[i] != forms_of(tokens)[j],
    decreases tokens.len(),
{
    if tokens.len() > 0 {
        lemma_forms_distinct(tokens.drop_last());
        let rest = forms_of(tokens.drop_last());
        let all = forms_of(tokens);
        assert forall|i: int, j: int| 0 <= i < j < all.len() implies all[i] != all[j] by {
            assert(all[i] == rest[i]);
            if j < rest.len() {
                assert(all[j] == rest[j]);
            } else {
                assert(all[j] == cleaned(tokens.last()));
                assert(!rest.contains(cleaned(tokens.last())));
            }
        }
    }
}

/// A form that is kept is the cleaned form of a token; each cleaned token
/// that is a form is among the forms that are kept.
pub proof fn lemma_forms_complete(tokens: Seq<Seq<char>>, k: int)
    requires
        0 <= k < tokens.len(),
        is_form(cleaned(tokens[k])),
    ensures
        forms_of(tokens).contains(cleaned(tokens[k])),
    decreases tokens.len(),
{
    let rest = forms_of(tokens.drop_last());
    let all = forms_of(tokens);
    let last = cleaned(tokens.last());
    if k < tokens.len() - 1 {
        assert(tokens.drop_last()[k] == tokens[k]);
        lemma_forms_complete(tokens.drop_last(), k);
        let i = choose|i: int| 0 <= i < rest.len() && rest[i] == cleaned(tokens[k]);
        assert(all[i] == rest[i]);
    } else if rest.contains(last) {
    } else {
        assert(all[all.len() - 1] == last);
    }
}

/// A flag that is made has at least one form, each of its forms begins
/// with a hyphen, and no form stands twice.
pub proof fn lemma_flag_has_forms(options: Seq<char>, desc: Option<Seq<char>>)
    ensures
        match flag_of(options, desc) {
            Some(flag) => flag.well_formed(),
            None => true,
        },
{
    lemma_forms_begin_with_hyphen(tokens_of(options));
    lemma_forms_distinct(tokens_of(options));
}

/// An option line of which no token begins with a hyphen, once cleaned,
/// makes no flag.
pub proof fn lemma_no_hyphen_no_flag(options: Seq<char>, desc: Option<Seq<char>>)
    requires
        forall|i: int|
            0 <= i < tokens_of(options).len() ==> !hyphen_prefixed(#[trigger] tokens_of(options)[i]),
    ensures
        flag_of(options, desc) is None,
{
    lemma_no_hyphen_no_form(tokens_of(options));
}

/// Whether `f` is a spelling as a flag keeps it: it begins with a hyphen,
/// is more than hyphens alone, holds none of the characters that separate
/// spellings, and does not end in punctuation.
pub open spec fn is_spelling(f: Seq<char>) -> bool {
    &&& f.len() > 0
    &&& f[0] == '-'
    &&& f != seq!['-']
    &&& f != seq!['-', '-']
    &&& forall|i: int| 0 <= i < f.len() ==> !delimiters().contains(#[trigger] f[i])
    &&& !punctuation().contains(f[0])
    &&& !punctuation().contains(f.last())
}

/// A cleaned token holds no character that the token does not hold.
pub proof fn lemma_cleaned_from_token(token: Seq<char>)
    ensures
        drawn_from(cleaned(token), token),
{
    let a = replace_first(Pat::Bracketed, token, ""@);
    let b = replace_first(Pat::Placeholder, a, ""@);
    let c = replace_first(Pat::HyphenGroup, b, ""@);
    let d = trim_set(c, punctuation());
    assert(""@ =~= Seq::<char>::empty()) by {
        reveal_strlit("");
    }
    lemma_cut_drawn(Pat::Bracketed, token);
    lemma_cut_drawn(Pat::Placeholder, a);
    lemma_cut_drawn(Pat::HyphenGroup, b);
    lemma_trim_start_drawn(c, punctuation());
    lemma_trim_end_drawn(trim_start(c, punctuation()), punctuation());
    lemma_drawn_from_twice(d, trim_start(c, punctuation()), c);
    lemma_drawn_from_twice(b, a, token);
    lemma_drawn_from_twice(c, b, token);
    lemma_drawn_from_twice(d, c, token);
}

/// The forms of a flag that is made are spellings: none is a hyphen or two
/// alone, none holds a character that separates spellings, and none begins
/// or ends with punctuation.
pub proof fn lemma_forms_are_spellings(options: Seq<char>)
    ensures
        forall|i: int|
            0 <= i < forms_of(tokens_of(options)).len() ==> is_spelling(
                #[trigger] forms_of(tokens_of(options))[i],
            ),
{
    lemma_split_free(delimiters(), unquoted(trim(options)));
    lemma_kept_are_spellings(tokens_of(options));
}

proof fn lemma_kept_are_spellings(tokens: Seq<Seq<char>>)
    requires
        forall|k: int, i: int|
            0 <= k < tokens.len() && 0 <= i < tokens[k].len() ==> !delimiters().contains(
                #[trigger] tokens[k][i],
            ),
    ensures
        forall|i: int| 0 <= i < forms_of(tokens).len() ==> is_spelling(#[trigger] forms_of(tokens)[i]),
    decreases tokens.len(),
{
    if tokens.len() > 0 {
        let rest = tokens.drop_last();
        assert forall|k: int, i: int| 0 <= k < rest.len() && 0 <= i < rest[k].len() implies
            !delimiters().contains(#[trigger] rest[k][i]) by {
            assert(rest[k] == tokens[k]);
        }
        lemma_kept_are_spellings(rest);
        let token = tokens.last();
        let c = cleaned(token);
        if is_form(c) {
            lemma_cleaned_from_token(token);
            let cut = replace_first(
                Pat::HyphenGroup,
                replace_first(Pat::Placeholder, replace_first(Pat::Bracketed, token, ""@), ""@),
                ""@,
            );
            lemma_trim_end_last(trim_start(cut, punctuation()), punctuation());
            assert forall|i: int| 0 <= i < c.len() implies !delimiters().contains(#[trigger] c[i]) by {
                let j = choose|j: int| 0 <= j < token.len() && token[j] == c[i];
                assert(!delimiters().contains(tokens[tokens.len() - 1][j]));
            }
            assert(!punctuation().contains('-'));
            assert(is_spelling(c));
        }
        assert forall|i: int| 0 <= i < forms_of(tokens).len() implies is_spelling(
            #[trigger] forms_of(tokens)[i],
        ) by {
            if i < forms_of(rest).len() {
                assert(forms_of(tokens)[i] == forms_of(rest)[i]);
            }
        }
    }
}

/// A cleaned token holds no character that the option line does not hold.
pub proof fn lemma_cleaned_drawn(options: Seq<char>, k: int)
    requires
        0 <= k < tokens_of(options).len(),
    ensures
        drawn_from(cleaned(tokens_of(options)[k]), options),
{
    let trimmed = trim(options);
    lemma_trim_start_drawn(options, whitespace());
    lemma_trim_end_drawn(trim_start(options, whitespace()), whitespace());
    lemma_drawn_from_twice(trimmed, trim_start(options, whitespace()), options);
    let line = unquoted(trimmed);
    if line != trimmed {
        lemma_subrange_drawn(trimmed, 1, trimmed.len() - 1);
    } else {
        lemma_subrange_drawn(trimmed, 0, trimmed.len() as int);
        assert(trimmed.subrange(0, trimmed.len() as int) =~= trimmed);
    }
    lemma_drawn_from_twice(line, trimmed, options);
    lemma_split_drawn(Pat::OneOf(delimiters()), line);
    let token = tokens_of(options)[k];
    lemma_drawn_from_twice(token, line, options);
    let a = replace_first(Pat::Bracketed, token, ""@);
    let b = replace_first(Pat::Placeholder, a, ""@);
    let c = replace_first(Pat::HyphenGroup, b, ""@);
    let d = trim_set(c, punctuation());
    assert(""@ =~= Seq::<char>::empty()) by {
        reveal_strlit("");
    }
    lemma_cut_drawn(Pat::Bracketed, token);
    lemma_cut_drawn(Pat::Placeholder, a);
    lemma_cut_drawn(Pat::HyphenGroup, b);
    lemma_trim_start_drawn(c, punctuation());
    lemma_trim_end_drawn(trim_start(c, punctuation()), punctuation());
    lemma_drawn_from_twice(d, trim_start(c, punctuation()), c);
    lemma_drawn_from_twice(a, token, options);
    lemma_drawn_from_twice(b, a, options);
    lemma_drawn_from_twice(c, b, options);
    lemma_drawn_from_twice(d, c, options);
}

/// An option line without a hyphen makes no flag.
pub proof fn lemma_line_without_hyphen(options: Seq<char>, desc: Option<Seq<char>>)
    requires
        !options.contains('-'),
    ensures
        flag_of(options, desc) is None,
{
    assert forall|i: int| 0 <= i < tokens_of(options).len() implies !hyphen_prefixed(
        #[trigger] tokens_of(options)[i],
    ) by {
        lemma_cleaned_drawn(options, i);
        let c = cleaned(tokens_of(options)[i]);
        if c.len() > 0 {
            assert(options.contains(c[0]));
        }
    }
    lemma_no_hyphen_no_flag(options, desc);
}

/// Whether `data` holds no markup: none of the markers that are replaced
/// stands in it.
pub open spec fn is_plain(data: Seq<char>) -> bool {
    forall|k: int| 0 <= k < markup().len() ==> !contains(#[trigger] markup()[k].0, data)
}

/// The length that a match of `p` has at least.
pub open spec fn least_match(p: Pat) -> nat {
    match p {
        Pat::Lit(l) => l.len(),
        Pat::QuoteGlyph => 4,
        Pat::ParagraphDistance => 5,
        _ => 1,
    }
}

/// Whether what takes the place of a match of `p` is shorter than any match.
pub open spec fn shrinks(p: Pat, to: Seq<char>) -> bool {
    to.len() < least_match(p)
}

/// A match is not shorter than the least length of one.
proof fn lemma_match_at_least(p: Pat, s: Seq<char>)
    ensures
        crate::pattern::match_len(p, s) > 0 ==> crate::pattern::match_len(p, s) >= least_match(p),
{
}

/// A replacement that shrinks makes no text longer, and makes a text
/// shorter in which the marker stands.
pub proof fn lemma_replace_shrinks(p: Pat, s: Seq<char>, to: Seq<char>)
    requires
        shrinks(p, to),
    ensures
        replace_all(p, s, to).len() <= s.len(),
        contains(p, s) ==> replace_all(p, s, to).len() < s.len(),
        !contains(p, s) ==> replace_all(p, s, to) == s,
    decreases s.len(),
{
    if s.len() > 0 {
        let n = crate::pattern::match_len(p, s);
        assert(s.skip(0) =~= s);
        lemma_match_at_least(p, s);
        crate::pattern::lemma_match_bound(p, s);
        if 0 < n <= s.len() {
            lemma_replace_shrinks(p, s.skip(n as int), to);
        } else {
            lemma_replace_shrinks(p, s.skip(1), to);
            crate::pattern::lemma_find_skip(p, s, 1, 1);
        }
    }
    if !contains(p, s) {
        crate::pattern::lemma_replace_nothing(p, s, to);
    }
}

/// Each replacement of the markup shrinks.
proof fn lemma_markup_shrinks(k: int)
    requires
        0 <= k < markup().len(),
    ensures
        shrinks(markup()[k].0, markup()[k].1),
{
    reveal_strlit("\\fI");
    reveal_strlit("\\fP");
    reveal_strlit("\\f1");
    reveal_strlit("\\fB");
    reveal_strlit("\\fR");
    reveal_strlit("\\e");
    reveal_strlit(".BI");
    reveal_strlit(".BR");
    reveal_strlit(".B");
    reveal_strlit("0.5i");
    reveal_strlit(".rb");
    reveal_strlit("\\^");
    reveal_strlit("{ ");
    reveal_strlit(" }");
    reveal_strlit("\\ ");
    reveal_strlit("\\-");
    reveal_strlit("\\&");
    reveal_strlit("\u{c}");
    reveal_strlit(".Pp");
    reveal_strlit("");
    reveal_strlit(" ");
    reveal_strlit("-");
    reveal_strlit("'");
    let m = markup();
    assert(m[0] == (Pat::Lit("\\fI"@), ""@) && m[1] == (Pat::Lit("\\fP"@), ""@) && m[2] == (
        Pat::Lit("\\f1"@),
        ""@,
    ) && m[3] == (Pat::Lit("\\fB"@), ""@) && m[4] == (Pat::Lit("\\fR"@), ""@) && m[5] == (
        Pat::Lit("\\e"@),
        ""@,
    ) && m[6] == (Pat::ParagraphDistance, ""@) && m[7] == (Pat::Lit(".BI"@), ""@) && m[8] == (
        Pat::Lit(".BR"@),
        ""@,
    ) && m[9] == (Pat::Lit(".B"@), ""@) && m[10] == (Pat::Lit("0.5i"@), ""@) && m[11] == (
        Pat::Lit(".rb"@),
        ""@,
    ) && m[12] == (Pat::Lit("\\^"@), ""@) && m[13] == (Pat::Lit("{ "@), ""@) && m[14] == (
        Pat::Lit(" }"@),
        ""@,
    ) && m[15] == (Pat::Lit("\\ "@), " "@) && m[16] == (Pat::Lit("\\-"@), "-"@) && m[17] == (
        Pat::Lit("\\&"@),
        ""@,
    ) && m[18] == (Pat::Lit("\u{c}"@), ""@) && m[19] == (Pat::QuoteGlyph, "'"@) && m[20] == (
        Pat::Lit(".Pp"@),
        ""@,
    ) && m[21] == (Pat::LineSpace, ""@));
}

/// The first `n` replacements make no text longer. They leave a text as it
/// is in which none of their markers stands, and shorten any other.
proof fn lemma_rewritten_shrinks(data: Seq<char>, n: nat)
    requires
        n <= markup().len(),
    ensures
        rewritten(data, markup(), n).len() <= data.len(),
        (forall|k: int| 0 <= k < n ==> !contains(#[trigger] markup()[k].0, data)) ==> rewritten(
            data,
            markup(),
            n,
        ) == data,
        (exists|k: int| 0 <= k < n && contains(#[trigger] markup()[k].0, data)) ==> rewritten(
            data,
            markup(),
            n,
        ).len() < data.len(),
    decreases n,
{
    if n > 0 {
        let before = rewritten(data, markup(), (n - 1) as nat);
        lemma_rewritten_shrinks(data, (n - 1) as nat);
        lemma_markup_shrinks(n - 1);
        lemma_replace_shrinks(markup()[n - 1].0, before, markup()[n - 1].1);
        if exists|k: int| 0 <= k < n && contains(#[trigger] markup()[k].0, data) {
            let k = choose|k: int| 0 <= k < n && contains(#[trigger] markup()[k].0, data);
            if k < n - 1 {
                assert(before.len() < data.len());
            } else if before.len() == data.len() {
                if exists|j: int| 0 <= j < n - 1 && contains(#[trigger] markup()[j].0, data) {
                } else {
                    assert(before == data);
                }
            }
        }
    }
}

/// The replacements of the markup, made once, leave a text without markup
/// as it is, and shorten any other.
pub proof fn lemma_once(data: Seq<char>)
    ensures
        once(data).len() <= data.len(),
        is_plain(data) ==> once(data) == data,
        !is_plain(data) ==> once(data).len() < data.len(),
{
    lemma_rewritten_shrinks(data, markup().len());
    if !is_plain(data) {
        let k = choose|k: int| 0 <= k < markup().len() && contains(#[trigger] markup()[k].0, data);
        assert(contains(markup()[k].0, data));
    }
}

/// A text without markup is left as it is.
pub proof fn lemma_plain_text_stays(data: Seq<char>)
    requires
        is_plain(data),
    ensures
        plain(data) == data,
{
    lemma_once(data);
}

/// No markup is left where the markup was taken out.
pub proof fn lemma_plain_is_plain(data: Seq<char>)
    ensures
        is_plain(plain(data)),
    decreases data.len(),
{
    lemma_once(data);
    if once(data).len() < data.len() {
        lemma_plain_is_plain(once(data));
    }
}

/// To take the markup out of a text a second time changes nothing.
pub proof fn lemma_plain_twice(data: Seq<char>)
    ensures
        plain(plain(data)) == plain(data),
{
    lemma_plain_is_plain(data);
    lemma_plain_text_stays(plain(data));
}

/// The markup is taken out of a text as it is taken out of the text after
/// one round of the replacements.
proof fn lemma_plain_once(data: Seq<char>)
    ensures
        plain(once(data)) == plain(data),
{
    lemma_once(data);
    if once(data).len() >= data.len() {
        lemma_plain_text_stays(data);
    }
}

/// A description that is abbreviated has at most [`MAX_DESC_LEN`]
/// characters, and ends in the ellipsis if it was cut.
pub proof fn lemma_abbreviated_is_short(desc: Seq<char>)
    ensures
        abbreviated(desc).len() <= MAX_DESC_LEN,
        desc.len() > MAX_DESC_LEN ==> abbreviated(desc).len() == MAX_DESC_LEN
            && crate::text::ends_with(abbreviated(desc), ellipsis()),
        desc.len() <= MAX_DESC_LEN ==> abbreviated(desc) == desc,
{
    if desc.len() > MAX_DESC_LEN {
        let cut = desc.take(MAX_DESC_LEN - 3) + ellipsis();
        assert(cut.skip(cut.len() - 3) =~= ellipsis());
    }
}

/// To abbreviate a description a second time changes nothing.
pub proof fn lemma_abbreviated_twice(desc: Seq<char>)
    ensures
        abbreviated(abbreviated(desc)) == abbreviated(desc),
{
    lemma_abbreviated_is_short(desc);
}

/// The description of a flag that is made is abbreviated already.
pub proof fn lemma_described_is_abbreviated(desc: Seq<char>)
    ensures
        described(desc).len() <= MAX_DESC_LEN,
        abbreviated(described(desc)) == described(desc),
{
    let d = replace_first(Pat::Rest(".SS"@), desc, ""@);
    let d = replace_all(Pat::Lit("\n"@), trim(d), " "@);
    let d = trim_end(d, seq!['.']);
    let d = replace_all(Pat::Lit("\\'"@), d, ""@);
    let d = replace_all(Pat::Lit("\\."@), d, ""@);
    lemma_abbreviated_twice(replace_all(Pat::SentenceGap, d, ". "@));
    lemma_abbreviated_is_short(replace_all(Pat::SentenceGap, d, ". "@));
}

/// The directives that begin the sections, the paragraphs and the items of
/// a page.
pub open spec fn structure() -> Seq<Seq<char>> {
    seq![".SH"@, ".PP"@, ".TP"@, ".IP"@, ".RS"@, ".RE"@, ".It"@]
}

/// Whether `d` has the shape of a directive of the structure: a full stop
/// and two of the letters that such directives are made of.
pub open spec fn directive_shape(d: Seq<char>) -> bool {
    d.len() == 3 && d[0] == '.' && second_letter(d[1]) && third_letter(d[2])
}

/// Whether a directive of the structure has `c` for its second character.
pub open spec fn second_letter(c: char) -> bool {
    c == 'S' || c == 'P' || c == 'T' || c == 'I' || c == 'R'
}

/// Whether a directive of the structure has `c` for its third character.
pub open spec fn third_letter(c: char) -> bool {
    c == 'H' || c == 'P' || c == 'S' || c == 'E' || c == 't'
}

/// Whether no match of the literal `l` can take in a part of a directive
/// of the structure: `l` begins with no letter of a directive, it differs
/// from a directive where it begins with a full stop, and a full stop
/// inside it has a digit after it.
pub open spec fn apart_literal(l: Seq<char>) -> bool {
    &&& l.len() > 0
    &&& !second_letter(l[0]) && !third_letter(l[0])
    &&& l[0] == '.' ==> (l.len() >= 2 && !second_letter(l[1])) || (l.len() >= 3 && !third_letter(
        l[2],
    ))
    &&& forall|k: int|
        1 <= k < l.len() && #[trigger] l[k] == '.' ==> k + 1 < l.len() && crate::text::is_digit(
            l[k + 1],
        )
}

/// Whether `p` is a marker of the markup whose matches keep apart from the
/// directives of the structure.
pub open spec fn apart(p: Pat) -> bool {
    match p {
        Pat::Lit(l) => apart_literal(l),
        Pat::ParagraphDistance => true,
        Pat::QuoteGlyph => true,
        Pat::LineSpace => true,
        _ => false,
    }
}

/// The directives of the structure have the shape of one.
proof fn lemma_structure_shape(d: Seq<char>)
    requires
        structure().contains(d),
    ensures
        directive_shape(d),
{
    reveal_strlit(".SH");
    reveal_strlit(".PP");
    reveal_strlit(".TP");
    reveal_strlit(".IP");
    reveal_strlit(".RS");
    reveal_strlit(".RE");
    reveal_strlit(".It");
    let i = choose|i: int| 0 <= i < structure().len() && structure()[i] == d;
    assert(structure()[0] == ".SH"@ && structure()[1] == ".PP"@ && structure()[2] == ".TP"@
        && structure()[3] == ".IP"@ && structure()[4] == ".RS"@ && structure()[5] == ".RE"@
        && structure()[6] == ".It"@);
}

/// The markers of the markup keep apart from the directives.
proof fn lemma_markup_apart(k: int)
    requires
        0 <= k < markup().len(),
    ensures
        apart(markup()[k].0),
{
    reveal_strlit("\\fI");
    reveal_strlit("\\fP");
    reveal_strlit("\\f1");
    reveal_strlit("\\fB");
    reveal_strlit("\\fR");
    reveal_strlit("\\e");
    reveal_strlit(".BI");
    reveal_strlit(".BR");
    reveal_strlit(".B");
    reveal_strlit("0.5i");
    reveal_strlit(".rb");
    reveal_strlit("\\^");
    reveal_strlit("{ ");
    reveal_strlit(" }");
    reveal_strlit("\\ ");
    reveal_strlit("\\-");
    reveal_strlit("\\&");
    reveal_strlit("\u{c}");
    reveal_strlit(".Pp");
    let m = markup();
    assert(m[0].0 == Pat::Lit("\\fI"@) && m[1].0 == Pat::Lit("\\fP"@) && m[2].0 == Pat::Lit(
        "\\f1"@,
    ) && m[3].0 == Pat::Lit("\\fB"@) && m[4].0 == Pat::Lit("\\fR"@) && m[5].0 == Pat::Lit("\\e"@)
        && m[6].0 == Pat::ParagraphDistance && m[7].0 == Pat::Lit(".BI"@) && m[8].0 == Pat::Lit(
        ".BR"@,
    ) && m[9].0 == Pat::Lit(".B"@) && m[10].0 == Pat::Lit("0.5i"@) && m[11].0 == Pat::Lit(".rb"@)
        && m[12].0 == Pat::Lit("\\^"@) && m[13].0 == Pat::Lit("{ "@) && m[14].0 == Pat::Lit(" }"@)
        && m[15].0 == Pat::Lit("\\ "@) && m[16].0 == Pat::Lit("\\-"@) && m[17].0 == Pat::Lit(
        "\\&"@,
    ) && m[18].0 == Pat::Lit("\u{c}"@) && m[19].0 == Pat::QuoteGlyph && m[20].0 == Pat::Lit(
        ".Pp"@,
    ) && m[21].0 == Pat::LineSpace);
}

/// Digits are counted up to what is no digit.
proof fn lemma_digits_before(x: Seq<char>, rest: Seq<char>)
    requires
        rest.len() == 0 || !crate::text::is_digit(rest[0]),
    ensures
        crate::pattern::digits_len(x + rest) == crate::pattern::digits_len(x),
        crate::pattern::digits_len(x) <= x.len(),
    decreases x.len(),
{
    if x.len() > 0 {
        assert((x + rest).skip(1) =~= x.skip(1) + rest);
        lemma_digits_before(x.skip(1), rest);
    } else {
        assert(x + rest =~= rest);
    }
}

/// No marker of the markup matches at a character of a directive.
proof fn lemma_no_match_inside(p: Pat, d: Seq<char>, rest: Seq<char>, k: int)
    requires
        apart(p),
        directive_shape(d),
        0 <= k < 3,
    ensures
        crate::pattern::match_len(p, (d + rest).skip(k)) == 0,
{
    let s = (d + rest).skip(k);
    assert(s[0] == d[k]);
    if k + 1 < 3 {
        assert(s[1] == d[k + 1]);
    }
    if k + 2 < 3 {
        assert(s[2] == d[k + 2]);
    }
    match p {
        Pat::Lit(l) => {
            if crate::text::starts_with(s, l) {
                assert(s.take(l.len() as int)[0] == l[0]);
                if k == 0 {
                    if l.len() >= 2 {
                        assert(s.take(l.len() as int)[1] == l[1]);
                    }
                    if l.len() >= 3 {
                        assert(s.take(l.len() as int)[2] == l[2]);
                    }
                }
            }
        },
        _ => {},
    }
}

/// What a marker of the markup matches at the start of a text does not
/// depend on a directive that follows the text.
proof fn lemma_match_before(p: Pat, x: Seq<char>, d: Seq<char>, rest: Seq<char>)
    requires
        apart(p),
        directive_shape(d),
        x.len() > 0,
    ensures
        crate::pattern::match_len(p, x + d + rest) == crate::pattern::match_len(p, x),
{
    let s = x + d + rest;
    let n = x.len() as int;
    assert(s[n] == '.' && s[n + 1] == d[1] && s[n + 2] == d[2]);
    assert forall|i: int| 0 <= i < n implies s[i] == x[i] by {}
    match p {
        Pat::Lit(l) => {
            if crate::text::starts_with(s, l) {
                if l.len() > n {
                    assert(s.take(l.len() as int)[n] == l[n]);
                    assert(l[n] == '.');
                    assert(s.take(l.len() as int)[n + 1] == l[n + 1]);
                }
                assert(s.take(l.len() as int) =~= x.take(l.len() as int));
            }
            if crate::text::starts_with(x, l) {
                assert(s.take(l.len() as int) =~= x.take(l.len() as int));
            }
        },
        Pat::ParagraphDistance => {
            if n > 4 {
                assert(s.skip(4) =~= x.skip(4) + (d + rest));
                lemma_digits_before(x.skip(4), d + rest);
            }
        },
        Pat::QuoteGlyph => {},
        Pat::LineSpace => {
            if n >= 3 {
                let a = x.skip(3);
                let b = s.skip(3);
                assert(b =~= a + (d + rest));
                if a.len() > 1 {
                    assert(b.skip(1) =~= a.skip(1) + (d + rest));
                    lemma_digits_before(a.skip(1), d + rest);
                    let digits = crate::pattern::digits_len(a.skip(1)) as int;
                    assert forall|i: int| 0 <= i < a.len() implies b[i] == a[i] by {}
                    assert(b[a.len() as int] == '.');
                    assert(b[a.len() as int + 1] == d[1]);
                } else if a.len() == 1 {
                    assert(b[1] == '.');
                } else {
                    assert(b[0] == '.');
                }
            }
        },
        _ => {},
    }
}

/// A marker of the markup is replaced before a directive and after it as
/// if each part stood alone, and the directive stays.
proof fn lemma_replace_around(p: Pat, a: Seq<char>, d: Seq<char>, b: Seq<char>, to: Seq<char>)
    requires
        apart(p),
        directive_shape(d),
    ensures
        replace_all(p, a + d + b, to) == replace_all(p, a, to) + d + replace_all(p, b, to),
    decreases a.len(),
{
    let s = a + d + b;
    if a.len() == 0 {
        assert(s =~= d + b);
        lemma_no_match_inside(p, d, b, 0);
        lemma_no_match_inside(p, d, b, 1);
        lemma_no_match_inside(p, d, b, 2);
        assert((d + b).skip(0) =~= d + b);
        assert((d + b).skip(1).skip(1) =~= (d + b).skip(2));
        assert((d + b).skip(2).skip(1) =~= b);
        assert(replace_all(p, (d + b).skip(2), to) == seq![d[2]] + replace_all(p, b, to));
        assert(replace_all(p, (d + b).skip(1), to) == seq![d[1]] + replace_all(
            p,
            (d + b).skip(2),
            to,
        ));
        assert(replace_all(p, d + b, to) == seq![d[0]] + replace_all(p, (d + b).skip(1), to));
        assert(replace_all(p, a, to) =~= Seq::<char>::empty());
        assert(seq![d[0]] + (seq![d[1]] + (seq![d[2]] + replace_all(p, b, to))) =~= replace_all(
            p,
            a,
            to,
        ) + d + replace_all(p, b, to));
    } else {
        lemma_match_before(p, a, d, b);
        crate::pattern::lemma_match_bound(p, a);
        let n = crate::pattern::match_len(p, a);
        if 0 < n <= a.len() {
            assert(s.skip(n as int) =~= a.skip(n as int) + d + b);
            lemma_replace_around(p, a.skip(n as int), d, b, to);
            assert(to + (replace_all(p, a.skip(n as int), to) + d + replace_all(p, b, to)) =~= (to
                + replace_all(p, a.skip(n as int), to)) + d + replace_all(p, b, to));
        } else {
            assert(s.skip(1) =~= a.skip(1) + d + b);
            lemma_replace_around(p, a.skip(1), d, b, to);
            assert(seq![s[0]] + (replace_all(p, a.skip(1), to) + d + replace_all(p, b, to)) =~= (
            seq![a[0]] + replace_all(p, a.skip(1), to)) + d + replace_all(p, b, to));
        }
    }
}

proof fn lemma_rewritten_around(a: Seq<char>, d: Seq<char>, b: Seq<char>, n: nat)
    requires
        directive_shape(d),
        n <= markup().len(),
    ensures
        rewritten(a + d + b, markup(), n) == rewritten(a, markup(), n) + d + rewritten(
            b,
            markup(),
            n,
        ),
    decreases n,
{
    if n > 0 {
        lemma_rewritten_around(a, d, b, (n - 1) as nat);
        lemma_markup_apart(n - 1);
        lemma_replace_around(
            markup()[n - 1].0,
            rewritten(a, markup(), (n - 1) as nat),
            d,
            rewritten(b, markup(), (n - 1) as nat),
            markup()[n - 1].1,
        );
    }
}

/// One round of the replacements, and all the rounds, work before a
/// directive and after it as if each part stood alone.
proof fn lemma_plain_around(a: Seq<char>, d: Seq<char>, b: Seq<char>)
    requires
        directive_shape(d),
    ensures
        plain(a + d + b) == plain(a) + d + plain(b),
    decreases a.len() + b.len(),
{
    let whole = a + d + b;
    lemma_rewritten_around(a, d, b, markup().len());
    lemma_once(a);
    lemma_once(b);
    lemma_once(whole);
    assert(once(whole) == once(a) + d + once(b));
    if once(whole).len() < whole.len() {
        lemma_plain_around(once(a), d, once(b));
        lemma_plain_once(a);
        lemma_plain_once(b);
    }
}

/// The directives of the structure stay where the markup is taken out:
/// what stands before one and what stands after it lose their markup as
/// if each stood alone, and the directive stays between them.
pub proof fn lemma_structure_stays(a: Seq<char>, d: Seq<char>, b: Seq<char>)
    requires
        structure().contains(d),
    ensures
        plain(a + d + b) == plain(a) + d + plain(b),
{
    lemma_structure_shape(d);
    lemma_plain_around(a, d, b);
}

/// Whether each full stop of `s` that whitespace follows has one space
/// after it and no whitespace after that: the sentences of `s` are one
/// space apart.
pub open spec fn single_gaps(s: Seq<char>) -> bool {
    forall|i: int|
        #![trigger s[i]]
        0 <= i && i + 1 < s.len() && s[i] == '.' && whitespace().contains(s[i + 1]) ==> s[i + 1]
            == ' ' && (i + 2 == s.len() || !whitespace().contains(s[i + 2]))
}

/// `s` with one space after each full stop that whitespace follows.
pub open spec fn spaced(s: Seq<char>) -> Seq<char> {
    replace_all(Pat::SentenceGap, s, ". "@)
}

/// A full stop is no whitespace, and a space is.
proof fn lemma_stop_and_space()
    ensures
        !whitespace().contains('.'),
        whitespace().contains(' '),
{
    assert(whitespace()[5] == ' ');
    if whitespace().contains('.') {
        let j = choose|j: int| 0 <= j < whitespace().len() && whitespace()[j] == '.';
        assert(whitespace().len() == 25);
        assert(whitespace()[0] != '.' && whitespace()[1] != '.' && whitespace()[2] != '.'
            && whitespace()[3] != '.' && whitespace()[4] != '.' && whitespace()[5] != '.'
            && whitespace()[6] != '.' && whitespace()[7] != '.' && whitespace()[8] != '.'
            && whitespace()[9] != '.' && whitespace()[10] != '.' && whitespace()[11] != '.'
            && whitespace()[12] != '.' && whitespace()[13] != '.' && whitespace()[14] != '.'
            && whitespace()[15] != '.' && whitespace()[16] != '.' && whitespace()[17] != '.'
            && whitespace()[18] != '.' && whitespace()[19] != '.' && whitespace()[20] != '.'
            && whitespace()[21] != '.' && whitespace()[22] != '.' && whitespace()[23] != '.'
            && whitespace()[24] != '.');
    }
}

/// The whitespace that a text begins with ends at its end or before a
/// character that is none.
proof fn lemma_spaces_end(t: Seq<char>)
    ensures
        crate::pattern::spaces_len(t) <= t.len(),
        crate::pattern::spaces_len(t) == t.len() || !whitespace().contains(
            t[crate::pattern::spaces_len(t) as int],
        ),
    decreases t.len(),
{
    if t.len() > 0 && whitespace().contains(t[0]) {
        lemma_spaces_end(t.skip(1));
        let n = crate::pattern::spaces_len(t.skip(1)) as int;
        if n < t.skip(1).len() {
            assert(t.skip(1)[n] == t[n + 1]);
        }
    }
}

/// A text with its sentences spaced begins as the text begins, and is
/// empty only where the text is.
proof fn lemma_spaced_first(t: Seq<char>)
    ensures
        spaced(t).len() == 0 <==> t.len() == 0,
        t.len() > 0 ==> spaced(t)[0] == t[0],
{
    reveal_strlit(". ");
    if t.len() > 0 {
        crate::pattern::lemma_match_bound(Pat::SentenceGap, t);
        let n = crate::pattern::match_len(Pat::SentenceGap, t);
        if 0 < n <= t.len() {
            assert(spaced(t) == ". "@ + spaced(t.skip(n as int)));
            assert(spaced(t)[0] == '.');
        } else {
            assert(spaced(t) == seq![t[0]] + spaced(t.skip(1)));
        }
    }
}

/// What is left of a text whose sentences are one space apart, when
/// characters are taken off its start, has its sentences one space apart.
proof fn lemma_gaps_skip(s: Seq<char>, k: int)
    requires
        single_gaps(s),
        0 <= k <= s.len(),
    ensures
        single_gaps(s.skip(k)),
{
    let t = s.skip(k);
    assert forall|i: int|
        #![trigger t[i]]
        0 <= i && i + 1 < t.len() && t[i] == '.' && whitespace().contains(t[i + 1]) implies t[i + 1]
            == ' ' && (i + 2 == t.len() || !whitespace().contains(t[i + 2])) by {
        assert(t[i] == s[i + k]);
        assert(t[i + 1] == s[i + k + 1]);
        if i + 2 < t.len() {
            assert(t[i + 2] == s[i + k + 2]);
        }
    }
}

/// The sentences of a text that was spaced are one space apart.
pub proof fn lemma_spaced_gaps(s: Seq<char>)
    ensures
        single_gaps(spaced(s)),
    decreases s.len(),
{
    reveal_strlit(". ");
    lemma_stop_and_space();
    let r = spaced(s);
    if s.len() > 0 {
        crate::pattern::lemma_match_bound(Pat::SentenceGap, s);
        let n = crate::pattern::match_len(Pat::SentenceGap, s) as int;
        if 0 < n <= s.len() {
            let rest = s.skip(n);
            lemma_spaced_gaps(rest);
            lemma_spaced_first(rest);
            lemma_spaces_end(s.skip(1));
            assert(rest =~= s.skip(1).skip(n - 1));
            if rest.len() > 0 {
                assert(rest[0] == s.skip(1)[n - 1]);
            }
            let tail = spaced(rest);
            assert(r == ". "@ + tail);
            assert(r[0] == '.' && r[1] == ' ');
            assert forall|i: int|
                #![trigger r[i]]
                0 <= i && i + 1 < r.len() && r[i] == '.' && whitespace().contains(
                    r[i + 1],
                ) implies r[i + 1] == ' ' && (i + 2 == r.len() || !whitespace().contains(
                r[i + 2],
            )) by {
                if i == 0 {
                    if r.len() > 2 {
                        assert(r[2] == tail[0]);
                    }
                } else if i >= 2 {
                    assert(r[i] == tail[i - 2]);
                    assert(r[i + 1] == tail[i - 1]);
                    if i + 2 < r.len() {
                        assert(r[i + 2] == tail[i]);
                    }
                }
            }
        } else {
            let rest = s.skip(1);
            lemma_spaced_gaps(rest);
            lemma_spaced_first(rest);
            let tail = spaced(rest);
            assert(r == seq![s[0]] + tail);
            assert forall|i: int|
                #![trigger r[i]]
                0 <= i && i + 1 < r.len() && r[i] == '.' && whitespace().contains(
                    r[i + 1],
                ) implies r[i + 1] == ' ' && (i + 2 == r.len() || !whitespace().contains(
                r[i + 2],
            )) by {
                if i == 0 {
                    assert(r[1] == tail[0]);
                    assert(tail[0] == rest[0]);
                    assert(rest[0] == s[1]);
                    assert(s.skip(1) == rest);
                } else {
                    assert(r[i] == tail[i - 1]);
                    assert(r[i + 1] == tail[i]);
                    if i + 2 < r.len() {
                        assert(r[i + 2] == tail[i + 1]);
                    }
                }
            }
        }
    }
}

/// A text whose sentences are one space apart is left as it is when its
/// sentences are spaced.
pub proof fn lemma_gaps_stay(s: Seq<char>)
    requires
        single_gaps(s),
    ensures
        spaced(s) == s,
    decreases s.len(),
{
    reveal_strlit(". ");
    if s.len() > 0 {
        crate::pattern::lemma_match_bound(Pat::SentenceGap, s);
        let n = crate::pattern::match_len(Pat::SentenceGap, s) as int;
        if 0 < n <= s.len() {
            assert(s[0] == '.' && whitespace().contains(s[1]));
            assert(s[1] == ' ');
            let t = s.skip(1);
            assert(t[0] == s[1]);
            assert(t.skip(1) =~= s.skip(2));
            if s.len() > 2 {
                assert(t.skip(1)[0] == s[2]);
            }
            assert(crate::pattern::spaces_len(t.skip(1)) == 0);
            assert(n == 2);
            lemma_gaps_skip(s, 2);
            lemma_gaps_stay(s.skip(2));
            assert(". "@ + s.skip(2) =~= s);
        } else {
            lemma_gaps_skip(s, 1);
            lemma_gaps_stay(s.skip(1));
            assert(seq![s[0]] + s.skip(1) =~= s);
        }
    }
}

/// A text whose sentences are one space apart keeps them so when it is
/// abbreviated.
pub proof fn lemma_gaps_abbreviated(s: Seq<char>)
    requires
        single_gaps(s),
    ensures
        single_gaps(abbreviated(s)),
{
    lemma_stop_and_space();
    if s.len() > MAX_DESC_LEN {
        let c = abbreviated(s);
        let kept = MAX_DESC_LEN - 3;
        assert(c.len() == MAX_DESC_LEN);
        assert forall|i: int|
            #![trigger c[i]]
            0 <= i && i + 1 < c.len() && c[i] == '.' && whitespace().contains(c[i + 1]) implies c[i
                + 1] == ' ' && (i + 2 == c.len() || !whitespace().contains(c[i + 2])) by {
            if i + 1 < kept {
                assert(c[i] == s[i]);
                assert(c[i + 1] == s[i + 1]);
                if i + 2 < kept {
                    assert(c[i + 2] == s[i + 2]);
                } else {
                    assert(c[i + 2] == '.');
                }
            } else {
                assert(c[i + 1] == '.');
            }
        }
    }
}

/// A description of at most [`MAX_DESC_LEN`] characters whose sentences
/// are one space apart is left as it is.
pub proof fn lemma_trimmed_stays(desc: Seq<char>)
    requires
        desc.len() <= MAX_DESC_LEN,
        single_gaps(desc),
    ensures
        trimmed_desc(desc) == desc,
{
    lemma_gaps_stay(desc);
}

/// To trim a description a second time changes nothing.
pub proof fn lemma_trimmed_twice(desc: Seq<char>)
    ensures
        trimmed_desc(trimmed_desc(desc)) == trimmed_desc(desc),
        single_gaps(trimmed_desc(desc)),
{
    lemma_spaced_gaps(desc);
    lemma_gaps_abbreviated(spaced(desc));
    lemma_abbreviated_is_short(spaced(desc));
    lemma_trimmed_stays(trimmed_desc(desc));
}

} // verus!
