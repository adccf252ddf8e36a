//! The markers that the parsers look for in the text of a man page.
//!
//! A [`Pat`] says which texts a marker matches at the start of a text;
//! [`find`], [`split`], [`replace_all`] and [`replace_first`] say where it
//! matches inside one, from left to right and without overlap. No marker
//! matches the empty text.

use vstd::prelude::*;
use crate::text::{
    digit, drawn_from, in_set, is_digit, lemma_drawn_from_twice, lemma_subrange_drawn, push_all,
    slice_of, starts_with, starts_with_at, whitespace, whitespace_set,
};

verus! {

/// A marker, as a mathematical value.
pub enum Pat {
    /// The given characters. An empty literal matches nothing.
    Lit(Seq<char>),
    /// One character out of the given ones.
    OneOf(Seq<char>),
    /// The given characters and all the text after them.
    Rest(Seq<char>),
    /// `.PD`, a space and a number.
    ParagraphDistance,
    /// A quote glyph: `\(`, one of `o c a d l r`, and `q`.
    QuoteGlyph,
    /// `.sp`, then possibly a space and an amount that may end in `v`.
    LineSpace,
    /// A full stop and the whitespace after it.
    SentenceGap,
    /// `.IP` or `.TP`, then possibly a space and an amount that may end in `i`.
    ListItem,
    /// One of `.IP`, `.TP`, `.UNINDENT`, `.UN`, `.SH`.
    ParagraphEnd,
    /// `.HP` or `.TP`.
    HangingStart,
    /// `.HP`, `.PP` or `.TP`.
    HangingEnd,
    /// `[` and the text up to the last `]` of the same line.
    Bracketed,
    /// `<` and the rest of the line.
    Placeholder,
    /// `-`, one of `( ) [ ]`, and the rest of the text, if that is one line.
    HyphenGroup,
}

/// A marker, as the parsers hold it.
pub enum Pattern {
    Lit(Vec<char>),
    OneOf(Vec<char>),
    Rest(Vec<char>),
    ParagraphDistance,
    QuoteGlyph,
    LineSpace,
    SentenceGap,
    ListItem,
    ParagraphEnd,
    HangingStart,
    HangingEnd,
    Bracketed,
    Placeholder,
    HyphenGroup,
}

impl View for Pattern {
    type V = Pat;

    open spec fn view(&self) -> Pat {
        match self {
            Pattern::Lit(l) => Pat::Lit(l@),
            Pattern::OneOf(set) => Pat::OneOf(set@),
            Pattern::Rest(l) => Pat::Rest(l@),
            Pattern::ParagraphDistance => Pat::ParagraphDistance,
            Pattern::QuoteGlyph => Pat::QuoteGlyph,
            Pattern::LineSpace => Pat::LineSpace,
            Pattern::SentenceGap => Pat::SentenceGap,
            Pattern::ListItem => Pat::ListItem,
            Pattern::ParagraphEnd => Pat::ParagraphEnd,
            Pattern::HangingStart => Pat::HangingStart,
            Pattern::HangingEnd => Pat::HangingEnd,
            Pattern::Bracketed => Pat::Bracketed,
            Pattern::Placeholder => Pat::Placeholder,
            Pattern::HyphenGroup => Pat::HyphenGroup,
        }
    }
}

/// The number of digits that `s` begins with.
pub open spec fn digits_len(s: Seq<char>) -> nat
    decreases s.len(),
{
    if s.len() > 0 && is_digit(s[0]) {
        1 + digits_len(s.skip(1))
    } else {
        0
    }
}

/// The number of whitespace characters that `s` begins with.
pub open spec fn spaces_len(s: Seq<char>) -> nat
    decreases s.len(),
{
    if s.len() > 0 && whitespace().contains(s[0]) {
        1 + spaces_len(s.skip(1))
    } else {
        0
    }
}

/// The length of the first line of `s`, without its newline.
pub open spec fn line_len(s: Seq<char>) -> nat
    decreases s.len(),
{
    if s.len() > 0 && s[0] != '\n' {
        1 + line_len(s.skip(1))
    } else {
        0
    }
}

/// The length of an amount at the start of `s`: a space, digits, possibly a
/// point and one digit, possibly `unit`. It is 0 where `s` begins with none.
pub open spec fn amount_len(s: Seq<char>, unit: char) -> nat {
    if s.len() > 1 && s[0] == ' ' && is_digit(s[1]) {
        let d: int = 1 + digits_len(s.skip(1)) as int;
        let f: int = if s.len() > d + 1 && s[d] == '.' && is_digit(s[d + 1]) {
            2
        } else {
            0
        };
        let u: int = if s.len() > d + f && s[d + f] == unit {
            1
        } else {
            0
        };
        (d + f + u) as nat
    } else {
        0
    }
}

/// One more than the index of the last `]` among `s[1..hi]`, or 0 if there is none.
pub open spec fn last_close(s: Seq<char>, hi: int) -> nat
    decreases hi,
{
    if hi <= 1 || hi > s.len() {
        0
    } else if s[hi - 1] == ']' {
        hi as nat
    } else {
        last_close(s, hi - 1)
    }
}

/// Whether `s` begins with a full stop, `a` and `b`.
pub open spec fn directive(s: Seq<char>, a: char, b: char) -> bool {
    s.len() >= 3 && s[0] == '.' && s[1] == a && s[2] == b
}

/// The length of the match of `p` at the start of `s`, or 0 where `p` does
/// not match there.
pub open spec fn match_len(p: Pat, s: Seq<char>) -> nat {
    match p {
        Pat::Lit(l) => if l.len() > 0 && starts_with(s, l) {
            l.len()
        } else {
            0
        },
        Pat::OneOf(set) => if s.len() > 0 && set.contains(s[0]) {
            1
        } else {
            0
        },
        Pat::Rest(l) => if l.len() > 0 && starts_with(s, l) {
            s.len()
        } else {
            0
        },
        Pat::ParagraphDistance => if s.len() > 4 && directive(s, 'P', 'D') && s[3] == ' '
            && is_digit(s[4]) {
            4 + digits_len(s.skip(4))
        } else {
            0
        },
        Pat::QuoteGlyph => if s.len() >= 4 && s[0] == '\\' && s[1] == '(' && seq![
            'o',
            'c',
            'a',
            'd',
            'l',
            'r',
        ].contains(s[2]) && s[3] == 'q' {
            4
        } else {
            0
        },
        Pat::LineSpace => if directive(s, 's', 'p') {
            3 + amount_len(s.skip(3), 'v')
        } else {
            0
        },
        Pat::SentenceGap => if s.len() > 1 && s[0] == '.' && whitespace().contains(s[1]) {
            1 + spaces_len(s.skip(1))
        } else {
            0
        },
        Pat::ListItem => if directive(s, 'I', 'P') || directive(s, 'T', 'P') {
            3 + amount_len(s.skip(3), 'i')
        } else {
            0
        },
        Pat::ParagraphEnd => if directive(s, 'I', 'P') || directive(s, 'T', 'P') || directive(
            s,
            'S',
            'H',
        ) {
            3
        } else if starts_with(s, seq!['.', 'U', 'N', 'I', 'N', 'D', 'E', 'N', 'T']) {
            9
        } else if directive(s, 'U', 'N') {
            3
        } else {
            0
        },
        Pat::HangingStart => if directive(s, 'H', 'P') || directive(s, 'T', 'P') {
            3
        } else {
            0
        },
        Pat::HangingEnd => if directive(s, 'H', 'P') || directive(s, 'P', 'P') || directive(
            s,
            'T',
            'P',
        ) {
            3
        } else {
            0
        },
        Pat::Bracketed => if s.len() > 0 && s[0] == '[' {
            last_close(s, line_len(s) as int)
        } else {
            0
        },
        Pat::Placeholder => if s.len() > 0 && s[0] == '<' {
            line_len(s)
        } else {
            0
        },
        Pat::HyphenGroup => if s.len() > 1 && s[0] == '-' && seq!['(', ')', '[', ']'].contains(
            s[1],
        ) && line_len(s) == s.len() {
            s.len()
        } else {
            0
        },
    }
}

/// The index of the first match of `p` in `s` at or after `from`.
pub open spec fn find(p: Pat, s: Seq<char>, from: int) -> Option<int>
    decreases s.len() - from,
{
    if from < 0 || from >= s.len() {
        None
    } else if match_len(p, s.skip(from)) > 0 {
        Some(from)
    } else {
        find(p, s, from + 1)
    }
}

/// Whether `p` matches somewhere in `s`.
pub open spec fn contains(p: Pat, s: Seq<char>) -> bool {
    find(p, s, 0) is Some
}

/// `s` with every match of `p` replaced by `to`.
pub open spec fn replace_all(p: Pat, s: Seq<char>, to: Seq<char>) -> Seq<char>
    decreases s.len(),
{
    let n = match_len(p, s);
    if s.len() == 0 {
        s
    } else if 0 < n <= s.len() {
        to + replace_all(p, s.skip(n as int), to)
    } else {
        seq![s[0]] + replace_all(p, s.skip(1), to)
    }
}

/// `s` with the first match of `p` replaced by `to`.
pub open spec fn replace_first(p: Pat, s: Seq<char>, to: Seq<char>) -> Seq<char> {
    match find(p, s, 0) {
        Some(i) => s.take(i) + to + s.skip(i + match_len(p, s.skip(i))),
        None => s,
    }
}

/// The pieces of `s` between the matches of `p`: one more than there are matches.
pub open spec fn split(p: Pat, s: Seq<char>) -> Seq<Seq<char>>
    decreases s.len(),
{
    match find(p, s, 0) {
        Some(i) => {
            let n = match_len(p, s.skip(i));
            if 0 <= i && 0 < n && i + n <= s.len() {
                seq![s.take(i)] + split(p, s.skip(i + n))
            } else {
                seq![s]
            }
        },
        None => seq![s],
    }
}

/// The part of `s` before the first match of `p`, and the part after it.
pub open spec fn split_once(p: Pat, s: Seq<char>) -> Option<(Seq<char>, Seq<char>)> {
    match find(p, s, 0) {
        Some(i) => Some((s.take(i), s.skip(i + match_len(p, s.skip(i))))),
        None => None,
    }
}

/// `s` without the carriage return at its end, if it has one.
pub open spec fn without_cr(s: Seq<char>) -> Seq<char> {
    if s.len() > 0 && s.last() == '\r' {
        s.drop_last()
    } else {
        s
    }
}

/// The lines of `s`, without the newline, or the carriage return and the
/// newline, that each ends in. The last line need not end in a newline.
pub open spec fn lines(s: Seq<char>) -> Seq<Seq<char>> {
    let pieces = split(Pat::Lit("\n"@), s);
    Seq::new(
        if pieces.last().len() == 0 {
            (pieces.len() - 1) as nat
        } else {
            pieces.len()
        },
        |i: int|
            if i < pieces.len() - 1 {
                without_cr(pieces[i])
            } else {
                pieces[i]
            },
    )
}

/// The characters of each text of a list.
pub open spec fn texts_view(v: Seq<Vec<char>>) -> Seq<Seq<char>> {
    Seq::new(v.len(), |i: int| v[i]@)
}

/// A match is found at an index of the text, is not empty and ends inside the text.
pub proof fn lemma_find_bounds(p: Pat, s: Seq<char>, from: int)
    requires
        0 <= from,
    ensures
        match find(p, s, from) {
            Some(i) => from <= i < s.len() && 0 < match_len(p, s.skip(i)) <= s.len() - i,
            None => true,
        },
    decreases s.len() - from,
{
    if from < s.len() {
        if match_len(p, s.skip(from)) > 0 {
            lemma_match_bound(p, s.skip(from));
        } else {
            lemma_find_bounds(p, s, from + 1);
        }
    }
}

/// No match is longer than the text.
pub proof fn lemma_match_bound(p: Pat, s: Seq<char>)
    ensures
        match_len(p, s) <= s.len(),
{
    lemma_digits_bound(s.skip(4));
    lemma_spaces_bound(s.skip(1));
    lemma_line_bound(s);
    lemma_amount_bound(s.skip(3), 'v');
    lemma_amount_bound(s.skip(3), 'i');
    lemma_last_close_bound(s, line_len(s) as int);
}

proof fn lemma_digits_bound(s: Seq<char>)
    ensures
        digits_len(s) <= s.len(),
    decreases s.len(),
{
    if s.len() > 0 && is_digit(s[0]) {
        lemma_digits_bound(s.skip(1));
    }
}

proof fn lemma_spaces_bound(s: Seq<char>)
    ensures
        spaces_len(s) <= s.len(),
    decreases s.len(),
{
    if s.len() > 0 && whitespace().contains(s[0]) {
        lemma_spaces_bound(s.skip(1));
    }
}

proof fn lemma_line_bound(s: Seq<char>)
    ensures
        line_len(s) <= s.len(),
    decreases s.len(),
{
    if s.len() > 0 && s[0] != '\n' {
        lemma_line_bound(s.skip(1));
    }
}

proof fn lemma_amount_bound(s: Seq<char>, unit: char)
    ensures
        amount_len(s, unit) <= s.len(),
{
    lemma_digits_bound(s.skip(1));
}

proof fn lemma_last_close_bound(s: Seq<char>, hi: int)
    ensures
        last_close(s, hi) <= hi || last_close(s, hi) == 0,
        last_close(s, hi) <= s.len(),
    decreases hi,
{
    if hi > 1 && hi <= s.len() && s[hi - 1] != ']' {
        lemma_last_close_bound(s, hi - 1);
    }
}

/// Before a match that is found, and from `from` on, the marker matches
/// nowhere; where none is found, it matches nowhere from `from` on.
pub proof fn lemma_find_first(p: Pat, s: Seq<char>, from: int)
    requires
        0 <= from,
    ensures
        match find(p, s, from) {
            Some(i) => forall|j: int| from <= j < i ==> match_len(p, #[trigger] s.skip(j)) == 0,
            None => forall|j: int| from <= j < s.len() ==> match_len(p, #[trigger] s.skip(j)) == 0,
        },
    decreases s.len() - from,
{
    if from < s.len() && match_len(p, s.skip(from)) == 0 {
        lemma_find_first(p, s, from + 1);
    }
}

/// No piece of a text that is split at the characters of `set` holds one
/// of them.
pub proof fn lemma_split_free(set: Seq<char>, s: Seq<char>)
    ensures
        forall|k: int, i: int|
            0 <= k < split(Pat::OneOf(set), s).len() && 0 <= i < split(Pat::OneOf(set), s)[k].len()
                ==> !set.contains(#[trigger] split(Pat::OneOf(set), s)[k][i]),
    decreases s.len(),
{
    let p = Pat::OneOf(set);
    lemma_find_bounds(p, s, 0);
    lemma_find_first(p, s, 0);
    match find(p, s, 0) {
        Some(at) => {
            let rest = s.skip(at + 1);
            lemma_split_free(set, rest);
            assert forall|k: int, i: int|
                0 <= k < split(p, s).len() && 0 <= i < split(p, s)[k].len() implies !set.contains(
                #[trigger] split(p, s)[k][i],
            ) by {
                if k == 0 {
                    assert(split(p, s)[0] == s.take(at));
                    assert(match_len(p, s.skip(i)) == 0);
                    assert(s.skip(i)[0] == s[i]);
                } else {
                    assert(split(p, s)[k] == split(p, rest)[k - 1]);
                }
            }
        },
        None => {
            assert forall|k: int, i: int|
                0 <= k < split(p, s).len() && 0 <= i < split(p, s)[k].len() implies !set.contains(
                #[trigger] split(p, s)[k][i],
            ) by {
                assert(split(p, s)[k] == s);
                assert(match_len(p, s.skip(i)) == 0);
                assert(s.skip(i)[0] == s[i]);
            }
        },
    }
}

/// Each piece of a text that is split is drawn from the text.
pub proof fn lemma_split_drawn(p: Pat, s: Seq<char>)
    ensures
        forall|k: int| 0 <= k < split(p, s).len() ==> drawn_from(#[trigger] split(p, s)[k], s),
    decreases s.len(),
{
    lemma_find_bounds(p, s, 0);
    lemma_subrange_drawn(s, 0, s.len() as int);
    assert(s.subrange(0, s.len() as int) =~= s);
    match find(p, s, 0) {
        Some(i) => {
            let n = match_len(p, s.skip(i));
            let rest = s.skip(i + n);
            lemma_split_drawn(p, rest);
            lemma_subrange_drawn(s, 0, i);
            lemma_subrange_drawn(s, i + n, s.len() as int);
            assert forall|k: int| 0 <= k < split(p, s).len() implies drawn_from(
                #[trigger] split(p, s)[k],
                s,
            ) by {
                if k > 0 {
                    assert(split(p, s)[k] == split(p, rest)[k - 1]);
                    lemma_drawn_from_twice(split(p, rest)[k - 1], rest, s);
                }
            }
        },
        None => {},
    }
}

/// A text of which a match is taken out is drawn from the text.
pub proof fn lemma_cut_drawn(p: Pat, s: Seq<char>)
    ensures
        drawn_from(replace_first(p, s, Seq::empty()), s),
{
    lemma_find_bounds(p, s, 0);
    lemma_subrange_drawn(s, 0, s.len() as int);
    assert(s.subrange(0, s.len() as int) =~= s);
    match find(p, s, 0) {
        Some(i) => {
            let n = match_len(p, s.skip(i));
            let r = replace_first(p, s, Seq::empty());
            assert forall|k: int| 0 <= k < r.len() implies s.contains(#[trigger] r[k]) by {
                if k < i {
                    assert(r[k] == s[k]);
                } else {
                    assert(r[k] == s[k + n]);
                }
            }
        },
        None => {},
    }
}

/// A text in which a marker does not stand is left as it is when the
/// marker is replaced.
pub proof fn lemma_replace_nothing(p: Pat, s: Seq<char>, to: Seq<char>)
    requires
        !contains(p, s),
    ensures
        replace_all(p, s, to) == s,
    decreases s.len(),
{
    if s.len() > 0 {
        assert(s.skip(0) =~= s);
        lemma_find_skip(p, s, 1, 1);
        lemma_match_bound(p, s);
        lemma_replace_nothing(p, s.skip(1), to);
        assert(seq![s[0]] + s.skip(1) =~= s);
    }
}

/// Searching a text from `from` on is searching its part after `from`.
pub proof fn lemma_find_skip(p: Pat, s: Seq<char>, from: int, at: int)
    requires
        0 <= from <= at,
        from <= s.len(),
    ensures
        find(p, s, at) == match find(p, s.skip(from), at - from) {
            Some(i) => Some(i + from),
            None => None,
        },
    decreases s.len() - at,
{
    if at < s.len() {
        assert(s.skip(from).skip(at - from) =~= s.skip(at));
        if match_len(p, s.skip(at)) == 0 {
            lemma_find_skip(p, s, from, at + 1);
        }
    }
}

/// The number of digits at index `at` of `v`.
fn digits_at(v: &Vec<char>, at: usize) -> (n: usize)
    requires
        at <= v.len(),
    ensures
        n == digits_len(v@.skip(at as int)),
        at + n <= v.len(),
{
    let mut k: usize = at;
    while k < v.len() && digit(v[k])
        invariant
            at <= k <= v.len(),
            digits_len(v@.skip(at as int)) == (k - at) + digits_len(v@.skip(k as int)),
        decreases v.len() - k,
    {
        assert(v@.skip(k as int).skip(1) =~= v@.skip(k + 1));
        k += 1;
    }
    k - at
}

/// The number of whitespace characters at index `at` of `v`.
fn spaces_at(v: &Vec<char>, at: usize) -> (n: usize)
    requires
        at <= v.len(),
    ensures
        n == spaces_len(v@.skip(at as int)),
        at + n <= v.len(),
{
    let set = whitespace_set();
    let mut k: usize = at;
    while k < v.len() && in_set(&set, v[k])
        invariant
            at <= k <= v.len(),
            set@ == whitespace(),
            spaces_len(v@.skip(at as int)) == (k - at) + spaces_len(v@.skip(k as int)),
        decreases v.len() - k,
    {
        assert(v@.skip(k as int).skip(1) =~= v@.skip(k + 1));
        k += 1;
    }
    k - at
}

/// The length of the line that begins at index `at` of `v`.
fn line_at(v: &Vec<char>, at: usize) -> (n: usize)
    requires
        at <= v.len(),
    ensures
        n == line_len(v@.skip(at as int)),
        at + n <= v.len(),
{
    let mut k: usize = at;
    while k < v.len() && v[k] != '\n'
        invariant
            at <= k <= v.len(),
            line_len(v@.skip(at as int)) == (k - at) + line_len(v@.skip(k as int)),
        decreases v.len() - k,
    {
        assert(v@.skip(k as int).skip(1) =~= v@.skip(k + 1));
        k += 1;
    }
    k - at
}

/// The length of the amount at index `at` of `v`.
fn amount_at(v: &Vec<char>, at: usize, unit: char) -> (n: usize)
    requires
        at <= v.len(),
    ensures
        n == amount_len(v@.skip(at as int), unit),
        at + n <= v.len(),
{
    let ghost s = v@.skip(at as int);
    if v.len() - at > 1 && v[at] == ' ' && digit(v[at + 1]) {
        assert(s.skip(1) =~= v@.skip(at + 1));
        let d: usize = 1 + digits_at(v, at + 1);
        let f: usize = if v.len() - at - d > 1 && v[at + d] == '.' && digit(v[at + d + 1]) {
            2
        } else {
            0
        };
        let u: usize = if v.len() - at - d > f && v[at + d + f] == unit {
            1
        } else {
            0
        };
        d + f + u
    } else {
        0
    }
}

/// Whether a full stop, `a` and `b` stand at index `at` of `v`.
fn directive_at(v: &Vec<char>, at: usize, a: char, b: char) -> (r: bool)
    requires
        at <= v.len(),
    ensures
        r == directive(v@.skip(at as int), a, b),
{
    v.len() - at >= 3 && v[at] == '.' && v[at + 1] == a && v[at + 2] == b
}

/// The length of the bracketed text at index `at` of `v`, which holds `[`.
fn bracketed_at(v: &Vec<char>, at: usize) -> (n: usize)
    requires
        at < v.len(),
    ensures
        n == last_close(v@.skip(at as int), line_len(v@.skip(at as int)) as int),
        at + n <= v.len(),
{
    let ghost s = v@.skip(at as int);
    let end: usize = line_at(v, at);
    let mut hi: usize = end;
    while hi > 1 && v[at + hi - 1] != ']'
        invariant
            hi <= end,
            at + end <= v.len(),
            s == v@.skip(at as int),
            last_close(s, end as int) == last_close(s, hi as int),
        decreases hi,
    {
        hi -= 1;
    }
    if hi > 1 {
        hi
    } else {
        0
    }
}

/// The length of the match of `p` at index `at` of `v`, or 0.
pub(crate) fn match_at(p: &Pattern, v: &Vec<char>, at: usize) -> (n: usize)
    requires
        at <= v.len(),
    ensures
        n == match_len(p@, v@.skip(at as int)),
        at + n <= v.len(),
{
    let ghost s = v@.skip(at as int);
    let rest: usize = v.len() - at;
    match p {
        Pattern::Lit(l) => {
            if l.len() > 0 && starts_with_at(v, at, l) {
                l.len()
            } else {
                0
            }
        },
        Pattern::OneOf(set) => {
            if rest > 0 && in_set(set, v[at]) {
                1
            } else {
                0
            }
        },
        Pattern::Rest(l) => {
            if l.len() > 0 && starts_with_at(v, at, l) {
                rest
            } else {
                0
            }
        },
        Pattern::ParagraphDistance => {
            if rest > 4 && directive_at(v, at, 'P', 'D') && v[at + 3] == ' ' && digit(v[at + 4]) {
                assert(s.skip(4) =~= v@.skip(at + 4));
                4 + digits_at(v, at + 4)
            } else {
                0
            }
        },
        Pattern::QuoteGlyph => {
            if rest >= 4 && v[at] == '\\' && v[at + 1] == '(' && v[at + 3] == 'q' {
                let c = v[at + 2];
                let ghost letters = seq!['o', 'c', 'a', 'd', 'l', 'r'];
                if c == 'o' || c == 'c' || c == 'a' || c == 'd' || c == 'l' || c == 'r' {
                    assert(letters[0] == 'o' && letters[1] == 'c' && letters[2] == 'a'
                        && letters[3] == 'd' && letters[4] == 'l' && letters[5] == 'r');
                    4
                } else {
                    0
                }
            } else {
                0
            }
        },
        Pattern::LineSpace => {
            if directive_at(v, at, 's', 'p') {
                assert(s.skip(3) =~= v@.skip(at + 3));
                3 + amount_at(v, at + 3, 'v')
            } else {
                0
            }
        },
        Pattern::SentenceGap => {
            let set = whitespace_set();
            if rest > 1 && v[at] == '.' && in_set(&set, v[at + 1]) {
                assert(s.skip(1) =~= v@.skip(at + 1));
                1 + spaces_at(v, at + 1)
            } else {
                0
            }
        },
        Pattern::ListItem => {
            if directive_at(v, at, 'I', 'P') || directive_at(v, at, 'T', 'P') {
                assert(s.skip(3) =~= v@.skip(at + 3));
                3 + amount_at(v, at + 3, 'i')
            } else {
                0
            }
        },
        Pattern::ParagraphEnd => {
            if directive_at(v, at, 'I', 'P') || directive_at(v, at, 'T', 'P') || directive_at(
                v,
                at,
                'S',
                'H',
            ) {
                3
            } else {
                let long = vec!['.', 'U', 'N', 'I', 'N', 'D', 'E', 'N', 'T'];
                assert(long@ =~= seq!['.', 'U', 'N', 'I', 'N', 'D', 'E', 'N', 'T']);
                if starts_with_at(v, at, &long) {
                    9
                } else if directive_at(v, at, 'U', 'N') {
                    3
                } else {
                    0
                }
            }
        },
        Pattern::HangingStart => {
            if directive_at(v, at, 'H', 'P') || directive_at(v, at, 'T', 'P') {
                3
            } else {
                0
            }
        },
        Pattern::HangingEnd => {
            if directive_at(v, at, 'H', 'P') || directive_at(v, at, 'P', 'P') || directive_at(
                v,
                at,
                'T',
                'P',
            ) {
                3
            } else {
                0
            }
        },
        Pattern::Bracketed => {
            if rest > 0 && v[at] == '[' {
                bracketed_at(v, at)
            } else {
                0
            }
        },
        Pattern::Placeholder => {
            if rest > 0 && v[at] == '<' {
                line_at(v, at)
            } else {
                0
            }
        },
        Pattern::HyphenGroup => {
            if rest > 1 && v[at] == '-' {
                let c = v[at + 1];
                let ghost group = seq!['(', ')', '[', ']'];
                if c == '(' || c == ')' || c == '[' || c == ']' {
                    assert(group[0] == '(' && group[1] == ')' && group[2] == '[' && group[3]
                        == ']');
                    if line_at(v, at) == rest {
                        rest
                    } else {
                        0
                    }
                } else {
                    0
                }
            } else {
                0
            }
        },
    }
}

/// The first match of `p` in `v` at or after `from`: its index and its length.
pub fn find_at(p: &Pattern, v: &Vec<char>, from: usize) -> (r: Option<(usize, usize)>)
    ensures
        match r {
            Some((i, n)) => find(p@, v@, from as int) == Some(i as int) && n == match_len(
                p@,
                v@.skip(i as int),
            ) && from <= i && 0 < n && i + n <= v.len(),
            None => find(p@, v@, from as int) is None,
        },
{
    let mut i: usize = from;
    while i < v.len()
        invariant
            from <= i,
            find(p@, v@, from as int) == find(p@, v@, i as int),
        decreases v.len() - i,
    {
        let n = match_at(p, v, i);
        if n > 0 {
            return Some((i, n));
        }
        i += 1;
    }
    None
}

/// Whether `p` matches somewhere in `v`.
pub fn contains_pattern(p: &Pattern, v: &Vec<char>) -> (r: bool)
    ensures
        r == contains(p@, v@),
{
    find_at(p, v, 0).is_some()
}

/// `v` with every match of `p` replaced by `to`.
pub fn replace_all_chars(p: &Pattern, v: &Vec<char>, to: &Vec<char>) -> (r: Vec<char>)
    ensures
        r@ == replace_all(p@, v@, to@),
{
    let mut r: Vec<char> = Vec::new();
    let mut i: usize = 0;
    assert(v@.skip(0) =~= v@);
    while i < v.len()
        invariant
            i <= v.len(),
            replace_all(p@, v@, to@) == r@ + replace_all(p@, v@.skip(i as int), to@),
        decreases v.len() - i,
    {
        let ghost before = r@;
        let ghost s = v@.skip(i as int);
        let n = match_at(p, v, i);
        if n > 0 {
            push_all(&mut r, to);
            assert(s.skip(n as int) =~= v@.skip(i + n));
            assert(r@ + replace_all(p@, s.skip(n as int), to@) =~= before + (to@ + replace_all(
                p@,
                s.skip(n as int),
                to@,
            )));
            i += n;
        } else {
            r.push(v[i]);
            assert(s.skip(1) =~= v@.skip(i + 1));
            assert(r@ + replace_all(p@, s.skip(1), to@) =~= before + (seq![s[0]] + replace_all(
                p@,
                s.skip(1),
                to@,
            )));
            i += 1;
        }
    }
    assert(r@ + Seq::<char>::empty() =~= r@);
    r
}

/// `v` with the first match of `p` replaced by `to`.
pub fn replace_first_chars(p: &Pattern, v: &Vec<char>, to: &Vec<char>) -> (r: Vec<char>)
    ensures
        r@ == replace_first(p@, v@, to@),
{
    match find_at(p, v, 0) {
        Some((i, n)) => {
            let mut r = slice_of(v, 0, i);
            push_all(&mut r, to);
            let tail = slice_of(v, i + n, v.len());
            push_all(&mut r, &tail);
            r
        },
        None => {
            let r = slice_of(v, 0, v.len());
            assert(r@ =~= v@);
            r
        },
    }
}

/// The pieces of `v` between the matches of `p`.
pub fn split_chars(p: &Pattern, v: &Vec<char>) -> (r: Vec<Vec<char>>)
    ensures
        texts_view(r@) == split(p@, v@),
{
    let mut r: Vec<Vec<char>> = Vec::new();
    let mut pos: usize = 0;
    assert(v@.skip(0) =~= v@);
    assert(texts_view(r@) =~= Seq::<Seq<char>>::empty());
    loop
        invariant_except_break
            pos <= v.len(),
            split(p@, v@) == texts_view(r@) + split(p@, v@.skip(pos as int)),
        ensures
            texts_view(r@) == split(p@, v@),
        decreases v.len() - pos,
    {
        let ghost s = v@.skip(pos as int);
        let ghost before = texts_view(r@);
        proof {
            lemma_find_skip(p@, v@, pos as int, pos as int);
        }
        match find_at(p, v, pos) {
            Some((i, n)) => {
                let piece = slice_of(v, pos, i);
                r.push(piece);
                proof {
                    let j = i - pos;
                    assert(s.skip(j) =~= v@.skip(i as int));
                    assert(s.take(j) =~= v@.subrange(pos as int, i as int));
                    assert(s.skip(j + n) =~= v@.skip(i + n));
                    assert(texts_view(r@) =~= before + seq![s.take(j)]);
                    assert(before + (seq![s.take(j)] + split(p@, s.skip(j + n))) =~= texts_view(
                        r@,
                    ) + split(p@, s.skip(j + n)));
                }
                pos = i + n;
            },
            None => {
                let piece = slice_of(v, pos, v.len());
                r.push(piece);
                proof {
                    assert(v@.subrange(pos as int, v.len() as int) =~= s);
                    assert(texts_view(r@) =~= before + seq![s]);
                }
                break ;
            },
        }
    }
    r
}

/// The part of `v` before the first match of `p`, and the part after it.
pub fn split_once_chars(p: &Pattern, v: &Vec<char>) -> (r: Option<(Vec<char>, Vec<char>)>)
    ensures
        match r {
            Some((a, b)) => split_once(p@, v@) == Some((a@, b@)),
            None => split_once(p@, v@) is None,
        },
{
    match find_at(p, v, 0) {
        Some((i, n)) => {
            let a = slice_of(v, 0, i);
            let b = slice_of(v, i + n, v.len());
            Some((a, b))
        },
        None => None,
    }
}

/// The marker for the characters of `s`, as they stand.
pub fn lit(s: &str) -> (p: Pattern)
    ensures
        p@ == Pat::Lit(s@),
{
    Pattern::Lit(crate::text::chars_of(s))
}

/// The lines of `v`.
pub fn lines_chars(v: &Vec<char>) -> (r: Vec<Vec<char>>)
    ensures
        texts_view(r@) == lines(v@),
{
    let pieces = split_chars(&lit("\n"), v);
    let ghost all = texts_view(pieces@);
    assert(all.len() >= 1);
    let n: usize = if pieces[pieces.len() - 1].len() == 0 {
        pieces.len() - 1
    } else {
        pieces.len()
    };
    let mut r: Vec<Vec<char>> = Vec::new();
    let mut i: usize = 0;
    while i < n
        invariant
            i <= n <= pieces.len(),
            all == texts_view(pieces@),
            all == split(Pat::Lit("\n"@), v@),
            r@.len() == i,
            forall|k: int| 0 <= k < i ==> r@[k]@ == lines(v@)[k],
            n == lines(v@).len(),
        decreases n - i,
    {
        let piece = &pieces[i];
        let len = piece.len();
        let line = if i < pieces.len() - 1 && len > 0 && piece[len - 1] == '\r' {
            slice_of(piece, 0, len - 1)
        } else {
            slice_of(piece, 0, len)
        };
        assert(all[i as int] == piece@);
        assert(piece@.subrange(0, len as int) =~= piece@);
        if len > 0 {
            assert(piece@.subrange(0, len - 1) =~= piece@.drop_last());
        }
        r.push(line);
        i += 1;
    }
    assert(texts_view(r@) =~= lines(v@));
    r
}

} // verus!
