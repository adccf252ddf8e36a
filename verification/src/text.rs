//! Strings as sequences of characters.
//!
//! Every function of the library is specified over `Seq<char>`, the view of
//! `str` and `String`. The executable functions here work on `Vec<char>`,
//! whose view is the same sequence, so that a character can be reached by its
//! index.

use vstd::prelude::*;
use vstd::string::StringExecFns;

verus! {

/// `String::push` appends one character.
pub assume_specification[ String::push ](s: &mut String, c: char)
    ensures
        final(s)@ == old(s)@.push(c),
;

/// The characters with the Unicode property `White_Space`.
pub open spec fn whitespace() -> Seq<char> {
    seq![
        '\t', '\n', '\u{b}', '\u{c}', '\r', ' ', '\u{85}', '\u{a0}', '\u{1680}', '\u{2000}',
        '\u{2001}', '\u{2002}', '\u{2003}', '\u{2004}', '\u{2005}', '\u{2006}', '\u{2007}',
        '\u{2008}', '\u{2009}', '\u{200a}', '\u{2028}', '\u{2029}', '\u{202f}', '\u{205f}',
        '\u{3000}',
    ]
}

/// Whether `pattern` is a regular expression, as the `regex` crate reads it.
pub uninterp spec fn is_regex(pattern: Seq<char>) -> bool;

/// Whether the regular expression `pattern` matches somewhere in `text`, as
/// the `regex` crate finds.
pub uninterp spec fn regex_match(pattern: Seq<char>, text: Seq<char>) -> bool;

/// Compiles `pattern` with `regex::Regex::new` and asks `Regex::is_match`
/// of each of `texts`: the result is nothing where the pattern is no
/// regular expression, named [`is_regex`], and else says of each text
/// whether the expression matches in it, named [`regex_match`].
#[verifier::external_body]
pub(crate) fn matching(pattern: &str, texts: &Vec<String>) -> (r: Option<Vec<bool>>)
    ensures
        r is Some <==> is_regex(pattern@),
        match r {
            Some(found) => found@.len() == texts@.len() && forall|i: int|
                0 <= i < texts@.len() ==> found@[i] == regex_match(pattern@, #[trigger] texts@[i]@),
            None => true,
        },
{
    match regex::Regex::new(pattern) {
        Ok(re) => Some(texts.iter().map(|text| re.is_match(text)).collect()),
        Err(_) => None,
    }
}

/// Whether `c` is a decimal digit of ASCII.
pub open spec fn is_ascii_digit(c: char) -> bool {
    '0' <= c <= '9'
}

/// The class of the decimal digits, as a regular expression.
pub open spec fn digit_class() -> Seq<char> {
    "\\d"@
}

/// Whether `c` is a decimal digit: one of `0` to `9`, or a character
/// beyond ASCII that the digit class of the `regex` crate takes, which is
/// every decimal digit of Unicode.
pub open spec fn is_digit(c: char) -> bool {
    is_ascii_digit(c) || (c > '\u{7f}' && is_regex(digit_class()) && regex_match(
        digit_class(),
        seq![c],
    ))
}

/// Whether `s` begins with `prefix`.
pub open spec fn starts_with(s: Seq<char>, prefix: Seq<char>) -> bool {
    prefix.len() <= s.len() && s.take(prefix.len() as int) == prefix
}

/// Whether `s` ends with `suffix`.
pub open spec fn ends_with(s: Seq<char>, suffix: Seq<char>) -> bool {
    suffix.len() <= s.len() && s.skip(s.len() - suffix.len()) == suffix
}

/// `s` without its longest prefix made of characters of `set`.
pub open spec fn trim_start(s: Seq<char>, set: Seq<char>) -> Seq<char>
    decreases s.len(),
{
    if s.len() > 0 && set.contains(s[0]) {
        trim_start(s.skip(1), set)
    } else {
        s
    }
}

/// `s` without its longest suffix made of characters of `set`.
pub open spec fn trim_end(s: Seq<char>, set: Seq<char>) -> Seq<char>
    decreases s.len(),
{
    if s.len() > 0 && set.contains(s.last()) {
        trim_end(s.drop_last(), set)
    } else {
        s
    }
}

/// `s` without the characters of `set` at either end.
pub open spec fn trim_set(s: Seq<char>, set: Seq<char>) -> Seq<char> {
    trim_end(trim_start(s, set), set)
}

/// `s` without the whitespace at either end.
pub open spec fn trim(s: Seq<char>) -> Seq<char> {
    trim_set(s, whitespace())
}

/// The pieces of `parts`, with `sep` between each two neighbours.
pub open spec fn join(parts: Seq<Seq<char>>, sep: Seq<char>) -> Seq<char>
    decreases parts.len(),
{
    if parts.len() == 0 {
        Seq::empty()
    } else if parts.len() == 1 {
        parts[0]
    } else {
        join(parts.drop_last(), sep) + sep + parts.last()
    }
}

/// The decimal digits of `n`, most significant first.
pub open spec fn decimal(n: nat) -> Seq<char>
    decreases n,
{
    if n < 10 {
        seq![digit_char(n)]
    } else {
        decimal(n / 10).push(digit_char(n % 10))
    }
}

/// The character of the digit `d`.
pub open spec fn digit_char(d: nat) -> char {
    if d == 0 {
        '0'
    } else if d == 1 {
        '1'
    } else if d == 2 {
        '2'
    } else if d == 3 {
        '3'
    } else if d == 4 {
        '4'
    } else if d == 5 {
        '5'
    } else if d == 6 {
        '6'
    } else if d == 7 {
        '7'
    } else if d == 8 {
        '8'
    } else {
        '9'
    }
}

/// Whether every character of `a` is one of `b`.
pub open spec fn drawn_from(a: Seq<char>, b: Seq<char>) -> bool {
    forall|i: int| 0 <= i < a.len() ==> b.contains(#[trigger] a[i])
}

/// What is left of a text when characters are taken off its start holds no
/// character that the text does not hold.
pub proof fn lemma_trim_start_drawn(s: Seq<char>, set: Seq<char>)
    ensures
        drawn_from(trim_start(s, set), s),
    decreases s.len(),
{
    if s.len() > 0 && set.contains(s[0]) {
        lemma_trim_start_drawn(s.skip(1), set);
        let t = trim_start(s.skip(1), set);
        assert forall|i: int| 0 <= i < t.len() implies s.contains(#[trigger] t[i]) by {
            let j = choose|j: int| 0 <= j < s.skip(1).len() && s.skip(1)[j] == t[i];
            assert(s[j + 1] == t[i]);
        }
    } else {
        assert forall|i: int| 0 <= i < s.len() implies s.contains(#[trigger] s[i]) by {}
    }
}

/// What is left of a text when characters are taken off its end holds no
/// character that the text does not hold.
pub proof fn lemma_trim_end_drawn(s: Seq<char>, set: Seq<char>)
    ensures
        drawn_from(trim_end(s, set), s),
    decreases s.len(),
{
    if s.len() > 0 && set.contains(s.last()) {
        lemma_trim_end_drawn(s.drop_last(), set);
        let t = trim_end(s.drop_last(), set);
        assert forall|i: int| 0 <= i < t.len() implies s.contains(#[trigger] t[i]) by {
            let j = choose|j: int| 0 <= j < s.drop_last().len() && s.drop_last()[j] == t[i];
            assert(s[j] == t[i]);
        }
    } else {
        assert forall|i: int| 0 <= i < s.len() implies s.contains(#[trigger] s[i]) by {}
    }
}

/// What is left of a text when characters are taken off its end does not
/// end in one of them.
pub proof fn lemma_trim_end_last(s: Seq<char>, set: Seq<char>)
    ensures
        trim_end(s, set).len() > 0 ==> !set.contains(trim_end(s, set).last()),
    decreases s.len(),
{
    if s.len() > 0 && set.contains(s.last()) {
        lemma_trim_end_last(s.drop_last(), set);
    }
}

/// A text that is drawn from a text that is drawn from a third is drawn
/// from the third.
pub proof fn lemma_drawn_from_twice(a: Seq<char>, b: Seq<char>, c: Seq<char>)
    requires
        drawn_from(a, b),
        drawn_from(b, c),
    ensures
        drawn_from(a, c),
{
    assert forall|i: int| 0 <= i < a.len() implies c.contains(#[trigger] a[i]) by {
        let j = choose|j: int| 0 <= j < b.len() && b[j] == a[i];
        assert(c.contains(b[j]));
    }
}

/// A part of a text is drawn from the text.
pub proof fn lemma_subrange_drawn(s: Seq<char>, lo: int, hi: int)
    requires
        0 <= lo <= hi <= s.len(),
    ensures
        drawn_from(s.subrange(lo, hi), s),
{
    assert forall|i: int| 0 <= i < hi - lo implies s.contains(#[trigger] s.subrange(lo, hi)[i]) by {
        assert(s[lo + i] == s.subrange(lo, hi)[i]);
    }
}

/// The characters of an optional text.
pub open spec fn opt_chars_view(v: Option<Vec<char>>) -> Option<Seq<char>> {
    match v {
        Some(v) => Some(v@),
        None => None,
    }
}

/// The characters of an optional text that is borrowed.
pub open spec fn opt_ref_view(v: Option<&Vec<char>>) -> Option<Seq<char>> {
    match v {
        Some(v) => Some(v@),
        None => None,
    }
}

/// The characters of an optional string slice.
pub open spec fn opt_str_view(s: Option<&str>) -> Option<Seq<char>> {
    match s {
        Some(s) => Some(s@),
        None => None,
    }
}

/// The characters of a string, in order.
pub fn chars_of(s: &str) -> (v: Vec<char>)
    ensures
        v@ == s@,
{
    let mut v: Vec<char> = Vec::new();
    for c in it: s.chars()
        invariant
            it.seq() == s@,
            v@ == it.seq().take(it.index()),
    {
        v.push(c);
    }
    v
}

/// The string made of the given characters.
pub fn string_of(v: &Vec<char>) -> (s: String)
    ensures
        s@ == v@,
{
    let mut s = String::new();
    let mut i: usize = 0;
    while i < v.len()
        invariant
            i <= v.len(),
            s@ == v@.take(i as int),
        decreases v.len() - i,
    {
        s.push(v[i]);
        i += 1;
    }
    s
}

/// Whether `c` is one of the characters of `set`.
pub fn in_set(set: &Vec<char>, c: char) -> (r: bool)
    ensures
        r == set@.contains(c),
{
    let mut i: usize = 0;
    while i < set.len()
        invariant
            i <= set.len(),
            forall|k: int| 0 <= k < i ==> set@[k] != c,
        decreases set.len() - i,
    {
        if set[i] == c {
            return true;
        }
        i += 1;
    }
    false
}

/// The whitespace characters, as a set for [`in_set`].
pub fn whitespace_set() -> (v: Vec<char>)
    ensures
        v@ == whitespace(),
{
    let v = vec![
        '\t', '\n', '\u{b}', '\u{c}', '\r', ' ', '\u{85}', '\u{a0}', '\u{1680}', '\u{2000}',
        '\u{2001}', '\u{2002}', '\u{2003}', '\u{2004}', '\u{2005}', '\u{2006}', '\u{2007}',
        '\u{2008}', '\u{2009}', '\u{200a}', '\u{2028}', '\u{2029}', '\u{202f}', '\u{205f}',
        '\u{3000}',
    ];
    assert(v@ =~= whitespace());
    v
}

/// Whether `c` is a decimal digit of ASCII.
pub fn ascii_digit(c: char) -> (r: bool)
    ensures
        r == is_ascii_digit(c),
{
    '0' <= c && c <= '9'
}

/// Whether `c` is a decimal digit, of ASCII or beyond it.
pub fn digit(c: char) -> (r: bool)
    ensures
        r == is_digit(c),
{
    if c <= '\u{7f}' {
        '0' <= c && c <= '9'
    } else {
        let mut text = String::new();
        text.push(c);
        assert(text@ =~= seq![c]);
        let texts = vec![text];
        match matching("\\d", &texts) {
            Some(found) => {
                assert(texts@[0]@ == seq![c]);
                found[0]
            },
            None => false,
        }
    }
}

/// The characters of `v` from `lo` up to `hi`.
pub(crate) fn slice_of(v: &Vec<char>, lo: usize, hi: usize) -> (r: Vec<char>)
    requires
        lo <= hi <= v.len(),
    ensures
        r@ == v@.subrange(lo as int, hi as int),
{
    let mut r: Vec<char> = Vec::new();
    let mut i: usize = lo;
    while i < hi
        invariant
            lo <= i <= hi <= v.len(),
            r@ == v@.subrange(lo as int, i as int),
        decreases hi - i,
    {
        r.push(v[i]);
        i += 1;
        assert(v@.subrange(lo as int, i as int) =~= v@.subrange(lo as int, i - 1).push(v@[i - 1]));
    }
    r
}

/// Appends the characters of `tail` to `out`.
pub fn push_all(out: &mut Vec<char>, tail: &Vec<char>)
    ensures
        final(out)@ == old(out)@ + tail@,
{
    let mut i: usize = 0;
    while i < tail.len()
        invariant
            i <= tail.len(),
            out@ == old(out)@ + tail@.take(i as int),
        decreases tail.len() - i,
    {
        out.push(tail[i]);
        i += 1;
        assert(tail@.take(i as int) =~= tail@.take(i - 1).push(tail@[i - 1]));
    }
    assert(tail@.take(tail.len() as int) =~= tail@);
}

/// Whether `prefix` stands in `v` at index `at`.
pub(crate) fn starts_with_at(v: &Vec<char>, at: usize, prefix: &Vec<char>) -> (r: bool)
    requires
        at <= v.len(),
    ensures
        r == starts_with(v@.skip(at as int), prefix@),
{
    if prefix.len() > v.len() - at {
        return false;
    }
    let mut k: usize = 0;
    while k < prefix.len()
        invariant
            at <= v.len(),
            prefix.len() <= v.len() - at,
            k <= prefix.len(),
            forall|j: int| 0 <= j < k ==> v@[at + j] == prefix@[j],
        decreases prefix.len() - k,
    {
        if v[at + k] != prefix[k] {
            assert(v@.skip(at as int).take(prefix.len() as int)[k as int] != prefix@[k as int]);
            return false;
        }
        k += 1;
    }
    assert(v@.skip(at as int).take(prefix.len() as int) =~= prefix@);
    true
}

/// Whether two texts hold the same characters.
pub fn same_chars(a: &Vec<char>, b: &Vec<char>) -> (r: bool)
    ensures
        r == (a@ == b@),
{
    if a.len() != b.len() {
        return false;
    }
    let r = starts_with_at(a, 0, b);
    assert(a@.skip(0).take(b.len() as int) =~= a@);
    r
}

/// `v` without the characters of `set` at either end.
pub fn trim_set_chars(v: &Vec<char>, set: &Vec<char>) -> (r: Vec<char>)
    ensures
        r@ == trim_set(v@, set@),
{
    let mut lo: usize = 0;
    assert(v@.skip(0) =~= v@);
    while lo < v.len() && in_set(set, v[lo])
        invariant
            lo <= v.len(),
            trim_start(v@, set@) == trim_start(v@.skip(lo as int), set@),
        decreases v.len() - lo,
    {
        assert(v@.skip(lo as int).skip(1) =~= v@.skip(lo + 1));
        lo += 1;
    }
    let mut hi: usize = v.len();
    assert(v@.subrange(lo as int, hi as int) =~= v@.skip(lo as int));
    while hi > lo && in_set(set, v[hi - 1])
        invariant
            lo <= hi <= v.len(),
            trim_set(v@, set@) == trim_end(v@.subrange(lo as int, hi as int), set@),
        decreases hi - lo,
    {
        assert(v@.subrange(lo as int, hi as int).drop_last() =~= v@.subrange(
            lo as int,
            hi - 1,
        ));
        hi -= 1;
    }
    slice_of(v, lo, hi)
}

/// `v` without the whitespace at either end.
pub fn trim_chars(v: &Vec<char>) -> (r: Vec<char>)
    ensures
        r@ == trim(v@),
{
    let set = whitespace_set();
    trim_set_chars(v, &set)
}

/// `v` without the characters of `set` at its end.
pub fn trim_end_chars(v: &Vec<char>, set: &Vec<char>) -> (r: Vec<char>)
    ensures
        r@ == trim_end(v@, set@),
{
    let mut hi: usize = v.len();
    assert(v@.take(hi as int) =~= v@);
    while hi > 0 && in_set(set, v[hi - 1])
        invariant
            hi <= v.len(),
            trim_end(v@, set@) == trim_end(v@.take(hi as int), set@),
        decreases hi,
    {
        assert(v@.take(hi as int).drop_last() =~= v@.take(hi - 1));
        hi -= 1;
    }
    slice_of(v, 0, hi)
}

/// The pieces of `parts`, with `sep` between each two neighbours.
pub fn join_strings(parts: &Vec<String>, sep: &str) -> (r: String)
    ensures
        r@ == join(crate::strs_view(parts@), sep@),
{
    let mut r = String::new();
    let mut i: usize = 0;
    while i < parts.len()
        invariant
            i <= parts.len(),
            r@ == join(crate::strs_view(parts@).take(i as int), sep@),
        decreases parts.len() - i,
    {
        let ghost all = crate::strs_view(parts@);
        assert(all.take(i + 1).drop_last() =~= all.take(i as int));
        if i > 0 {
            r.append(sep);
        }
        r.append(parts[i].as_str());
        i += 1;
    }
    assert(crate::strs_view(parts@).take(parts.len() as int) =~= crate::strs_view(parts@));
    r
}

/// The decimal digits of `n`.
pub fn decimal_string(n: usize) -> (r: String)
    ensures
        r@ == decimal(n as nat),
    decreases n,
{
    let d: usize = n % 10;
    let c: char = if d == 0 {
        '0'
    } else if d == 1 {
        '1'
    } else if d == 2 {
        '2'
    } else if d == 3 {
        '3'
    } else if d == 4 {
        '4'
    } else if d == 5 {
        '5'
    } else if d == 6 {
        '6'
    } else if d == 7 {
        '7'
    } else if d == 8 {
        '8'
    } else {
        '9'
    };
    if n < 10 {
        let mut r = String::new();
        r.push(c);
        assert(r@ =~= seq![c]);
        r
    } else {
        let mut r = decimal_string(n / 10);
        r.push(c);
        r
    }
}

/// `a` followed by `b`.
pub fn cat(a: &str, b: &str) -> (r: String)
    ensures
        r@ == a@ + b@,
{
    let mut r = String::from_str(a);
    r.append(b);
    r
}

/// Whether `name` is one of `names`.
pub fn holds(names: &Vec<String>, name: &String) -> (r: bool)
    ensures
        r == crate::strs_view(names@).contains(name@),
{
    let mut i: usize = 0;
    while i < names.len()
        invariant
            i <= names.len(),
            forall|k: int| 0 <= k < i ==> crate::strs_view(names@)[k] != name@,
        decreases names.len() - i,
    {
        if names[i] == *name {
            assert(crate::strs_view(names@)[i as int] == name@);
            return true;
        }
        i += 1;
    }
    false
}

} // verus!
