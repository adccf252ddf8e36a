//! Which subcommand the page of a hyphenated name documents.
//!
//! A page named `git-commit-tree` may document `git commit-tree`,
//! `git commit tree`, `git-commit tree` or the one command
//! `git-commit-tree`. The name is taken apart at its hyphens in every way,
//! and the first way that the text of the page itself confirms is taken.

use vstd::prelude::*;
use crate::pattern::{contains, contains_pattern, lit, replace_all, replace_all_chars, texts_view, Pat, Pattern};
use crate::text::{chars_of, join, push_all, slice_of, string_of};
use crate::strs_view;

verus! {

/// The indices of the hyphens among the first `n` characters of `name`, in
/// rising order.
pub open spec fn hyphens_of(name: Seq<char>, n: int) -> Seq<int>
    decreases n,
{
    if n <= 0 || n > name.len() {
        Seq::empty()
    } else if name[n - 1] == '-' {
        hyphens_of(name, n - 1).push(n - 1)
    } else {
        hyphens_of(name, n - 1)
    }
}

/// Every list of `lefts`, each followed by the words of `right`.
pub open spec fn followed(lefts: Seq<Seq<Seq<char>>>, right: Seq<Seq<char>>) -> Seq<Seq<Seq<char>>> {
    Seq::new(lefts.len(), |j: int| lefts[j] + right)
}

/// For each list of `rights` in turn, every list of `lefts` followed by it.
pub open spec fn crossed(lefts: Seq<Seq<Seq<char>>>, rights: Seq<Seq<Seq<char>>>) -> Seq<
    Seq<Seq<char>>,
>
    decreases rights.len(),
{
    if rights.len() == 0 {
        Seq::empty()
    } else {
        crossed(lefts, rights.drop_last()) + followed(lefts, rights.last())
    }
}

/// The ways to take `name[lo..hi]` apart into two or more words at a hyphen
/// among the first `n` of `hyphens`, the hyphens inside that part. The ways
/// that part at an earlier hyphen come first. For one hyphen, the part after
/// it is taken apart further or left whole, the whole last, and for each
/// such right side the part before the hyphen likewise.
pub open spec fn splits_upto(name: Seq<char>, lo: int, hi: int, hyphens: Seq<int>, n: int) -> Seq<
    Seq<Seq<char>>,
>
    decreases hyphens.len(), n,
{
    if n <= 0 || n > hyphens.len() {
        Seq::empty()
    } else {
        let i = n - 1;
        let mid = hyphens[i];
        let rights = splits(name, mid + 1, hi, hyphens.skip(i + 1)).push(
            seq![name.subrange(mid + 1, hi)],
        );
        let lefts = splits(name, lo, mid, hyphens.take(i)).push(seq![name.subrange(lo, mid)]);
        splits_upto(name, lo, hi, hyphens, n - 1) + crossed(lefts, rights)
    }
}

/// The ways to take `name[lo..hi]` apart into two or more words at the given
/// hyphens, in the order in which they are tried.
pub open spec fn splits(name: Seq<char>, lo: int, hi: int, hyphens: Seq<int>) -> Seq<
    Seq<Seq<char>>,
>
    decreases hyphens.len(), hyphens.len() + 1,
{
    splits_upto(name, lo, hi, hyphens, hyphens.len() as int)
}

/// The ways to take the whole of `name` apart at its hyphens.
pub open spec fn candidates(name: Seq<char>) -> Seq<Seq<Seq<char>>> {
    splits(name, 0, name.len() as int, hyphens_of(name, name.len() as int))
}

/// How a man page writes the command of the given words: the words with
/// spaces between them, each hyphen escaped.
pub open spec fn evidence(words: Seq<Seq<char>>) -> Seq<char> {
    replace_all(Pat::Lit("-"@), join(words, " "@), "\\-"@)
}

/// The index of the first of `candidates`, at or after `from`, whose
/// evidence stands in `text`.
pub open spec fn first_evidenced(candidates: Seq<Seq<Seq<char>>>, text: Seq<char>, from: int) -> Option<
    int,
>
    decreases candidates.len() - from,
{
    if from < 0 || from >= candidates.len() {
        None
    } else if contains(Pat::Lit(evidence(candidates[from])), text) {
        Some(from)
    } else {
        first_evidenced(candidates, text, from + 1)
    }
}

/// The words of the command that the page `text` of the name `cmd_name`
/// documents: the first way to take the name apart whose evidence stands in
/// the text, or the name as one word.
pub open spec fn detected(cmd_name: Seq<char>, text: Seq<char>) -> Seq<Seq<char>> {
    match first_evidenced(candidates(cmd_name), text, 0) {
        Some(i) => candidates(cmd_name)[i],
        None => seq![cmd_name],
    }
}

/// The characters of each word of each list.
pub open spec fn lists_view(v: Seq<Vec<Vec<char>>>) -> Seq<Seq<Seq<char>>> {
    Seq::new(v.len(), |i: int| texts_view(v[i]@))
}

/// The hyphens of a window: the indices `hyphens[a..b]`, as integers.
pub open spec fn window(hyphens: Seq<usize>, a: int, b: int) -> Seq<int> {
    Seq::new((b - a) as nat, |k: int| hyphens[a + k] as int)
}

/// Whether `hyphens[a..b]` rise and lie in `lo..hi`.
pub open spec fn window_ok(hyphens: Seq<usize>, a: int, b: int, lo: int, hi: int) -> bool {
    &&& 0 <= a <= b <= hyphens.len()
    &&& forall|k: int| a <= k < b ==> lo <= #[trigger] hyphens[k] < hi
    &&& forall|j: int, k: int| a <= j < k < b ==> hyphens[j] < hyphens[k]
}

/// A name without a hyphen can be taken apart in no way.
pub proof fn lemma_no_hyphen_no_candidate(name: Seq<char>)
    requires
        !name.contains('-'),
    ensures
        candidates(name).len() == 0,
{
    lemma_no_hyphens(name, name.len() as int);
}

proof fn lemma_no_hyphens(name: Seq<char>, n: int)
    requires
        !name.contains('-'),
    ensures
        hyphens_of(name, n).len() == 0,
    decreases n,
{
    if 0 < n <= name.len() {
        assert(name[n - 1] != '-');
        lemma_no_hyphens(name, n - 1);
    }
}

/// The indices of the hyphens of `name`.
fn hyphen_indices(name: &Vec<char>) -> (r: Vec<usize>)
    ensures
        window(r@, 0, r.len() as int) == hyphens_of(name@, name.len() as int),
        window_ok(r@, 0, r.len() as int, 0, name.len() as int),
{
    let mut r: Vec<usize> = Vec::new();
    let mut i: usize = 0;
    assert(window(r@, 0, 0) =~= hyphens_of(name@, 0));
    while i < name.len()
        invariant
            i <= name.len(),
            window(r@, 0, r.len() as int) == hyphens_of(name@, i as int),
            window_ok(r@, 0, r.len() as int, 0, i as int),
        decreases name.len() - i,
    {
        let ghost before = window(r@, 0, r.len() as int);
        if name[i] == '-' {
            r.push(i);
            assert(window(r@, 0, r.len() as int) =~= before.push(i as int));
        }
        i += 1;
    }
    r
}

/// The text of `parts` with `sep` between each two neighbours.
pub(crate) fn join_chars(parts: &Vec<Vec<char>>, sep: &Vec<char>) -> (r: Vec<char>)
    ensures
        r@ == join(texts_view(parts@), sep@),
{
    let mut r: Vec<char> = Vec::new();
    let mut i: usize = 0;
    while i < parts.len()
        invariant
            i <= parts.len(),
            r@ == join(texts_view(parts@).take(i as int), sep@),
        decreases parts.len() - i,
    {
        let ghost all = texts_view(parts@);
        assert(all.take(i + 1).drop_last() =~= all.take(i as int));
        if i > 0 {
            push_all(&mut r, sep);
        }
        push_all(&mut r, &parts[i]);
        i += 1;
    }
    assert(texts_view(parts@).take(parts.len() as int) =~= texts_view(parts@));
    r
}

/// A copy of a list of words.
fn copy_words(words: &Vec<Vec<char>>) -> (r: Vec<Vec<char>>)
    ensures
        texts_view(r@) == texts_view(words@),
{
    let mut r: Vec<Vec<char>> = Vec::new();
    let mut i: usize = 0;
    while i < words.len()
        invariant
            i <= words.len(),
            texts_view(r@) == texts_view(words@).take(i as int),
        decreases words.len() - i,
    {
        let ghost before = texts_view(r@);
        let w = slice_of(&words[i], 0, words[i].len());
        assert(w@ =~= words@[i as int]@);
        r.push(w);
        assert(texts_view(r@) =~= before.push(w@));
        assert(texts_view(words@).take(i + 1) =~= texts_view(words@).take(i as int).push(w@));
        i += 1;
    }
    assert(texts_view(words@).take(words.len() as int) =~= texts_view(words@));
    r
}

/// The words of `left`, then those of `right`.
fn concat_words(left: &Vec<Vec<char>>, right: &Vec<Vec<char>>) -> (r: Vec<Vec<char>>)
    ensures
        texts_view(r@) == texts_view(left@) + texts_view(right@),
{
    let mut r = copy_words(left);
    let mut more = copy_words(right);
    let ghost a = texts_view(r@);
    let ghost b = texts_view(more@);
    r.append(&mut more);
    assert(texts_view(r@) =~= a + b);
    r
}

/// Find all possible subcommands that might have the given hyphenated man page
/// name
///
/// `hyphens[a..b]` are the indices of the hyphens inside `name[lo..hi]`.
fn all_possible_subcommands(
    name: &Vec<char>,
    lo: usize,
    hi: usize,
    hyphens: &Vec<usize>,
    a: usize,
    b: usize,
) -> (r: Vec<Vec<Vec<char>>>)
    requires
        lo <= hi <= name.len(),
        window_ok(hyphens@, a as int, b as int, lo as int, hi as int),
    ensures
        lists_view(r@) == splits(name@, lo as int, hi as int, window(hyphens@, a as int, b as int)),
    decreases b - a,
{
    let ghost hs = window(hyphens@, a as int, b as int);
    let mut res: Vec<Vec<Vec<char>>> = Vec::new();
    let mut i: usize = a;
    assert(lists_view(res@) =~= splits_upto(name@, lo as int, hi as int, hs, 0));
    while i < b
        invariant
            a <= i <= b,
            lo <= hi <= name.len(),
            hs == window(hyphens@, a as int, b as int),
            window_ok(hyphens@, a as int, b as int, lo as int, hi as int),
            lists_view(res@) == splits_upto(name@, lo as int, hi as int, hs, i - a),
        decreases b - i,
    {
        let mid = hyphens[i];
        assert(hs[i - a] == mid);
        assert(hs.skip(i - a + 1) =~= window(hyphens@, i + 1, b as int));
        assert(hs.take(i - a) =~= window(hyphens@, a as int, i as int));
        let mut all_right = all_possible_subcommands(name, mid + 1, hi, hyphens, i + 1, b);
        let ghost inner_right = lists_view(all_right@);
        let whole_right = vec![slice_of(name, mid + 1, hi)];
        assert(texts_view(whole_right@) =~= seq![name@.subrange(mid + 1, hi as int)]);
        all_right.push(whole_right);
        assert(lists_view(all_right@) =~= inner_right.push(
            seq![name@.subrange(mid + 1, hi as int)],
        ));
        let mut all_left = all_possible_subcommands(name, lo, mid, hyphens, a, i);
        let ghost inner_left = lists_view(all_left@);
        let whole_left = vec![slice_of(name, lo, mid)];
        assert(texts_view(whole_left@) =~= seq![name@.subrange(lo as int, mid as int)]);
        all_left.push(whole_left);
        assert(lists_view(all_left@) =~= inner_left.push(seq![name@.subrange(lo as int, mid as int)]));
        let ghost lefts = lists_view(all_left@);
        let ghost rights = lists_view(all_right@);
        let ghost base = lists_view(res@);

        let mut x: usize = 0;
        assert(base + crossed(lefts, rights.take(0)) =~= base);
        while x < all_right.len()
            invariant
                x <= all_right.len(),
                lefts == lists_view(all_left@),
                rights == lists_view(all_right@),
                lists_view(res@) == base + crossed(lefts, rights.take(x as int)),
            decreases all_right.len() - x,
        {
            let ghost done = lists_view(res@);
            let mut y: usize = 0;
            assert(done + followed(lefts, rights[x as int]).take(0) =~= done);
            while y < all_left.len()
                invariant
                    y <= all_left.len(),
                    x < all_right.len(),
                    lefts == lists_view(all_left@),
                    rights == lists_view(all_right@),
                    lists_view(res@) == done + followed(lefts, rights[x as int]).take(y as int),
                decreases all_left.len() - y,
            {
                let ghost so_far = lists_view(res@);
                let words = concat_words(&all_left[y], &all_right[x]);
                res.push(words);
                assert(lists_view(res@) =~= so_far.push(lefts[y as int] + rights[x as int]));
                assert(followed(lefts, rights[x as int]).take(y + 1) =~= followed(
                    lefts,
                    rights[x as int],
                ).take(y as int).push(lefts[y as int] + rights[x as int]));
                y += 1;
            }
            assert(followed(lefts, rights[x as int]).take(all_left.len() as int) =~= followed(
                lefts,
                rights[x as int],
            ));
            assert(rights.take(x + 1).drop_last() =~= rights.take(x as int));
            assert(rights.take(x + 1).last() == rights[x as int]);
            assert(base + (crossed(lefts, rights.take(x as int)) + followed(lefts, rights[x as int]))
                =~= done + followed(lefts, rights[x as int]));
            x += 1;
        }
        assert(rights.take(all_right.len() as int) =~= rights);
        i += 1;
    }
    res
}

/// The strings of a list of words.
pub(crate) fn strings_of(words: &Vec<Vec<char>>) -> (r: Vec<String>)
    ensures
        strs_view(r@) == texts_view(words@),
{
    let mut r: Vec<String> = Vec::new();
    let mut i: usize = 0;
    while i < words.len()
        invariant
            i <= words.len(),
            strs_view(r@) == texts_view(words@).take(i as int),
        decreases words.len() - i,
    {
        let ghost before = strs_view(r@);
        let s = string_of(&words[i]);
        r.push(s);
        assert(strs_view(r@) =~= before.push(words@[i as int]@));
        assert(texts_view(words@).take(i + 1) =~= texts_view(words@).take(i as int).push(
            words@[i as int]@,
        ));
        i += 1;
    }
    assert(texts_view(words@).take(words.len() as int) =~= texts_view(words@));
    r
}

pub(crate) fn detect_chars(cmd_name: &Vec<char>, text: &Vec<char>) -> (r: Vec<String>)
    ensures
        strs_view(r@) == detected(cmd_name@, text@),
{
    let hyphens = hyphen_indices(cmd_name);
    let all = all_possible_subcommands(cmd_name, 0, cmd_name.len(), &hyphens, 0, hyphens.len());
    let space = chars_of(" ");
    let escaped = chars_of("\\-");
    let mut i: usize = 0;
    while i < all.len()
        invariant
            i <= all.len(),
            lists_view(all@) == candidates(cmd_name@),
            space@ == " "@,
            escaped@ == "\\-"@,
            first_evidenced(candidates(cmd_name@), text@, 0) == first_evidenced(
                candidates(cmd_name@),
                text@,
                i as int,
            ),
        decreases all.len() - i,
    {
        assert(lists_view(all@)[i as int] == texts_view(all@[i as int]@));
        let as_sub_cmd = replace_all_chars(&lit("-"), &join_chars(&all[i], &space), &escaped);
        if contains_pattern(&Pattern::Lit(as_sub_cmd), text) {
            return strings_of(&all[i]);
        }
        i += 1;
    }
    let whole = vec![string_of(cmd_name)];
    assert(strs_view(whole@) =~= seq![cmd_name@]);
    whole
}

/// Try to detect if the given command is actually a subcommand and break it up
/// into its pieces.
///
/// Given command `git-log`, the result would be `vec!["git", "log"]`. A single
/// command like `git` would be `vec!["git"]`.
pub fn detect_subcommand(cmd_name: &str, text: &str) -> (r: Vec<String>)
    ensures
        strs_view(r@) == detected(cmd_name@, text@),
        strs_view(r@) == seq![cmd_name@] || contains(Pat::Lit(evidence(strs_view(r@))), text@),
        !cmd_name@.contains('-') ==> strs_view(r@) == seq![cmd_name@],
{
    proof {
        lemma_detected_is_evidenced(cmd_name@, text@);
        if !cmd_name@.contains('-') {
            lemma_no_hyphen_no_candidate(cmd_name@);
        }
    }
    detect_chars(&chars_of(cmd_name), &chars_of(text))
}

/// A name is taken apart only where the text holds the evidence for it.
pub proof fn lemma_detected_is_evidenced(cmd_name: Seq<char>, text: Seq<char>)
    ensures
        detected(cmd_name, text) == seq![cmd_name] || contains(
            Pat::Lit(evidence(detected(cmd_name, text))),
            text,
        ),
{
    lemma_first_evidenced(candidates(cmd_name), text, 0);
}

proof fn lemma_first_evidenced(candidates: Seq<Seq<Seq<char>>>, text: Seq<char>, from: int)
    requires
        0 <= from,
    ensures
        match first_evidenced(candidates, text, from) {
            Some(i) => from <= i < candidates.len() && contains(
                Pat::Lit(evidence(candidates[i])),
                text,
            ),
            None => true,
        },
    decreases candidates.len() - from,
{
    if from < candidates.len() && !contains(Pat::Lit(evidence(candidates[from])), text) {
        lemma_first_evidenced(candidates, text, from + 1);
    }
}

/// A name without a hyphen is one word, whatever the text holds.
pub proof fn lemma_name_without_hyphen(cmd_name: Seq<char>, text: Seq<char>)
    requires
        !cmd_name.contains('-'),
    ensures
        detected(cmd_name, text) == seq![cmd_name],
{
    lemma_no_hyphen_no_candidate(cmd_name);
}

} // verus!
