//! What the generators share: quoting, the pairing of short and long
//! forms, and a writer that indents.

use vstd::prelude::*;
use crate::pattern::{
    contains, lemma_find_bounds, lemma_replace_nothing, lit, replace_all, replace_all_chars, Pat,
};
use crate::text::{chars_of, push_all, slice_of, starts_with, starts_with_at, string_of};
use crate::strs_view;

verus! {

/// `s` between single quotes, each single quote inside it written `'"'"'`.
pub open spec fn quoted(s: Seq<char>) -> Seq<char> {
    "'"@ + replace_all(Pat::Lit("'"@), s, "'\"'\"'"@) + "'"@
}

/// `s` without the two hyphens, or the one hyphen, that it begins with.
pub open spec fn undashed(s: Seq<char>) -> Seq<char> {
    if starts_with(s, seq!['-', '-']) {
        s.skip(2)
    } else if starts_with(s, seq!['-']) {
        s.skip(1)
    } else {
        s
    }
}

/// Whether `form` is a short form: a form of two characters.
pub open spec fn is_short(form: Seq<char>) -> bool {
    form.len() == 2
}

/// The short forms among `forms`, in their order.
pub open spec fn short_forms(forms: Seq<Seq<char>>) -> Seq<Seq<char>>
    decreases forms.len(),
{
    if forms.len() == 0 {
        Seq::empty()
    } else if is_short(forms.last()) {
        short_forms(forms.drop_last()).push(forms.last())
    } else {
        short_forms(forms.drop_last())
    }
}

/// The long forms among `forms`, in their order.
pub open spec fn long_forms(forms: Seq<Seq<char>>) -> Seq<Seq<char>>
    decreases forms.len(),
{
    if forms.len() == 0 {
        Seq::empty()
    } else if is_short(forms.last()) {
        long_forms(forms.drop_last())
    } else {
        long_forms(forms.drop_last()).push(forms.last())
    }
}

/// The form at index `i` of `forms`, if there is one.
pub open spec fn form_at(forms: Seq<Seq<char>>, i: int) -> Option<Seq<char>> {
    if 0 <= i < forms.len() {
        Some(forms[i])
    } else {
        None
    }
}

/// The forms in pairs: the first short form with the first long form, the
/// second with the second, and so on; the forms of the longer list that are
/// left stand alone.
pub open spec fn paired(forms: Seq<Seq<char>>) -> Seq<(Option<Seq<char>>, Option<Seq<char>>)> {
    let shorts = short_forms(forms);
    let longs = long_forms(forms);
    Seq::new(
        if shorts.len() < longs.len() {
            longs.len()
        } else {
            shorts.len()
        },
        |i: int| (form_at(shorts, i), form_at(longs, i)),
    )
}

/// The characters of an optional string that is borrowed.
pub open spec fn opt_string_view(s: Option<&String>) -> Option<Seq<char>> {
    match s {
        Some(s) => Some(s@),
        None => None,
    }
}

/// The characters of each form of a list of pairs.
pub open spec fn pairs_view(v: Seq<(Option<&String>, Option<&String>)>) -> Seq<
    (Option<Seq<char>>, Option<Seq<char>>),
> {
    Seq::new(v.len(), |i: int| (opt_string_view(v[i].0), opt_string_view(v[i].1)))
}

/// `s`, `n` times in a row.
pub open spec fn repeated(s: Seq<char>, n: nat) -> Seq<char>
    decreases n,
{
    if n == 0 {
        Seq::empty()
    } else {
        repeated(s, (n - 1) as nat) + s
    }
}

/// The state of an [`Output`]: the text written so far, the string that
/// indents by one level, the level, and whether the next text begins a line.
pub struct OutputView {
    pub text: Seq<char>,
    pub indent_str: Seq<char>,
    pub indent_level: nat,
    pub line_ended: bool,
}

impl OutputView {
    /// The state in which nothing is written yet.
    pub open spec fn new(indent_str: Seq<char>) -> OutputView {
        OutputView { text: Seq::empty(), indent_str, indent_level: 0, line_ended: false }
    }

    /// The indentation of a line at the current level.
    pub open spec fn pad(self) -> Seq<char> {
        repeated(self.indent_str, self.indent_level)
    }

    /// One level deeper, as far as the level can be counted.
    pub open spec fn indent(self) -> OutputView {
        OutputView {
            indent_level: if self.indent_level < usize::MAX {
                self.indent_level + 1
            } else {
                self.indent_level
            },
            ..self
        }
    }

    /// One level back, but not below the margin.
    pub open spec fn dedent(self) -> OutputView {
        OutputView {
            indent_level: if self.indent_level > 0 {
                (self.indent_level - 1) as nat
            } else {
                0
            },
            ..self
        }
    }

    /// After `s` is written: the text so far, the indentation if `s` begins
    /// a line, and `s` with the indentation after each of its newlines.
    pub open spec fn write(self, s: Seq<char>) -> OutputView {
        OutputView {
            text: self.text + (if self.line_ended {
                self.pad()
            } else {
                Seq::empty()
            }) + replace_all(Pat::Lit("\n"@), s, "\n"@ + self.pad()),
            line_ended: false,
            ..self
        }
    }

    /// After `s` is written and its line ended.
    pub open spec fn writeln(self, s: Seq<char>) -> OutputView {
        let written = self.write(s);
        OutputView { text: written.text.push('\n'), line_ended: true, ..written }
    }
}

/// Wrap in single quotes (and escape single quotes inside) so that it's safe
/// for Bash and Zsh to read
pub fn quote_bash(s: &str) -> (r: String)
    ensures
        r@ == quoted(s@),
{
    let mut r = chars_of("'");
    push_all(&mut r, &replace_all_chars(&lit("'"), &chars_of(s), &chars_of("'\"'\"'")));
    push_all(&mut r, &chars_of("'"));
    string_of(&r)
}

/// Remove the beginning dashes from a flag, but only the first two
pub fn trim_dashes(s: &str) -> (r: String)
    ensures
        r@ == undashed(s@),
{
    let v = chars_of(s);
    let two = vec!['-', '-'];
    let one = vec!['-'];
    assert(two@ =~= seq!['-', '-']);
    assert(one@ =~= seq!['-']);
    assert(v@.skip(0) =~= v@);
    if starts_with_at(&v, 0, &two) {
        string_of(&slice_of(&v, 2, v.len()))
    } else if starts_with_at(&v, 0, &one) {
        string_of(&slice_of(&v, 1, v.len()))
    } else {
        string_of(&v)
    }
}

/// Pairs the short forms of a flag with its long forms, as far as both go.
pub fn pair_forms(forms: &Vec<String>) -> (r: Vec<(Option<&String>, Option<&String>)>)
    ensures
        pairs_view(r@) == paired(strs_view(forms@)),
{
    let ghost all = strs_view(forms@);
    let mut shorts: Vec<&String> = Vec::new();
    let mut longs: Vec<&String> = Vec::new();
    let mut i: usize = 0;
    assert(all.take(0) =~= Seq::<Seq<char>>::empty());
    while i < forms.len()
        invariant
            i <= forms.len(),
            all == strs_view(forms@),
            shorts@.len() == short_forms(all.take(i as int)).len(),
            longs@.len() == long_forms(all.take(i as int)).len(),
            forall|k: int| 0 <= k < shorts@.len() ==> shorts@[k]@ == short_forms(all.take(i as int))[k],
            forall|k: int| 0 <= k < longs@.len() ==> longs@[k]@ == long_forms(all.take(i as int))[k],
        decreases forms.len() - i,
    {
        assert(all.take(i + 1).drop_last() =~= all.take(i as int));
        assert(all.take(i + 1).last() == forms@[i as int]@);
        if forms[i].as_str().unicode_len() == 2 {
            shorts.push(&forms[i]);
        } else {
            longs.push(&forms[i]);
        }
        i += 1;
    }
    assert(all.take(forms.len() as int) =~= all);
    let n = if shorts.len() < longs.len() {
        longs.len()
    } else {
        shorts.len()
    };
    let mut r: Vec<(Option<&String>, Option<&String>)> = Vec::new();
    let mut k: usize = 0;
    while k < n
        invariant
            k <= n,
            n == (if shorts.len() < longs.len() {
                longs.len()
            } else {
                shorts.len()
            }),
            shorts@.len() == short_forms(all).len(),
            longs@.len() == long_forms(all).len(),
            forall|j: int| 0 <= j < shorts@.len() ==> shorts@[j]@ == short_forms(all)[j],
            forall|j: int| 0 <= j < longs@.len() ==> longs@[j]@ == long_forms(all)[j],
            r@.len() == k,
            forall|j: int|
                0 <= j < k ==> (#[trigger] pairs_view(r@)[j]) == (
                    form_at(short_forms(all), j),
                    form_at(long_forms(all), j),
                ),
        decreases n - k,
    {
        let short = if k < shorts.len() {
            Some(shorts[k])
        } else {
            None
        };
        let long = if k < longs.len() {
            Some(longs[k])
        } else {
            None
        };
        let ghost before = pairs_view(r@);
        r.push((short, long));
        assert(pairs_view(r@) =~= before.push((opt_string_view(short), opt_string_view(long))));
        k += 1;
    }
    assert(pairs_view(r@) =~= paired(all));
    r
}

/// Helper to write indented text to a string
pub struct Output {
    text: Vec<char>,
    indent_str: Vec<char>,
    indent_level: usize,
    /// If true, need to indent when the next string is written
    line_ended: bool,
}

impl View for Output {
    type V = OutputView;

    closed spec fn view(&self) -> OutputView {
        OutputView {
            text: self.text@,
            indent_str: self.indent_str@,
            indent_level: self.indent_level as nat,
            line_ended: self.line_ended,
        }
    }
}

impl Output {
    /// Make a new [Output]. `indent_str` is the string to indent with (e.g.
    /// `"\t"`).
    pub fn new(indent_str: String) -> (r: Output)
        ensures
            r@ == OutputView::new(indent_str@),
    {
        Output {
            text: Vec::new(),
            indent_str: chars_of(indent_str.as_str()),
            indent_level: 0,
            line_ended: false,
        }
    }

    /// Increase the indentation level by 1
    pub fn indent(&mut self)
        ensures
            final(self)@ == old(self)@.indent(),
    {
        if self.indent_level < usize::MAX {
            self.indent_level += 1;
        }
    }

    /// Decrease the indentation level by 1
    pub fn dedent(&mut self)
        ensures
            final(self)@ == old(self)@.dedent(),
    {
        if self.indent_level > 0 {
            self.indent_level -= 1;
        }
    }

    fn pad(&self) -> (r: Vec<char>)
        ensures
            r@ == self@.pad(),
    {
        let mut r: Vec<char> = Vec::new();
        let mut i: usize = 0;
        while i < self.indent_level
            invariant
                i <= self.indent_level,
                r@ == repeated(self.indent_str@, i as nat),
            decreases self.indent_level - i,
        {
            push_all(&mut r, &self.indent_str);
            i += 1;
        }
        r
    }

    /// Writes the indentation of the current level
    fn write_indent(&mut self)
        ensures
            final(self)@ == (OutputView { text: old(self)@.text + old(self)@.pad(), ..old(self)@ }),
    {
        let pad = self.pad();
        push_all(&mut self.text, &pad);
    }

    /// Write some text (without a newline)
    pub fn write(&mut self, s: &str)
        ensures
            final(self)@ == old(self)@.write(s@),
    {
        let pad = self.pad();
        if self.line_ended {
            self.write_indent();
            self.line_ended = false;
        }
        let mut newline = chars_of("\n");
        push_all(&mut newline, &pad);
        let body = replace_all_chars(&lit("\n"), &chars_of(s), &newline);
        push_all(&mut self.text, &body);
        assert(self.text@ =~= old(self)@.write(s@).text);
    }

    /// Write some text (with a newline)
    pub fn writeln(&mut self, s: &str)
        ensures
            final(self)@ == old(self)@.writeln(s@),
    {
        self.write(s);
        self.text.push('\n');
        self.line_ended = true;
    }

    /// Consume this [Output], returning the text written to it
    pub fn text(self) -> (r: String)
        ensures
            r@ == self@.text,
    {
        string_of(&self.text)
    }
}

/// A text that holds no newline holds no match of the newline.
pub proof fn lemma_one_line(s: Seq<char>)
    requires
        !s.contains('\n'),
    ensures
        !contains(Pat::Lit("\n"@), s),
{
    reveal_strlit("\n");
    lemma_find_bounds(Pat::Lit("\n"@), s, 0);
    if contains(Pat::Lit("\n"@), s) {
        let i = crate::pattern::find(Pat::Lit("\n"@), s, 0)->0;
        assert(s.skip(i).take(1)[0] == '\n');
        assert(s[i] == '\n');
    }
}

/// What is written as a line of its own, where the line before it has
/// ended and the text holds no newline: the indentation, the text, and a
/// newline.
pub proof fn lemma_writeln_line(out: OutputView, s: Seq<char>)
    requires
        out.line_ended,
        !s.contains('\n'),
    ensures
        out.writeln(s) == (OutputView {
            text: out.text + out.pad() + s + seq!['\n'],
            line_ended: true,
            ..out
        }),
{
    lemma_one_line(s);
    lemma_replace_nothing(Pat::Lit("\n"@), s, "\n"@ + out.pad());
    assert(out.writeln(s).text =~= out.text + out.pad() + s + seq!['\n']);
}

/// A text that is made of two texts without a newline holds none.
pub proof fn lemma_no_newline(a: Seq<char>, b: Seq<char>)
    requires
        !a.contains('\n'),
        !b.contains('\n'),
    ensures
        !(a + b).contains('\n'),
{
    if (a + b).contains('\n') {
        let i = choose|i: int| 0 <= i < (a + b).len() && (a + b)[i] == '\n';
        if i < a.len() {
            assert(a[i] == '\n');
        } else {
            assert(b[i - a.len()] == '\n');
        }
    }
}

} // verus!
