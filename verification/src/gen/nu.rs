//! Completions for Nushell: one `export extern` for each command and
//! subcommand, and a completer for each flag whose values are known.

use vstd::prelude::*;
use vstd::string::StringExecFns;
use crate::gen::util::{
    lemma_no_newline, lemma_one_line, lemma_writeln_line, long_forms, short_forms, trim_dashes,
    undashed, Output, OutputView,
};
use crate::pattern::{lines, lines_chars, lit, replace_all, replace_all_chars, texts_view, Pat};
use crate::text::{cat, chars_of, join, join_strings, starts_with, starts_with_at, string_of};
use crate::{
    lemma_any_view, lemma_command_view, strs_view, ArgType, ArgTypeView, CommandInfo,
    CommandInfoView, Flag, FlagView,
};

verus! {

/// Whether Nushell takes `form` for the name of a flag: it begins with two
/// hyphens, or it has two characters.
pub open spec fn is_nu_form(form: Seq<char>) -> bool {
    starts_with(form, seq!['-', '-']) || form.len() == 2
}

/// The forms among `forms` that Nushell takes, in their order.
pub open spec fn nu_forms(forms: Seq<Seq<char>>) -> Seq<Seq<char>>
    decreases forms.len(),
{
    if forms.len() == 0 {
        Seq::empty()
    } else if is_nu_form(forms.last()) {
        nu_forms(forms.drop_last()).push(forms.last())
    } else {
        nu_forms(forms.drop_last())
    }
}

/// The identifier that stands for a form: without the hyphens it begins
/// with, and with an underscore for each hyphen inside it.
pub open spec fn identifier(form: Seq<char>) -> Seq<char> {
    replace_all(Pat::Lit("-"@), undashed(form), "_"@)
}

/// The name of the command that completes the flag `ident` of `cmd_name`.
pub open spec fn completer_name(cmd_name: Seq<char>, ident: Seq<char>) -> Seq<char> {
    "nu-complete "@ + cmd_name + " "@ + ident
}

/// Whether `flag` gets a completer of its own: its type is known, and
/// Nushell takes one of its forms.
pub open spec fn has_completer(flag: FlagView) -> bool {
    flag.typ is Some && flag.typ != Some(ArgTypeView::Unknown) && nu_forms(flag.forms).len() > 0
}

/// What says in the signature how the value of `flag` is completed.
pub open spec fn type_suffix(cmd_name: Seq<char>, flag: FlagView) -> Seq<char> {
    if flag.typ is None {
        Seq::empty()
    } else if flag.typ == Some(ArgTypeView::Unknown) {
        ": string"@
    } else if has_completer(flag) {
        ": string@\""@ + completer_name(cmd_name, identifier(nu_forms(flag.forms)[0])) + "\""@
    } else {
        Seq::empty()
    }
}

/// The description of `flag` as a comment after its entry.
pub open spec fn desc_suffix(flag: FlagView) -> Seq<char> {
    match flag.desc {
        Some(d) => " # "@ + d,
        None => Seq::empty(),
    }
}

/// What follows the forms in each entry of `flag`.
pub open spec fn suffix(cmd_name: Seq<char>, flag: FlagView) -> Seq<char> {
    type_suffix(cmd_name, flag) + desc_suffix(flag)
}

/// The smaller of two lengths.
pub open spec fn min(a: nat, b: nat) -> nat {
    if a < b {
        a
    } else {
        b
    }
}

/// The entries of `flag` in the signature: each short form together with a
/// long form, as far as both go, then the long forms that are left, then the
/// short forms that are left.
pub open spec fn signature_entries(cmd_name: Seq<char>, flag: FlagView) -> Seq<Seq<char>> {
    let shorts = short_forms(nu_forms(flag.forms));
    let longs = long_forms(nu_forms(flag.forms));
    let k = min(shorts.len(), longs.len());
    let tail = suffix(cmd_name, flag);
    Seq::new(k, |i: int| longs[i] + "("@ + shorts[i] + ")"@ + tail) + Seq::new(
        (longs.len() - k) as nat,
        |i: int| longs[k + i] + tail,
    ) + Seq::new((shorts.len() - k) as nat, |i: int| shorts[k + i] + tail)
}

/// The entries of the first `n` of `flags`.
pub open spec fn entries(cmd_name: Seq<char>, flags: Seq<FlagView>, n: int) -> Seq<Seq<char>>
    decreases n,
{
    if n <= 0 || n > flags.len() {
        Seq::empty()
    } else {
        entries(cmd_name, flags, n - 1) + signature_entries(cmd_name, flags[n - 1])
    }
}

/// The record of one allowed value.
pub open spec fn choice(value: (Seq<char>, Option<Seq<char>>)) -> Seq<char> {
    match value.1 {
        Some(desc) => "{value: '"@ + value.0 + "', description: '"@ + desc + "'}"@,
        None => "{value: '"@ + value.0 + "'}"@,
    }
}

/// The records of the first `n` of the allowed values.
pub open spec fn choices(values: Seq<(Seq<char>, Option<Seq<char>>)>, n: int) -> Seq<Seq<char>>
    decreases n,
{
    if n <= 0 || n > values.len() {
        Seq::empty()
    } else {
        choices(values, n - 1).push(choice(values[n - 1]))
    }
}

/// The lists of the first `n` types of `typ`, which is one of several, each
/// as a spread.
pub open spec fn spreads(typ: ArgTypeView, n: int) -> Seq<Seq<char>>
    decreases typ, 0nat, n,
{
    match typ {
        ArgTypeView::Any(types) => if n <= 0 || n > types.len() {
            Seq::empty()
        } else {
            spreads(typ, n - 1).push("..."@ + completions(types[n - 1]))
        },
        _ => Seq::empty(),
    }
}

/// The Nushell expression that lists the values of `typ`: records with a
/// value and possibly a description.
pub open spec fn completions(typ: ArgTypeView) -> Seq<char>
    decreases typ, 1nat, 0int,
{
    match typ {
        ArgTypeView::Run { cmd, sep: Some(sep) } => "(("@ + cmd
            + ") | each { |it| $it | split row -n 2 '"@ + sep
            + "' | {value: $in.0, description: $in.1} })"@,
        ArgTypeView::Run { cmd, sep: None } => "(("@ + cmd + ") | each { |it| {value: $it} })"@,
        ArgTypeView::Strings(values) => "["@ + join(choices(values, values.len() as int), ", "@)
            + "]"@,
        ArgTypeView::Any(types) => "["@ + join(spreads(typ, types.len() as int), " "@) + "]"@,
        _ => "[]"@,
    }
}

/// `out` after the completer of `flag`, if it gets one.
pub open spec fn completer(cmd_name: Seq<char>, flag: FlagView, out: OutputView) -> OutputView {
    if has_completer(flag) {
        out.writeln(
            "def \""@ + completer_name(cmd_name, identifier(nu_forms(flag.forms)[0])) + "\" [] {"@,
        ).indent().writeln(completions(flag.typ->0)).dedent().writeln("}"@).writeln(""@)
    } else {
        out
    }
}

/// `out` after the completers of the first `n` of `flags`.
pub open spec fn completers(cmd_name: Seq<char>, flags: Seq<FlagView>, n: int, out: OutputView) -> OutputView
    decreases n,
{
    if n <= 0 || n > flags.len() {
        out
    } else {
        completer(cmd_name, flags[n - 1], completers(cmd_name, flags, n - 1, out))
    }
}

/// `out` after the first `n` of `lines`, each as a comment.
pub open spec fn comments(lines: Seq<Seq<char>>, n: int, out: OutputView) -> OutputView
    decreases n,
{
    if n <= 0 || n > lines.len() {
        out
    } else {
        comments(lines, n - 1, out).writeln("# "@ + lines[n - 1])
    }
}

/// The line that opens the signature of the command `cmd_name`.
pub open spec fn opening(cmd_name: Seq<char>) -> Seq<char> {
    "export extern \""@ + cmd_name + "\" ["@
}

/// `out` after the signature of the command `cmd_name`: the line that
/// opens it, the entries one level deeper, and the bracket that closes it.
pub open spec fn signature(cmd_name: Seq<char>, entries: Seq<Seq<char>>, out: OutputView) -> OutputView {
    out.writeln(opening(cmd_name)).indent().writeln(join(entries, "\n"@)).dedent().writeln("]"@)
}

/// `out` after the declaration of the one command `cmd` under the name
/// `cmd_name`: the completers of its flags, its description as comments, and
/// the `export extern` with the entries of its flags, one on each line.
pub open spec fn declaration(cmd_name: Seq<char>, cmd: CommandInfoView, out: OutputView) -> OutputView {
    let out = completers(cmd_name, cmd.flags, cmd.flags.len() as int, out);
    let out = match cmd.desc {
        Some(desc) => comments(lines(desc), lines(desc).len() as int, out),
        None => out,
    };
    signature(cmd_name, entries(cmd_name, cmd.flags, cmd.flags.len() as int), out).writeln(""@)
}

/// `out` after the declarations of the first `n` subcommands of `cmd`, each
/// with those of its own subcommands.
pub open spec fn sub_declarations(cmd_name: Seq<char>, cmd: CommandInfoView, n: int, out: OutputView) -> OutputView
    decreases cmd, 0nat, n,
{
    if n <= 0 || n > cmd.subcommands.len() {
        out
    } else {
        declarations(
            cmd_name + " "@ + cmd.subcommands[n - 1].name,
            cmd.subcommands[n - 1],
            sub_declarations(cmd_name, cmd, n - 1, out),
        )
    }
}

/// `out` after the declaration of `cmd` and those of its subcommands, each
/// under the names of the commands above it and its own, with spaces
/// between them.
pub open spec fn declarations(cmd_name: Seq<char>, cmd: CommandInfoView, out: OutputView) -> OutputView
    decreases cmd, 1nat, 0int,
{
    sub_declarations(cmd_name, cmd, cmd.subcommands.len() as int, declaration(cmd_name, cmd, out))
}

/// The name of the file that holds the completions of `name`.
pub open spec fn file_name(name: Seq<char>) -> Seq<char> {
    name + "-completions.nu"@
}

/// The completions of `cmd`.
pub open spec fn script(cmd: CommandInfoView) -> Seq<char> {
    declarations(cmd.name, cmd, OutputView::new("  "@)).text
}

/// Generate Nu code to provide completions for a particular type.
///
/// Generates a list of records with a value field and possibly a description
/// field
fn complete_type(typ: &ArgType) -> (r: String)
    ensures
        r@ == completions(typ@),
    decreases typ,
{
    match typ {
        ArgType::Run { cmd, sep } => match sep {
            Some(sep) => cat(
                cat(
                    cat(cat("((", cmd.as_str()).as_str(), ") | each { |it| $it | split row -n 2 '").as_str(),
                    sep.as_str(),
                ).as_str(),
                "' | {value: $in.0, description: $in.1} })",
            ),
            None => cat(cat("((", cmd.as_str()).as_str(), ") | each { |it| {value: $it} })"),
        },
        ArgType::Strings(strs) => {
            let ghost values = crate::choices_view(strs@);
            let mut records: Vec<String> = Vec::new();
            let mut i: usize = 0;
            assert(strs_view(records@) =~= choices(values, 0));
            while i < strs.len()
                invariant
                    i <= strs.len(),
                    values == crate::choices_view(strs@),
                    strs_view(records@) == choices(values, i as int),
                decreases strs.len() - i,
            {
                let ghost before = strs_view(records@);
                let record = match &strs[i].1 {
                    Some(desc) => cat(
                        cat(
                            cat(cat("{value: '", strs[i].0.as_str()).as_str(), "', description: '").as_str(),
                            desc.as_str(),
                        ).as_str(),
                        "'}",
                    ),
                    None => cat(cat("{value: '", strs[i].0.as_str()).as_str(), "'}"),
                };
                records.push(record);
                assert(strs_view(records@) =~= before.push(record@));
                i += 1;
            }
            cat(cat("[", join_strings(&records, ", ").as_str()).as_str(), "]")
        },
        ArgType::Any(types) => {
            proof {
                lemma_any_view(*types);
            }
            let mut lists: Vec<String> = Vec::new();
            let mut i: usize = 0;
            assert(strs_view(lists@) =~= spreads(typ@, 0));
            while i < types.len()
                invariant
                    i <= types.len(),
                    *typ == ArgType::Any(*types),
                    typ@ == ArgTypeView::Any(crate::types_view(types@)),
                    strs_view(lists@) == spreads(typ@, i as int),
                decreases types.len() - i,
            {
                let ghost before = strs_view(lists@);
                let list = cat("...", complete_type(&types[i]).as_str());
                lists.push(list);
                assert(strs_view(lists@) =~= before.push(list@));
                i += 1;
            }
            cat(cat("[", join_strings(&lists, " ").as_str()).as_str(), "]")
        },
        _ => String::from_str("[]"),
    }
}

/// The forms of a flag that Nushell takes.
fn nu_forms_of(forms: &Vec<String>) -> (r: Vec<Vec<char>>)
    ensures
        texts_view(r@) == nu_forms(strs_view(forms@)),
{
    let ghost all = strs_view(forms@);
    let mut r: Vec<Vec<char>> = Vec::new();
    let mut i: usize = 0;
    let two = vec!['-', '-'];
    assert(two@ =~= seq!['-', '-']);
    assert(texts_view(r@) =~= nu_forms(all.take(0)));
    while i < forms.len()
        invariant
            i <= forms.len(),
            all == strs_view(forms@),
            two@ == seq!['-', '-'],
            texts_view(r@) == nu_forms(all.take(i as int)),
        decreases forms.len() - i,
    {
        let ghost before = texts_view(r@);
        assert(all.take(i + 1).drop_last() =~= all.take(i as int));
        assert(all.take(i + 1).last() == forms@[i as int]@);
        let form = chars_of(forms[i].as_str());
        assert(form@.skip(0) =~= form@);
        if starts_with_at(&form, 0, &two) || form.len() == 2 {
            r.push(form);
            assert(texts_view(r@) =~= before.push(form@));
        }
        i += 1;
    }
    assert(all.take(forms.len() as int) =~= all);
    r
}

/// The short forms and the long forms among `forms`.
fn partition(forms: &Vec<Vec<char>>) -> (r: (Vec<String>, Vec<String>))
    ensures
        strs_view(r.0@) == short_forms(texts_view(forms@)),
        strs_view(r.1@) == long_forms(texts_view(forms@)),
{
    let ghost all = texts_view(forms@);
    let mut shorts: Vec<String> = Vec::new();
    let mut longs: Vec<String> = Vec::new();
    let mut i: usize = 0;
    assert(strs_view(shorts@) =~= short_forms(all.take(0)));
    assert(strs_view(longs@) =~= long_forms(all.take(0)));
    while i < forms.len()
        invariant
            i <= forms.len(),
            all == texts_view(forms@),
            strs_view(shorts@) == short_forms(all.take(i as int)),
            strs_view(longs@) == long_forms(all.take(i as int)),
        decreases forms.len() - i,
    {
        let ghost short_before = strs_view(shorts@);
        let ghost long_before = strs_view(longs@);
        assert(all.take(i + 1).drop_last() =~= all.take(i as int));
        assert(all.take(i + 1).last() == forms@[i as int]@);
        if forms[i].len() == 2 {
            shorts.push(string_of(&forms[i]));
            assert(strs_view(shorts@) =~= short_before.push(forms@[i as int]@));
        } else {
            longs.push(string_of(&forms[i]));
            assert(strs_view(longs@) =~= long_before.push(forms@[i as int]@));
        }
        i += 1;
    }
    assert(all.take(forms.len() as int) =~= all);
    (shorts, longs)
}

/// Whether `typ` is the unknown type.
fn is_unknown(typ: &ArgType) -> (r: bool)
    ensures
        r == (typ@ == ArgTypeView::Unknown),
{
    match typ {
        ArgType::Unknown => true,
        ArgType::Any(types) => {
            proof {
                lemma_any_view(*types);
            }
            false
        },
        _ => false,
    }
}

/// Appends the entries of one flag to `flags_strs`, and writes its
/// completer, if it gets one.
fn generate_flag(cmd_name: &str, flag: &Flag, flags_strs: &mut Vec<String>, out: &mut Output)
    ensures
        strs_view(final(flags_strs)@) == strs_view(old(flags_strs)@) + signature_entries(
            cmd_name@,
            flag@,
        ),
        final(out)@ == completer(cmd_name@, flag@, old(out)@),
{
    // Filter out flags that Nu won't like
    let forms = nu_forms_of(&flag.forms);
    let (short_forms, long_forms) = partition(&forms);
    let ghost shorts = strs_view(short_forms@);
    let ghost longs = strs_view(long_forms@);

    let desc_str = match &flag.desc {
        Some(desc) => cat(" # ", desc.as_str()),
        None => String::new(),
    };

    let type_str = match &flag.typ {
        Some(typ) => {
            if is_unknown(typ) {
                String::from_str(": string")
            } else if forms.len() > 0 {
                // Turn it into a valid Nu identifier
                let first_form = trim_dashes(string_of(&forms[0]).as_str());
                let ident = string_of(
                    &replace_all_chars(&lit("-"), &chars_of(first_form.as_str()), &chars_of("_")),
                );
                let name = cat(cat(cat("nu-complete ", cmd_name).as_str(), " ").as_str(), ident.as_str());
                out.writeln(cat(cat("def \"", name.as_str()).as_str(), "\" [] {").as_str());
                out.indent();
                out.writeln(complete_type(typ).as_str());
                out.dedent();
                out.writeln("}");
                out.writeln("");
                cat(cat(": string@\"", name.as_str()).as_str(), "\"")
            } else {
                String::new()
            }
        },
        None => String::new(),
    };
    let tail = cat(type_str.as_str(), desc_str.as_str());
    assert(tail@ == suffix(cmd_name@, flag@));

    // Pair off as many long and short forms as possible
    let k: usize = if short_forms.len() < long_forms.len() {
        short_forms.len()
    } else {
        long_forms.len()
    };
    let ghost base = strs_view(flags_strs@);
    let ghost both = Seq::new(k as nat, |i: int| longs[i] + "("@ + shorts[i] + ")"@ + tail@);
    let ghost more_longs = Seq::new((longs.len() - k) as nat, |i: int| longs[k + i] + tail@);
    let ghost more_shorts = Seq::new((shorts.len() - k) as nat, |i: int| shorts[k + i] + tail@);
    let mut i: usize = 0;
    assert(base + both.take(0) =~= base);
    while i < k
        invariant
            i <= k,
            k <= short_forms.len(),
            k <= long_forms.len(),
            shorts == strs_view(short_forms@),
            longs == strs_view(long_forms@),
            both == Seq::new(k as nat, |i: int| longs[i] + "("@ + shorts[i] + ")"@ + tail@),
            strs_view(flags_strs@) == base + both.take(i as int),
        decreases k - i,
    {
        let ghost before = strs_view(flags_strs@);
        let entry = cat(
            cat(
                cat(cat(long_forms[i].as_str(), "(").as_str(), short_forms[i].as_str()).as_str(),
                ")",
            ).as_str(),
            tail.as_str(),
        );
        flags_strs.push(entry);
        assert(strs_view(flags_strs@) =~= before.push(entry@));
        assert(both.take(i + 1) =~= both.take(i as int).push(both[i as int]));
        i += 1;
    }
    assert(both.take(k as int) =~= both);
    let mut i: usize = k;
    assert(base + both + more_longs.take(0) =~= base + both);
    while i < long_forms.len()
        invariant
            k <= i <= long_forms.len(),
            longs == strs_view(long_forms@),
            more_longs == Seq::new((longs.len() - k) as nat, |i: int| longs[k + i] + tail@),
            strs_view(flags_strs@) == base + both + more_longs.take(i - k),
        decreases long_forms.len() - i,
    {
        let ghost before = strs_view(flags_strs@);
        let entry = cat(long_forms[i].as_str(), tail.as_str());
        flags_strs.push(entry);
        assert(strs_view(flags_strs@) =~= before.push(entry@));
        assert(more_longs.take(i - k + 1) =~= more_longs.take(i - k).push(more_longs[i - k]));
        i += 1;
    }
    assert(more_longs.take(long_forms.len() - k) =~= more_longs);
    let mut i: usize = k;
    assert(base + both + more_longs + more_shorts.take(0) =~= base + both + more_longs);
    while i < short_forms.len()
        invariant
            k <= i <= short_forms.len(),
            shorts == strs_view(short_forms@),
            more_shorts == Seq::new((shorts.len() - k) as nat, |i: int| shorts[k + i] + tail@),
            strs_view(flags_strs@) == base + both + more_longs + more_shorts.take(i - k),
        decreases short_forms.len() - i,
    {
        let ghost before = strs_view(flags_strs@);
        let entry = cat(short_forms[i].as_str(), tail.as_str());
        flags_strs.push(entry);
        assert(strs_view(flags_strs@) =~= before.push(entry@));
        assert(more_shorts.take(i - k + 1) =~= more_shorts.take(i - k).push(more_shorts[i - k]));
        i += 1;
    }
    assert(more_shorts.take(short_forms.len() - k) =~= more_shorts);
    assert(base + both + more_longs + more_shorts =~= base + signature_entries(cmd_name@, flag@));
}

fn generate_cmd(cmd_name: &str, cmd: &CommandInfo, out: &mut Output)
    ensures
        final(out)@ == declarations(cmd_name@, cmd@, old(out)@),
    decreases cmd,
{
    proof {
        lemma_command_view(*cmd);
    }
    // Instead of immediately writing the flags to the command, build up a list of
    // formatted flags here. The completers of the flags are written first, so
    // that the signature of the extern can use them
    let mut flags_strs: Vec<String> = Vec::new();
    let ghost start = out@;
    let mut i: usize = 0;
    assert(strs_view(flags_strs@) =~= entries(cmd_name@, cmd@.flags, 0));
    while i < cmd.flags.len()
        invariant
            i <= cmd.flags.len(),
            cmd@.flags == crate::flags_view(cmd.flags@),
            strs_view(flags_strs@) == entries(cmd_name@, cmd@.flags, i as int),
            out@ == completers(cmd_name@, cmd@.flags, i as int, start),
        decreases cmd.flags.len() - i,
    {
        generate_flag(cmd_name, &cmd.flags[i], &mut flags_strs, out);
        i += 1;
    }

    // Generate the actual `export extern` command
    match &cmd.desc {
        Some(desc) => {
            let desc_lines = lines_chars(&chars_of(desc.as_str()));
            let ghost start = out@;
            let mut i: usize = 0;
            while i < desc_lines.len()
                invariant
                    i <= desc_lines.len(),
                    texts_view(desc_lines@) == lines(desc@),
                    out@ == comments(lines(desc@), i as int, start),
                decreases desc_lines.len() - i,
            {
                assert(texts_view(desc_lines@)[i as int] == desc_lines@[i as int]@);
                out.writeln(cat("# ", string_of(&desc_lines[i]).as_str()).as_str());
                i += 1;
            }
        },
        None => {},
    }
    out.writeln(cat(cat("export extern \"", cmd_name).as_str(), "\" [").as_str());
    out.indent();
    out.writeln(join_strings(&flags_strs, "\n").as_str());
    out.dedent();
    out.writeln("]");
    out.writeln("");
    assert(out@ == declaration(cmd_name@, cmd@, old(out)@));

    let ghost start = out@;
    let mut k: usize = 0;
    while k < cmd.subcommands.len()
        invariant
            k <= cmd.subcommands.len(),
            cmd@.subcommands == crate::commands_view(cmd.subcommands@),
            out@ == sub_declarations(cmd_name@, cmd@, k as int, start),
        decreases cmd.subcommands.len() - k,
    {
        let sub_cmd = &cmd.subcommands[k];
        proof {
            lemma_command_view(*sub_cmd);
        }
        let name = cat(cat(cmd_name, " ").as_str(), sub_cmd.name.as_str());
        generate_cmd(name.as_str(), sub_cmd, out);
        k += 1;
    }
}

/// Generate completions for Nushell
pub fn generate(cmd: &CommandInfo) -> (r: (String, String))
    ensures
        r.0@ == file_name(cmd@.name),
        r.1@ == script(cmd@),
{
    proof {
        lemma_command_view(*cmd);
    }
    let mut res = Output::new(String::from_str("  "));
    generate_cmd(cmd.name.as_str(), cmd, &mut res);
    (cat(cmd.name.as_str(), "-completions.nu"), res.text())
}

/// Whether `form` can be read back from an entry: it holds none of the
/// characters that end the forms of an entry or open its parenthesis.
pub open spec fn is_plain_form(form: Seq<char>) -> bool {
    !form.contains(':') && !form.contains(' ') && !form.contains('(')
}

/// The length of the forms of an entry: what stands before its first colon
/// or space.
pub open spec fn head_len(entry: Seq<char>) -> nat
    decreases entry.len(),
{
    if entry.len() > 0 && entry[0] != ':' && entry[0] != ' ' {
        1 + head_len(entry.skip(1))
    } else {
        0
    }
}

/// The number of characters before the first parenthesis of `head`.
pub open spec fn paren_at(head: Seq<char>) -> nat
    decreases head.len(),
{
    if head.len() > 0 && head[0] != '(' {
        1 + paren_at(head.skip(1))
    } else {
        0
    }
}

/// The spellings that an entry of a signature is read as: the form before
/// the parenthesis and the form inside it, or the one form.
pub open spec fn entry_spellings(entry: Seq<char>) -> Seq<Seq<char>> {
    let head = entry.take(head_len(entry) as int);
    let i = paren_at(head) as int;
    if i < head.len() {
        seq![head.take(i), head.subrange(i + 1, head.len() - 1)]
    } else {
        seq![head]
    }
}

/// The spellings that the entries of a signature are read as.
pub open spec fn spellings(entries: Seq<Seq<char>>) -> Seq<Seq<char>>
    decreases entries.len(),
{
    if entries.len() == 0 {
        Seq::empty()
    } else {
        spellings(entries.drop_last()) + entry_spellings(entries.last())
    }
}

proof fn lemma_contains_add(s: Seq<Seq<char>>, t: Seq<Seq<char>>, x: Seq<char>)
    ensures
        (s + t).contains(x) <==> (s.contains(x) || t.contains(x)),
{
    if s.contains(x) {
        let i = choose|i: int| 0 <= i < s.len() && s[i] == x;
        assert((s + t)[i] == x);
    }
    if t.contains(x) {
        let i = choose|i: int| 0 <= i < t.len() && t[i] == x;
        assert((s + t)[s.len() + i] == x);
    }
    if (s + t).contains(x) {
        let i = choose|i: int| 0 <= i < (s + t).len() && (s + t)[i] == x;
        if i < s.len() {
            assert(s[i] == x);
        } else {
            assert(t[i - s.len()] == x);
        }
    }
}

/// A form is a short form or a long form.
proof fn lemma_short_or_long(forms: Seq<Seq<char>>, x: Seq<char>)
    ensures
        forms.contains(x) <==> (short_forms(forms).contains(x) || long_forms(forms).contains(x)),
    decreases forms.len(),
{
    if forms.len() > 0 {
        let rest = forms.drop_last();
        let last = forms.last();
        lemma_short_or_long(rest, x);
        assert(forms =~= rest + seq![last]);
        lemma_contains_add(rest, seq![last], x);
        assert(seq![last].contains(x) <==> x == last) by {
            if x == last {
                assert(seq![last][0] == x);
            }
        }
        assert(short_forms(rest).push(last) =~= short_forms(rest) + seq![last]);
        assert(long_forms(rest).push(last) =~= long_forms(rest) + seq![last]);
        lemma_contains_add(short_forms(rest), seq![last], x);
        lemma_contains_add(long_forms(rest), seq![last], x);
    }
}

/// The forms of an entry stand before what follows them.
proof fn lemma_head_len(forms: Seq<char>, tail: Seq<char>)
    requires
        !forms.contains(':'),
        !forms.contains(' '),
        tail.len() == 0 || tail[0] == ':' || tail[0] == ' ',
    ensures
        head_len(forms + tail) == forms.len(),
    decreases forms.len(),
{
    if forms.len() > 0 {
        assert(forms.contains(forms[0]));
        assert((forms + tail).skip(1) =~= forms.skip(1) + tail);
        assert forall|c: char| forms.skip(1).contains(c) implies forms.contains(c) by {
            let i = choose|i: int| 0 <= i < forms.skip(1).len() && forms.skip(1)[i] == c;
            assert(forms[i + 1] == c);
        }
        lemma_head_len(forms.skip(1), tail);
    } else {
        assert(forms + tail =~= tail);
    }
}

/// The parenthesis of an entry stands after its first form.
proof fn lemma_paren_at(form: Seq<char>, rest: Seq<char>)
    requires
        !form.contains('('),
        rest.len() == 0 || rest[0] == '(',
    ensures
        paren_at(form + rest) == form.len(),
    decreases form.len(),
{
    if form.len() > 0 {
        assert(form.contains(form[0]));
        assert((form + rest).skip(1) =~= form.skip(1) + rest);
        assert forall|c: char| form.skip(1).contains(c) implies form.contains(c) by {
            let i = choose|i: int| 0 <= i < form.skip(1).len() && form.skip(1)[i] == c;
            assert(form[i + 1] == c);
        }
        lemma_paren_at(form.skip(1), rest);
    } else {
        assert(form + rest =~= rest);
    }
}

/// What follows the forms of an entry begins with a colon or a space.
proof fn lemma_suffix_begins(cmd_name: Seq<char>, flag: FlagView)
    ensures
        suffix(cmd_name, flag).len() == 0 || suffix(cmd_name, flag)[0] == ':' || suffix(
            cmd_name,
            flag,
        )[0] == ' ',
{
    reveal_strlit(": string");
    reveal_strlit(": string@\"");
    reveal_strlit(" # ");
    let t = type_suffix(cmd_name, flag);
    let d = desc_suffix(flag);
    if t.len() > 0 {
        assert(t[0] == ':');
        assert((t + d)[0] == t[0]);
    } else {
        assert(t + d =~= d);
        if d.len() > 0 {
            assert(d[0] == ' ');
        }
    }
}

/// An entry of one form is read as that form.
proof fn lemma_single_entry(form: Seq<char>, tail: Seq<char>)
    requires
        is_plain_form(form),
        tail.len() == 0 || tail[0] == ':' || tail[0] == ' ',
    ensures
        entry_spellings(form + tail) == seq![form],
{
    lemma_head_len(form, tail);
    assert((form + tail).take(form.len() as int) =~= form);
    lemma_paren_at(form, Seq::empty());
    assert(form + Seq::<char>::empty() =~= form);
}

/// An entry of a long form and a short form is read as the two.
proof fn lemma_double_entry(long: Seq<char>, short: Seq<char>, tail: Seq<char>)
    requires
        is_plain_form(long),
        is_plain_form(short),
        tail.len() == 0 || tail[0] == ':' || tail[0] == ' ',
    ensures
        entry_spellings(long + "("@ + short + ")"@ + tail) == seq![long, short],
{
    reveal_strlit("(");
    reveal_strlit(")");
    let head = long + "("@ + short + ")"@;
    assert forall|i: int| 0 <= i < head.len() implies head[i] != ':' && head[i] != ' ' by {
        if i < long.len() {
            assert(long.contains(long[i]));
        } else if long.len() < i < long.len() + 1 + short.len() {
            assert(head[i] == short[i - long.len() - 1]);
            assert(short.contains(short[i - long.len() - 1]));
        }
    }
    lemma_head_len(head, tail);
    assert((head + tail).take(head.len() as int) =~= head);
    assert(head =~= long + ("("@ + short + ")"@));
    lemma_paren_at(long, "("@ + short + ")"@);
    assert(head.take(long.len() as int) =~= long);
    assert(head.subrange(long.len() as int + 1, head.len() - 1) =~= short);
}

/// A spelling that is read from the entries is read from one of them.
proof fn lemma_spellings_contains(entries: Seq<Seq<char>>, x: Seq<char>)
    ensures
        spellings(entries).contains(x) <==> exists|e: int|
            0 <= e < entries.len() && (#[trigger] entry_spellings(entries[e])).contains(x),
    decreases entries.len(),
{
    if entries.len() > 0 {
        let rest = entries.drop_last();
        lemma_spellings_contains(rest, x);
        lemma_contains_add(spellings(rest), entry_spellings(entries.last()), x);
        if spellings(rest).contains(x) {
            let e = choose|e: int|
                0 <= e < rest.len() && (#[trigger] entry_spellings(rest[e])).contains(x);
            assert(entries[e] == rest[e]);
        }
        if exists|e: int|
            0 <= e < entries.len() && (#[trigger] entry_spellings(entries[e])).contains(x) {
            let e = choose|e: int|
                0 <= e < entries.len() && (#[trigger] entry_spellings(entries[e])).contains(x);
            if e < rest.len() {
                assert(entries[e] == rest[e]);
            }
        }
    }
}

/// The entries of a flag in a signature are read back as the forms of the
/// flag that Nushell takes, whatever form stands beside what other form:
/// for a flag whose forms hold no colon, space or opening parenthesis, the
/// spellings that are read are those forms.
pub proof fn lemma_signature_reads_back(cmd_name: Seq<char>, flag: FlagView)
    requires
        forall|i: int|
            0 <= i < nu_forms(flag.forms).len() ==> is_plain_form(#[trigger] nu_forms(flag.forms)[i]),
    ensures
        spellings(signature_entries(cmd_name, flag)).to_set() == nu_forms(flag.forms).to_set(),
{
    let forms = nu_forms(flag.forms);
    let shorts = short_forms(forms);
    let longs = long_forms(forms);
    let k = min(shorts.len(), longs.len()) as int;
    let tail = suffix(cmd_name, flag);
    let both = Seq::new(k as nat, |i: int| longs[i] + "("@ + shorts[i] + ")"@ + tail);
    let more_longs = Seq::new((longs.len() - k) as nat, |i: int| longs[k + i] + tail);
    let more_shorts = Seq::new((shorts.len() - k) as nat, |i: int| shorts[k + i] + tail);
    let entries = signature_entries(cmd_name, flag);
    assert(entries == both + more_longs + more_shorts);
    lemma_suffix_begins(cmd_name, flag);
    assert forall|i: int| 0 <= i < shorts.len() implies is_plain_form(#[trigger] shorts[i]) by {
        lemma_short_or_long(forms, shorts[i]);
        let j = choose|j: int| 0 <= j < forms.len() && forms[j] == shorts[i];
        assert(is_plain_form(forms[j]));
    }
    assert forall|i: int| 0 <= i < longs.len() implies is_plain_form(#[trigger] longs[i]) by {
        lemma_short_or_long(forms, longs[i]);
        let j = choose|j: int| 0 <= j < forms.len() && forms[j] == longs[i];
        assert(is_plain_form(forms[j]));
    }
    assert forall|e: int| 0 <= e < entries.len() implies (#[trigger] entry_spellings(entries[e]))
        == (if e < k {
        seq![longs[e], shorts[e]]
    } else if e < longs.len() {
        seq![longs[e]]
    } else {
        seq![shorts[e - longs.len() + k]]
    }) by {
        if e < k {
            assert(entries[e] == both[e]);
            lemma_double_entry(longs[e], shorts[e], tail);
        } else if e < longs.len() {
            assert(entries[e] == more_longs[e - k]);
            lemma_single_entry(longs[e], tail);
        } else {
            assert(entries[e] == more_shorts[e - longs.len()]);
            lemma_single_entry(shorts[e - longs.len() + k], tail);
        }
    }
    assert forall|x: Seq<char>| spellings(entries).contains(x) <==> forms.contains(x) by {
        lemma_spellings_contains(entries, x);
        lemma_short_or_long(forms, x);
        if spellings(entries).contains(x) {
            let e = choose|e: int|
                0 <= e < entries.len() && (#[trigger] entry_spellings(entries[e])).contains(x);
            let read = entry_spellings(entries[e]);
            let i = choose|i: int| 0 <= i < read.len() && read[i] == x;
            if e < k {
                if i == 0 {
                    assert(longs[e] == x);
                } else {
                    assert(shorts[e] == x);
                }
            } else if e < longs.len() {
                assert(longs[e] == x);
            } else {
                assert(shorts[e - longs.len() + k] == x);
            }
        }
        if longs.contains(x) {
            let j = choose|j: int| 0 <= j < longs.len() && longs[j] == x;
            assert(entry_spellings(entries[j])[0] == x);
            assert(entry_spellings(entries[j]).contains(x));
        }
        if shorts.contains(x) {
            let j = choose|j: int| 0 <= j < shorts.len() && shorts[j] == x;
            if j < k {
                assert(entry_spellings(entries[j])[1] == x);
                assert(entry_spellings(entries[j]).contains(x));
            } else {
                let e = j - k + longs.len();
                assert(entry_spellings(entries[e])[0] == x);
                assert(entry_spellings(entries[e]).contains(x));
            }
        }
    }
    assert(spellings(entries).to_set() =~= forms.to_set());
}

/// The forms that Nushell takes of the first `n` of `flags`.
pub open spec fn all_nu_forms(flags: Seq<FlagView>, n: int) -> Seq<Seq<char>>
    decreases n,
{
    if n <= 0 || n > flags.len() {
        Seq::empty()
    } else {
        all_nu_forms(flags, n - 1) + nu_forms(flags[n - 1].forms)
    }
}

/// Forms that Nushell takes, all of them, are all kept.
pub proof fn lemma_nu_forms_all_kept(forms: Seq<Seq<char>>)
    requires
        forall|i: int| 0 <= i < forms.len() ==> is_nu_form(#[trigger] forms[i]),
    ensures
        nu_forms(forms) == forms,
    decreases forms.len(),
{
    if forms.len() > 0 {
        assert forall|i: int| 0 <= i < forms.drop_last().len() implies is_nu_form(
            #[trigger] forms.drop_last()[i],
        ) by {
            assert(forms.drop_last()[i] == forms[i]);
        }
        lemma_nu_forms_all_kept(forms.drop_last());
        assert(is_nu_form(forms[forms.len() - 1]));
        assert(forms.drop_last().push(forms.last()) =~= forms);
    } else {
        assert(nu_forms(forms) =~= forms);
    }
}

/// What is read from two lists of entries is what is read from the one and
/// from the other.
proof fn lemma_spellings_add(a: Seq<Seq<char>>, b: Seq<Seq<char>>)
    ensures
        spellings(a + b) == spellings(a) + spellings(b),
    decreases b.len(),
{
    if b.len() == 0 {
        assert(a + b =~= a);
        assert(spellings(a) + spellings(b) =~= spellings(a));
    } else {
        lemma_spellings_add(a, b.drop_last());
        assert((a + b).drop_last() =~= a + b.drop_last());
        assert((a + b).last() == b.last());
        assert(spellings(a) + spellings(b.drop_last()) + entry_spellings(b.last()) =~= spellings(a)
            + (spellings(b.drop_last()) + entry_spellings(b.last())));
    }
}

/// The signature of a command is read back as the forms of its flags that
/// Nushell takes, where those hold no colon, space or opening parenthesis.
pub proof fn lemma_signatures_read_back(cmd_name: Seq<char>, flags: Seq<FlagView>, n: int)
    requires
        0 <= n <= flags.len(),
        forall|f: int, i: int|
            0 <= f < flags.len() && 0 <= i < nu_forms(flags[f].forms).len() ==> is_plain_form(
                #[trigger] nu_forms(flags[f].forms)[i],
            ),
    ensures
        spellings(entries(cmd_name, flags, n)).to_set() == all_nu_forms(flags, n).to_set(),
    decreases n,
{
    if n > 0 {
        lemma_signatures_read_back(cmd_name, flags, n - 1);
        let before = entries(cmd_name, flags, n - 1);
        let own = signature_entries(cmd_name, flags[n - 1]);
        lemma_spellings_add(before, own);
        assert forall|i: int| 0 <= i < nu_forms(flags[n - 1].forms).len() implies is_plain_form(
            #[trigger] nu_forms(flags[n - 1].forms)[i],
        ) by {}
        lemma_signature_reads_back(cmd_name, flags[n - 1]);
        let forms = nu_forms(flags[n - 1].forms);
        assert forall|x: Seq<char>|
            (spellings(before) + spellings(own)).contains(x) <==> (all_nu_forms(flags, n - 1)
                + forms).contains(x) by {
            lemma_contains_add(spellings(before), spellings(own), x);
            lemma_contains_add(all_nu_forms(flags, n - 1), forms, x);
            assert(spellings(before).to_set().contains(x) <==> all_nu_forms(
                flags,
                n - 1,
            ).to_set().contains(x));
            assert(spellings(own).to_set().contains(x) <==> forms.to_set().contains(x));
        }
        assert(spellings(entries(cmd_name, flags, n)).to_set() =~= all_nu_forms(flags, n).to_set());
    } else {
        assert(spellings(entries(cmd_name, flags, n)).to_set() =~= all_nu_forms(flags, n).to_set());
    }
}

/// To replace a character in two texts is to replace it in each.
proof fn lemma_replace_char_add(c: char, a: Seq<char>, b: Seq<char>, to: Seq<char>)
    ensures
        replace_all(Pat::Lit(seq![c]), a + b, to) == replace_all(Pat::Lit(seq![c]), a, to)
            + replace_all(Pat::Lit(seq![c]), b, to),
    decreases a.len(),
{
    let p = Pat::Lit(seq![c]);
    if a.len() == 0 {
        assert(a + b =~= b);
        assert(replace_all(p, a, to) + replace_all(p, b, to) =~= replace_all(p, b, to));
    } else {
        assert((a + b).skip(1) =~= a.skip(1) + b);
        assert((a + b).take(1) =~= a.take(1));
        lemma_replace_char_add(c, a.skip(1), b, to);
        if a[0] == c {
            assert(a.take(1) =~= seq![c]);
            assert(to + (replace_all(p, a.skip(1), to) + replace_all(p, b, to)) =~= (to
                + replace_all(p, a.skip(1), to)) + replace_all(p, b, to));
        } else {
            assert(a.take(1)[0] != seq![c][0]);
            assert(seq![a[0]] + (replace_all(p, a.skip(1), to) + replace_all(p, b, to)) =~= (seq![
                a[0],
            ] + replace_all(p, a.skip(1), to)) + replace_all(p, b, to));
        }
    }
}

/// Where the newlines between lines are replaced, the lines stand with
/// what replaces them in between.
proof fn lemma_replace_between(entries: Seq<Seq<char>>, to: Seq<char>)
    requires
        forall|i: int| 0 <= i < entries.len() ==> !(#[trigger] entries[i]).contains('\n'),
    ensures
        replace_all(Pat::Lit("\n"@), join(entries, "\n"@), to) == join(entries, to),
    decreases entries.len(),
{
    reveal_strlit("\n");
    let p = Pat::Lit("\n"@);
    assert("\n"@ =~= seq!['\n']);
    if entries.len() == 0 {
    } else if entries.len() == 1 {
        lemma_one_line(entries[0]);
        crate::pattern::lemma_replace_nothing(p, entries[0], to);
    } else {
        let rest = entries.drop_last();
        assert forall|i: int| 0 <= i < rest.len() implies !(#[trigger] rest[i]).contains('\n') by {
            assert(rest[i] == entries[i]);
        }
        lemma_replace_between(rest, to);
        lemma_one_line(entries.last());
        crate::pattern::lemma_replace_nothing(p, entries.last(), to);
        lemma_replace_char_add('\n', join(rest, "\n"@) + "\n"@, entries.last(), to);
        lemma_replace_char_add('\n', join(rest, "\n"@), "\n"@, to);
        let one = seq!['\n'];
        assert(one.skip(1) =~= Seq::<char>::empty());
        assert(one.take(1) =~= one);
        assert(replace_all(p, one.skip(1), to) =~= Seq::<char>::empty());
        assert(replace_all(p, one, to) =~= to);
    }
}

/// The signature of a command is, as text, the line that opens it, the
/// entries, each on a line of its own one level deeper, and the bracket
/// that closes it: the lines between the brackets are the entries, whose
/// spellings [`lemma_signatures_read_back`] reads back.
pub proof fn lemma_signature_text(cmd_name: Seq<char>, entries: Seq<Seq<char>>, out: OutputView)
    requires
        out.line_ended,
        out.indent_level < usize::MAX,
        !cmd_name.contains('\n'),
        forall|i: int| 0 <= i < entries.len() ==> !(#[trigger] entries[i]).contains('\n'),
    ensures
        signature(cmd_name, entries, out) == (OutputView {
            text: out.text + out.pad() + opening(cmd_name) + seq!['\n'] + out.indent().pad() + join(
                entries,
                "\n"@ + out.indent().pad(),
            ) + seq!['\n'] + out.pad() + "]"@ + seq!['\n'],
            ..out
        }),
{
    reveal_strlit("export extern \"");
    reveal_strlit("\" [");
    reveal_strlit("]");
    assert(!"export extern \""@.contains('\n')) by {
        if "export extern \""@.contains('\n') {
            let i = choose|i: int| 0 <= i < "export extern \""@.len() && "export extern \""@[i] == '\n';
        }
    }
    assert(!"\" ["@.contains('\n')) by {
        if "\" ["@.contains('\n') {
            let i = choose|i: int| 0 <= i < "\" ["@.len() && "\" ["@[i] == '\n';
        }
    }
    assert(!"]"@.contains('\n')) by {
        if "]"@.contains('\n') {
            let i = choose|i: int| 0 <= i < "]"@.len() && "]"@[i] == '\n';
        }
    }
    lemma_no_newline("export extern \""@, cmd_name);
    lemma_no_newline("export extern \""@ + cmd_name, "\" ["@);
    lemma_writeln_line(out, opening(cmd_name));
    let opened = out.writeln(opening(cmd_name)).indent();
    let pad = opened.pad();
    assert(pad == out.indent().pad());
    lemma_replace_between(entries, "\n"@ + pad);
    let listed = opened.writeln(join(entries, "\n"@));
    assert(listed.text =~= opened.text + pad + join(entries, "\n"@ + pad) + seq!['\n']);
    let closed = listed.dedent();
    assert(closed.indent_level == out.indent_level);
    assert(closed.pad() == out.pad());
    lemma_writeln_line(closed, "]"@);
    assert(signature(cmd_name, entries, out).text =~= out.text + out.pad() + opening(cmd_name)
        + seq!['\n'] + out.indent().pad() + join(entries, "\n"@ + out.indent().pad()) + seq!['\n']
        + out.pad() + "]"@ + seq!['\n']);
}

} // verus!
