//! Completions for Zsh: one function for each command and subcommand.
//!
//! A shortened example with git
//! ```text
//! #compdef git
//!
//! function _git {
//!     local line
//!     _arguments -C \
//!         '-h[Show help]' \
//!         '--help[Show help]' \
//!         ': :(pull checkout)' \
//!         '*::arg:->args'
//!     case $line[1] in
//!         pull) _git_pull;;
//!         checkout) _git_checkout;;
//!     esac
//! }
//!
//! function _git_pull {
//!     _arguments \
//!         '-v[Output additional information]'
//! }
//! ```

use vstd::prelude::*;
use vstd::string::StringExecFns;
use crate::gen::util::{
    lemma_no_newline, lemma_writeln_line, quote_bash, quoted, Output, OutputView,
};
use crate::pattern::{lit, replace_all, replace_all_chars, Pat};
use crate::text::{cat, chars_of, join, join_strings, string_of};
use crate::{lemma_command_view, strs_view, CommandInfo, CommandInfoView, FlagView};

verus! {

/// The description of a flag as it stands between the brackets of an
/// entry: with a backslash before each bracket of its own.
pub open spec fn bracket_safe(desc: Option<Seq<char>>) -> Seq<char> {
    match desc {
        Some(d) => replace_all(Pat::Lit("]"@), replace_all(Pat::Lit("["@), d, "\\["@), "\\]"@),
        None => Seq::empty(),
    }
}

/// The entry of one form of a flag: the form and the description in
/// brackets, quoted.
pub open spec fn form_entry(form: Seq<char>, desc: Seq<char>) -> Seq<char> {
    quoted(form + "["@ + desc + "]"@)
}

/// `out` after the entries of the first `n` of `forms`, each on a
/// continuation line of its own.
pub open spec fn form_entries(forms: Seq<Seq<char>>, desc: Seq<char>, n: int, out: OutputView) -> OutputView
    decreases n,
{
    if n <= 0 || n > forms.len() {
        out
    } else {
        form_entries(forms, desc, n - 1, out).writeln(" \\"@).write(form_entry(forms[n - 1], desc))
    }
}

/// `out` after the entries of all forms of the first `n` of `flags`.
pub open spec fn flag_entries(flags: Seq<FlagView>, n: int, out: OutputView) -> OutputView
    decreases n,
{
    if n <= 0 || n > flags.len() {
        out
    } else {
        form_entries(
            flags[n - 1].forms,
            bracket_safe(flags[n - 1].desc),
            flags[n - 1].forms.len() as int,
            flag_entries(flags, n - 1, out),
        )
    }
}

/// The names of the given commands.
pub open spec fn names(cmds: Seq<CommandInfoView>) -> Seq<Seq<char>> {
    Seq::new(cmds.len(), |i: int| cmds[i].name)
}

/// The name of the function of the subcommand `name` of the command whose
/// function is `fn_name`.
pub open spec fn sub_fn_name(fn_name: Seq<char>, name: Seq<char>) -> Seq<char> {
    fn_name + "_"@ + name
}

/// The case that sends the subcommand `name` to its function.
pub open spec fn case_line(fn_name: Seq<char>, name: Seq<char>) -> Seq<char> {
    name + ") "@ + sub_fn_name(fn_name, name) + ";;"@
}

/// `out` after the cases of the first `n` of `subcommands`.
pub open spec fn cases(subcommands: Seq<CommandInfoView>, fn_name: Seq<char>, n: int, out: OutputView) -> OutputView
    decreases n,
{
    if n <= 0 || n > subcommands.len() {
        out
    } else {
        cases(subcommands, fn_name, n - 1, out).writeln(case_line(fn_name, subcommands[n - 1].name))
    }
}

/// The entry that completes the names of the subcommands.
pub open spec fn subcommand_entry(subcommands: Seq<CommandInfoView>) -> Seq<char> {
    "': :("@ + join(names(subcommands), " "@) + ")' \\"@
}

/// The line that opens the function `fn_name`.
pub open spec fn header(fn_name: Seq<char>) -> Seq<char> {
    "function "@ + fn_name + " {"@
}

/// `out` after the function of a command without subcommands: `_arguments`
/// with the entries of the flags, and nothing that sends a word on.
pub open spec fn leaf_body(cmd: CommandInfoView, fn_name: Seq<char>, out: OutputView) -> OutputView {
    let out = out.writeln(""@).writeln(header(fn_name)).indent().write("_arguments"@).indent();
    flag_entries(cmd.flags, cmd.flags.len() as int, out).dedent().write("\n"@).dedent().writeln(
        "}"@,
    )
}

/// `out` after the block that sends the first word of the rest of the line
/// to the function of the subcommand that it names: one case for each of
/// `subcommands`, in their order.
pub open spec fn dispatch(subcommands: Seq<CommandInfoView>, fn_name: Seq<char>, out: OutputView) -> OutputView {
    cases(
        subcommands,
        fn_name,
        subcommands.len() as int,
        out.writeln("case $line[1] in"@).indent(),
    ).dedent().writeln("esac"@)
}

/// `out` after the function of a command with subcommands: the entries of
/// its flags, the entry that completes the names of the subcommands, the
/// entry that takes the rest of the line, and the block that sends each
/// subcommand to its function.
pub open spec fn parent_body(cmd: CommandInfoView, fn_name: Seq<char>, out: OutputView) -> OutputView {
    let out = out.writeln(""@).writeln(header(fn_name)).indent().writeln("local line"@).write(
        "_arguments -C"@,
    ).indent();
    let out = flag_entries(cmd.flags, cmd.flags.len() as int, out).writeln(" \\"@).writeln(
        subcommand_entry(cmd.subcommands),
    ).writeln("'*::arg:->args'"@).dedent();
    dispatch(cmd.subcommands, fn_name, out).dedent().writeln("}"@)
}

/// `out` after the function `fn_name` of the one command `cmd`.
pub open spec fn function_body(cmd: CommandInfoView, fn_name: Seq<char>, out: OutputView) -> OutputView {
    if cmd.subcommands.len() == 0 {
        leaf_body(cmd, fn_name, out)
    } else {
        parent_body(cmd, fn_name, out)
    }
}

/// `out` after the functions of the first `n` subcommands of `cmd`, each
/// with the functions of its own subcommands.
pub open spec fn sub_functions(cmd: CommandInfoView, fn_name: Seq<char>, n: int, out: OutputView) -> OutputView
    decreases cmd, 0nat, n,
{
    if n <= 0 || n > cmd.subcommands.len() {
        out
    } else {
        functions(
            cmd.subcommands[n - 1],
            sub_fn_name(fn_name, cmd.subcommands[n - 1].name),
            sub_functions(cmd, fn_name, n - 1, out),
        )
    }
}

/// `out` after the function of `cmd` and those of its subcommands, level by
/// level.
pub open spec fn functions(cmd: CommandInfoView, fn_name: Seq<char>, out: OutputView) -> OutputView
    decreases cmd, 1nat, 0int,
{
    sub_functions(cmd, fn_name, cmd.subcommands.len() as int, function_body(cmd, fn_name, out))
}

/// The name of the file that holds the completions of `name`.
pub open spec fn file_name(name: Seq<char>) -> Seq<char> {
    "_"@ + name + ".zsh"@
}

/// The completion script of `cmd`.
pub open spec fn script(cmd: CommandInfoView) -> Seq<char> {
    let out = OutputView::new("\t"@).writeln("#compdef "@ + cmd.name);
    let out = functions(cmd, "_"@ + cmd.name, out);
    out.writeln(""@).writeln("_"@ + cmd.name + " \"$@\""@).text
}

/// The names of the given commands.
pub(crate) fn names_of(cmds: &Vec<CommandInfo>) -> (r: Vec<String>)
    ensures
        strs_view(r@) == names(crate::commands_view(cmds@)),
{
    let mut r: Vec<String> = Vec::new();
    let mut i: usize = 0;
    while i < cmds.len()
        invariant
            i <= cmds.len(),
            r@.len() == i,
            forall|k: int| 0 <= k < i ==> r@[k]@ == cmds@[k]@.name,
        decreases cmds.len() - i,
    {
        proof {
            lemma_command_view(cmds@[i as int]);
        }
        r.push(cmds[i].name.clone());
        i += 1;
    }
    assert(strs_view(r@) =~= names(crate::commands_view(cmds@)));
    r
}

fn bracket_safe_desc(desc: &Option<String>) -> (r: String)
    ensures
        r@ == bracket_safe(crate::opt_view(*desc)),
{
    match desc {
        Some(d) => {
            let open = replace_all_chars(&lit("["), &chars_of(d.as_str()), &chars_of("\\["));
            string_of(&replace_all_chars(&lit("]"), &open, &chars_of("\\]")))
        },
        None => String::new(),
    }
}

/// Generate a completion function for a command/subcommand
///
/// `fn_name` is what to name the completion function. If you have a command
/// `foo` with subcommand `bar`, the completion function for `foo bar` would
/// be named `_foo_bar`
pub fn generate_fn(cmd: &CommandInfo, out: &mut Output, fn_name: &str)
    ensures
        final(out)@ == functions(cmd@, fn_name@, old(out)@),
    decreases cmd,
{
    proof {
        lemma_command_view(*cmd);
    }
    out.writeln("");
    out.writeln(cat(cat("function ", fn_name).as_str(), " {").as_str());
    out.indent();

    if cmd.subcommands.len() == 0 {
        out.write("_arguments");
    } else {
        out.writeln("local line");
        out.write("_arguments -C");
    }

    out.indent();
    let ghost start = out@;
    let mut i: usize = 0;
    while i < cmd.flags.len()
        invariant
            i <= cmd.flags.len(),
            cmd@.flags == crate::flags_view(cmd.flags@),
            out@ == flag_entries(cmd@.flags, i as int, start),
        decreases cmd.flags.len() - i,
    {
        let flag = &cmd.flags[i];
        let desc = bracket_safe_desc(&flag.desc);
        let ghost before = out@;
        let mut j: usize = 0;
        while j < flag.forms.len()
            invariant
                j <= flag.forms.len(),
                desc@ == bracket_safe(flag@.desc),
                flag@.forms == strs_view(flag.forms@),
                out@ == form_entries(flag@.forms, desc@, j as int, before),
            decreases flag.forms.len() - j,
        {
            let entry = cat(cat(cat(flag.forms[j].as_str(), "[").as_str(), desc.as_str()).as_str(), "]");
            let text = quote_bash(entry.as_str());
            out.writeln(" \\");
            out.write(text.as_str());
            j += 1;
        }
        i += 1;
    }

    if cmd.subcommands.len() == 0 {
        out.dedent();
        out.write("\n");
    } else {
        let sub_cmds = join_strings(&names_of(&cmd.subcommands), " ");
        out.writeln(" \\");
        out.writeln(cat(cat("': :(", sub_cmds.as_str()).as_str(), ")' \\").as_str());
        out.writeln("'*::arg:->args'");
        out.dedent();

        out.writeln("case $line[1] in");
        out.indent();
        let ghost start = out@;
        let mut k: usize = 0;
        while k < cmd.subcommands.len()
            invariant
                k <= cmd.subcommands.len(),
                cmd@.subcommands == crate::commands_view(cmd.subcommands@),
                out@ == cases(cmd@.subcommands, fn_name@, k as int, start),
            decreases cmd.subcommands.len() - k,
        {
            let sub_cmd = &cmd.subcommands[k];
            proof {
                lemma_command_view(*sub_cmd);
            }
            let target = cat(cat(fn_name, "_").as_str(), sub_cmd.name.as_str());
            let line = cat(cat(cat(sub_cmd.name.as_str(), ") ").as_str(), target.as_str()).as_str(), ";;");
            out.writeln(line.as_str());
            k += 1;
        }
        out.dedent();
        out.writeln("esac");
    }

    out.dedent();
    out.writeln("}");
    assert(out@ == function_body(cmd@, fn_name@, old(out)@));

    let ghost start = out@;
    let mut k: usize = 0;
    while k < cmd.subcommands.len()
        invariant
            k <= cmd.subcommands.len(),
            cmd@.subcommands == crate::commands_view(cmd.subcommands@),
            out@ == sub_functions(cmd@, fn_name@, k as int, start),
        decreases cmd.subcommands.len() - k,
    {
        let sub_cmd = &cmd.subcommands[k];
        proof {
            lemma_command_view(*sub_cmd);
        }
        let name = cat(cat(fn_name, "_").as_str(), sub_cmd.name.as_str());
        generate_fn(sub_cmd, out, name.as_str());
        k += 1;
    }
}

/// Generate a completion file for Zsh: its name and its text
pub fn generate(cmd: &CommandInfo) -> (r: (String, String))
    ensures
        r.0@ == file_name(cmd@.name),
        r.1@ == script(cmd@),
{
    proof {
        lemma_command_view(*cmd);
    }
    let comp_name = cat("_", cmd.name.as_str());
    let mut res = Output::new(String::from_str("\t"));
    res.writeln(cat("#compdef ", cmd.name.as_str()).as_str());
    generate_fn(cmd, &mut res, comp_name.as_str());
    res.writeln("");
    res.writeln(cat(comp_name.as_str(), " \"$@\"").as_str());
    (cat(comp_name.as_str(), ".zsh"), res.text())
}

/// A command with the name of its function.
pub struct Named {
    pub cmd: CommandInfoView,
    pub fn_name: Seq<char>,
}

/// The commands of the tree of the first `n` subcommands of `cmd`, each
/// before its own subcommands, with the names of their functions.
pub open spec fn sub_nodes(cmd: CommandInfoView, fn_name: Seq<char>, n: int) -> Seq<Named>
    decreases cmd, 0nat, n,
{
    if n <= 0 || n > cmd.subcommands.len() {
        Seq::empty()
    } else {
        sub_nodes(cmd, fn_name, n - 1) + nodes(
            cmd.subcommands[n - 1],
            sub_fn_name(fn_name, cmd.subcommands[n - 1].name),
        )
    }
}

/// The commands of the tree of `cmd`, each before its subcommands, with
/// the names of their functions: the name of the function of a subcommand
/// is that of its command, an underscore and its own name.
pub open spec fn nodes(cmd: CommandInfoView, fn_name: Seq<char>) -> Seq<Named>
    decreases cmd, 1nat, 0int,
{
    seq![Named { cmd, fn_name }] + sub_nodes(cmd, fn_name, cmd.subcommands.len() as int)
}

/// `out` after the function of the command `item` under its name.
#[verifier::opaque]
pub open spec fn written(item: Named, out: OutputView) -> OutputView {
    function_body(item.cmd, item.fn_name, out)
}

/// `out` after the function of each of the first `n` of `list`, one after
/// the other.
pub open spec fn bodies(list: Seq<Named>, n: int, out: OutputView) -> OutputView
    decreases n,
{
    if n <= 0 || n > list.len() {
        out
    } else {
        written(list[n - 1], bodies(list, n - 1, out))
    }
}

/// The functions of two lists are those of the first and then those of the
/// second.
proof fn lemma_bodies_add(a: Seq<Named>, b: Seq<Named>, n: int, out: OutputView)
    requires
        0 <= n <= b.len(),
    ensures
        bodies(a + b, a.len() + n, out) == bodies(b, n, bodies(a, a.len() as int, out)),
    decreases n,
{
    let all = a + b;
    let mid = bodies(a, a.len() as int, out);
    if n > 0 {
        lemma_bodies_add(a, b, n - 1, out);
        let before = bodies(all, a.len() + n - 1, out);
        assert(all[a.len() + n - 1] == b[n - 1]);
        assert(bodies(all, a.len() + n, out) == written(b[n - 1], before));
        assert(bodies(b, n, mid) == written(b[n - 1], before));
    } else {
        lemma_bodies_prefix(a, b, a.len() as int, out);
    }
}

proof fn lemma_bodies_prefix(a: Seq<Named>, b: Seq<Named>, n: int, out: OutputView)
    requires
        0 <= n <= a.len(),
    ensures
        bodies(a + b, n, out) == bodies(a, n, out),
    decreases n,
{
    if n > 0 {
        lemma_bodies_prefix(a, b, n - 1, out);
        assert((a + b)[n - 1] == a[n - 1]);
    }
}

proof fn lemma_sub_functions(cmd: CommandInfoView, fn_name: Seq<char>, n: int, out: OutputView)
    requires
        0 <= n <= cmd.subcommands.len(),
    ensures
        sub_functions(cmd, fn_name, n, out) == bodies(
            sub_nodes(cmd, fn_name, n),
            sub_nodes(cmd, fn_name, n).len() as int,
            out,
        ),
    decreases cmd, 0nat, n,
{
    if n > 0 {
        let child = cmd.subcommands[n - 1];
        let name = sub_fn_name(fn_name, child.name);
        lemma_sub_functions(cmd, fn_name, n - 1, out);
        let before = sub_nodes(cmd, fn_name, n - 1);
        lemma_functions(child, name, sub_functions(cmd, fn_name, n - 1, out));
        lemma_bodies_add(before, nodes(child, name), nodes(child, name).len() as int, out);
    }
}

/// One function is written for each command of the tree, a command before
/// its subcommands, each under the name of the functions above it and its
/// own, with underscores between them.
pub proof fn lemma_functions(cmd: CommandInfoView, fn_name: Seq<char>, out: OutputView)
    ensures
        functions(cmd, fn_name, out) == bodies(
            nodes(cmd, fn_name),
            nodes(cmd, fn_name).len() as int,
            out,
        ),
    decreases cmd, 1nat, 0int,
{
    let first = seq![Named { cmd, fn_name }];
    let rest = sub_nodes(cmd, fn_name, cmd.subcommands.len() as int);
    lemma_sub_functions(cmd, fn_name, cmd.subcommands.len() as int, function_body(cmd, fn_name, out));
    lemma_bodies_add(first, rest, rest.len() as int, out);
    reveal(written);
    assert(bodies(first, 1, out) == written(first[0], bodies(first, 0, out)));
}

/// The function of a command without subcommands is that of a leaf: it
/// holds `_arguments` with the entries of the flags and no block that
/// sends a word on, and no function follows it.
pub proof fn lemma_leaf(cmd: CommandInfoView, fn_name: Seq<char>, out: OutputView)
    requires
        cmd.subcommands.len() == 0,
    ensures
        functions(cmd, fn_name, out) == leaf_body(cmd, fn_name, out),
        nodes(cmd, fn_name) == seq![Named { cmd, fn_name }],
{
    assert(nodes(cmd, fn_name) =~= seq![Named { cmd, fn_name }]);
}

/// The text of the cases of the first `n` of `subcommands`, each on a line
/// of its own after the indentation `pad`.
pub open spec fn arms(subcommands: Seq<CommandInfoView>, fn_name: Seq<char>, n: int, pad: Seq<char>) -> Seq<
    char,
>
    decreases n,
{
    if n <= 0 || n > subcommands.len() {
        Seq::empty()
    } else {
        arms(subcommands, fn_name, n - 1, pad) + pad + case_line(fn_name, subcommands[n - 1].name)
            + seq!['\n']
    }
}

/// Whether neither `fn_name` nor the name of one of `subcommands` holds a
/// newline.
pub open spec fn one_line_names(subcommands: Seq<CommandInfoView>, fn_name: Seq<char>) -> bool {
    !fn_name.contains('\n') && forall|i: int|
        0 <= i < subcommands.len() ==> !(#[trigger] subcommands[i]).name.contains('\n')
}

proof fn lemma_case_line(fn_name: Seq<char>, name: Seq<char>)
    requires
        !fn_name.contains('\n'),
        !name.contains('\n'),
    ensures
        !case_line(fn_name, name).contains('\n'),
{
    reveal_strlit(") ");
    reveal_strlit("_");
    reveal_strlit(";;");
    assert(!") "@.contains('\n')) by {
        if ") "@.contains('\n') {
            let i = choose|i: int| 0 <= i < ") "@.len() && ") "@[i] == '\n';
        }
    }
    assert(!"_"@.contains('\n')) by {
        if "_"@.contains('\n') {
            let i = choose|i: int| 0 <= i < "_"@.len() && "_"@[i] == '\n';
        }
    }
    assert(!";;"@.contains('\n')) by {
        if ";;"@.contains('\n') {
            let i = choose|i: int| 0 <= i < ";;"@.len() && ";;"@[i] == '\n';
        }
    }
    lemma_no_newline(fn_name, "_"@);
    lemma_no_newline(fn_name + "_"@, name);
    lemma_no_newline(name, ") "@);
    lemma_no_newline(name + ") "@, sub_fn_name(fn_name, name));
    lemma_no_newline(name + ") "@ + sub_fn_name(fn_name, name), ";;"@);
}

proof fn lemma_cases_text(subcommands: Seq<CommandInfoView>, fn_name: Seq<char>, n: int, out: OutputView)
    requires
        0 <= n <= subcommands.len(),
        out.line_ended,
        one_line_names(subcommands, fn_name),
    ensures
        cases(subcommands, fn_name, n, out) == (OutputView {
            text: out.text + arms(subcommands, fn_name, n, out.pad()),
            ..out
        }),
    decreases n,
{
    if n > 0 {
        lemma_cases_text(subcommands, fn_name, n - 1, out);
        let before = cases(subcommands, fn_name, n - 1, out);
        lemma_case_line(fn_name, subcommands[n - 1].name);
        lemma_writeln_line(before, case_line(fn_name, subcommands[n - 1].name));
        assert(before.pad() == out.pad());
        assert(cases(subcommands, fn_name, n, out).text =~= out.text + arms(
            subcommands,
            fn_name,
            n,
            out.pad(),
        ));
    } else {
        assert(out.text + arms(subcommands, fn_name, n, out.pad()) =~= out.text);
    }
}

/// The block that sends a word on is, as text, the line `case $line[1] in`,
/// one case for each subcommand, in their order and one level deeper, each
/// made of the name of the subcommand and the name of its function, and
/// the line `esac`: it names the subcommands and nothing else.
pub proof fn lemma_dispatch_text(subcommands: Seq<CommandInfoView>, fn_name: Seq<char>, out: OutputView)
    requires
        out.line_ended,
        out.indent_level < usize::MAX,
        one_line_names(subcommands, fn_name),
    ensures
        dispatch(subcommands, fn_name, out) == (OutputView {
            text: out.text + out.pad() + "case $line[1] in"@ + seq!['\n'] + arms(
                subcommands,
                fn_name,
                subcommands.len() as int,
                out.indent().pad(),
            ) + out.pad() + "esac"@ + seq!['\n'],
            ..out
        }),
{
    reveal_strlit("case $line[1] in");
    reveal_strlit("esac");
    assert(!"case $line[1] in"@.contains('\n')) by {
        if "case $line[1] in"@.contains('\n') {
            let i = choose|i: int|
                0 <= i < "case $line[1] in"@.len() && "case $line[1] in"@[i] == '\n';
        }
    }
    assert(!"esac"@.contains('\n')) by {
        if "esac"@.contains('\n') {
            let i = choose|i: int| 0 <= i < "esac"@.len() && "esac"@[i] == '\n';
        }
    }
    lemma_writeln_line(out, "case $line[1] in"@);
    let opened = out.writeln("case $line[1] in"@).indent();
    lemma_cases_text(subcommands, fn_name, subcommands.len() as int, opened);
    let inside = cases(subcommands, fn_name, subcommands.len() as int, opened);
    let closed = inside.dedent();
    assert(closed.indent_level == out.indent_level);
    assert(closed.pad() == out.pad());
    lemma_writeln_line(closed, "esac"@);
}

/// The completions for Zsh
pub struct ZshCompletions;

impl crate::gen::Completions for ZshCompletions {
    open spec fn script(cmd: CommandInfoView) -> (Seq<char>, Seq<char>) {
        (file_name(cmd.name), script(cmd))
    }

    fn generate(cmd_info: &CommandInfo) -> (r: (String, String)) {
        generate(cmd_info)
    }
}

} // verus!
