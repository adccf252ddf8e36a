//! The parsed options as JSON: an object that holds, under the name of the
//! command, its flags and its subcommands.

use vstd::prelude::*;
use vstd::string::StringExecFns;
use crate::gen::util::{Output, OutputView};
use crate::pattern::{lit, replace_all, replace_all_chars, Pat};
use crate::text::{cat, chars_of, join, join_strings, string_of};
use crate::{lemma_command_view, strs_view, CommandInfo, CommandInfoView, FlagView};

verus! {

/// `s` as a JSON string: between double quotes, with a backslash before
/// each backslash and each double quote of its own.
pub open spec fn json_string(s: Seq<char>) -> Seq<char> {
    "\""@ + replace_all(Pat::Lit("\""@), replace_all(Pat::Lit("\\"@), s, "\\\\"@), "\\\""@) + "\""@
}

/// The first `n` of `forms`, each as a JSON string.
pub open spec fn json_strings(forms: Seq<Seq<char>>, n: int) -> Seq<Seq<char>>
    decreases n,
{
    if n <= 0 || n > forms.len() {
        Seq::empty()
    } else {
        json_strings(forms, n - 1).push(json_string(forms[n - 1]))
    }
}

/// `out` after the object of one flag, without the brace that closes it.
pub open spec fn flag_object(flag: FlagView, out: OutputView) -> OutputView {
    let out = out.writeln("{"@).indent().write(
        "\"forms\": ["@ + join(json_strings(flag.forms, flag.forms.len() as int), ", "@) + "]"@,
    );
    let out = match flag.desc {
        Some(desc) => out.writeln(","@).writeln("\"description\": "@ + json_string(desc)),
        None => out.writeln(""@),
    };
    out.dedent()
}

/// `out` after the objects of the first `n` of `flags`, with commas
/// between them.
pub open spec fn flag_objects(flags: Seq<FlagView>, n: int, out: OutputView) -> OutputView
    decreases n,
{
    if n <= 0 || n > flags.len() {
        out
    } else if n == 1 {
        flag_object(flags[0], out)
    } else {
        flag_object(flags[n - 1], flag_objects(flags, n - 1, out).writeln("},"@))
    }
}

/// `out` after the members of the first `n` subcommands of `cmd`, of which
/// the last one of all is written without a comma.
pub open spec fn sub_members(cmd: CommandInfoView, n: int, out: OutputView) -> OutputView
    decreases cmd, 0nat, n,
{
    if n <= 0 || n > cmd.subcommands.len() {
        out
    } else {
        member(cmd.subcommands[n - 1], n == cmd.subcommands.len(), sub_members(cmd, n - 1, out))
    }
}

/// `out` after the member of `cmd`: its name, and an object with its flags
/// and its subcommands, or an empty object if it has no flags. A comma
/// follows unless it is the `last` member of its object.
pub open spec fn member(cmd: CommandInfoView, last: bool, out: OutputView) -> OutputView
    decreases cmd, 1nat, 0int,
{
    let end = if last {
        "}"@
    } else {
        "},"@
    };
    if cmd.flags.len() == 0 {
        out.writeln(json_string(cmd.name) + ": {"@ + end)
    } else {
        let out = out.writeln(json_string(cmd.name) + ": {"@).indent().writeln("\"flags\": ["@).indent();
        let out = flag_objects(cmd.flags, cmd.flags.len() as int, out).writeln("}"@).dedent().writeln(
            "],"@,
        );
        let out = if cmd.subcommands.len() == 0 {
            out.writeln("\"subcommands\": {}"@)
        } else {
            sub_members(
                cmd,
                cmd.subcommands.len() as int,
                out.writeln("\"subcommands\": {"@).indent(),
            ).dedent().writeln("}"@)
        };
        out.dedent().writeln(end)
    }
}

/// The name of the file that holds the options of `name`.
pub open spec fn file_name(name: Seq<char>) -> Seq<char> {
    name + ".json"@
}

/// The options of `cmd` as JSON.
pub open spec fn script(cmd: CommandInfoView) -> Seq<char> {
    member(cmd, true, OutputView::new("  "@).writeln("{"@).indent()).dedent().writeln("}"@).text
}

fn quote(s: &str) -> (r: String)
    ensures
        r@ == json_string(s@),
{
    let escaped = replace_all_chars(&lit("\\"), &chars_of(s), &chars_of("\\\\"));
    let escaped = replace_all_chars(&lit("\""), &escaped, &chars_of("\\\""));
    cat(cat("\"", string_of(&escaped).as_str()).as_str(), "\"")
}

fn generate_flag(flag: &crate::Flag, out: &mut Output)
    ensures
        final(out)@ == flag_object(flag@, old(out)@),
{
    out.writeln("{");
    out.indent();
    let mut quoted: Vec<String> = Vec::new();
    let mut i: usize = 0;
    assert(strs_view(quoted@) =~= json_strings(flag@.forms, 0));
    while i < flag.forms.len()
        invariant
            i <= flag.forms.len(),
            flag@.forms == strs_view(flag.forms@),
            strs_view(quoted@) == json_strings(flag@.forms, i as int),
        decreases flag.forms.len() - i,
    {
        let ghost before = strs_view(quoted@);
        let form = quote(flag.forms[i].as_str());
        quoted.push(form);
        assert(strs_view(quoted@) =~= before.push(form@));
        i += 1;
    }
    let forms = join_strings(&quoted, ", ");
    out.write(cat(cat("\"forms\": [", forms.as_str()).as_str(), "]").as_str());
    match &flag.desc {
        Some(desc) => {
            out.writeln(",");
            out.writeln(cat("\"description\": ", quote(desc.as_str()).as_str()).as_str());
        },
        None => {
            out.writeln("");
        },
    }
    out.dedent();
}

/// Helper to generate JSON
///
/// `last` says whether this is the last command at this level. Used for
/// deciding whether or not to put a trailing comma
fn generate_cmd(cmd: &CommandInfo, last: bool, out: &mut Output)
    ensures
        final(out)@ == member(cmd@, last, old(out)@),
    decreases cmd,
{
    proof {
        lemma_command_view(*cmd);
    }
    let cmd_name = quote(cmd.name.as_str());
    // Avoid trailing commas
    let end = if last {
        "}"
    } else {
        "},"
    };
    if cmd.flags.len() == 0 {
        // If no arguments, print `"cmd": {}` on a single line
        out.writeln(cat(cat(cmd_name.as_str(), ": {").as_str(), end).as_str());
        return ;
    }
    out.writeln(cat(cmd_name.as_str(), ": {").as_str());
    out.indent();
    out.writeln("\"flags\": [");
    out.indent();

    let ghost start = out@;
    generate_flag(&cmd.flags[0], out);
    let mut i: usize = 1;
    while i < cmd.flags.len()
        invariant
            1 <= i <= cmd.flags.len(),
            cmd@.flags == crate::flags_view(cmd.flags@),
            out@ == flag_objects(cmd@.flags, i as int, start),
        decreases cmd.flags.len() - i,
    {
        out.writeln("},");
        generate_flag(&cmd.flags[i], out);
        i += 1;
    }
    // Avoid trailing comma
    out.writeln("}");

    out.dedent();
    out.writeln("],");

    if cmd.subcommands.len() == 0 {
        out.writeln("\"subcommands\": {}");
    } else {
        out.writeln("\"subcommands\": {");
        out.indent();
        let ghost start = out@;
        let mut k: usize = 0;
        while k < cmd.subcommands.len()
            invariant
                k <= cmd.subcommands.len(),
                cmd@.subcommands == crate::commands_view(cmd.subcommands@),
                out@ == sub_members(cmd@, k as int, start),
            decreases cmd.subcommands.len() - k,
        {
            generate_cmd(&cmd.subcommands[k], k + 1 == cmd.subcommands.len(), out);
            k += 1;
        }
        out.dedent();
        out.writeln("}");
    }

    out.dedent();
    out.writeln(end);
}

/// Generate JSON representing the parsed options
pub fn generate(cmd: &CommandInfo) -> (r: (String, String))
    ensures
        r.0@ == file_name(cmd@.name),
        r.1@ == script(cmd@),
{
    proof {
        lemma_command_view(*cmd);
    }
    let mut res = Output::new(String::from_str("  "));
    res.writeln("{");
    res.indent();
    generate_cmd(cmd, true, &mut res);
    res.dedent();
    res.writeln("}");
    (cat(cmd.name.as_str(), ".json"), res.text())
}

} // verus!
