//! Completions for Bash: one function that looks at the position of the
//! word to complete.

use vstd::prelude::*;
use vstd::string::StringExecFns;
use crate::gen::util::{Output, OutputView};
use crate::gen::zsh::{names, names_of};
use crate::text::{cat, decimal, decimal_string, join, join_strings};
use crate::{lemma_command_view, strs_view, CommandInfo, CommandInfoView, FlagView};

verus! {

/// The forms of each of the first `n` flags, with spaces between them.
pub open spec fn spellings(flags: Seq<FlagView>, n: int) -> Seq<Seq<char>>
    decreases n,
{
    if n <= 0 || n > flags.len() {
        Seq::empty()
    } else {
        spellings(flags, n - 1).push(join(flags[n - 1].forms, " "@))
    }
}

/// The words that complete the command itself: the forms of its flags and
/// the names of its subcommands, with spaces between them.
pub open spec fn completions(cmd: CommandInfoView) -> Seq<char> {
    let flags = join(spellings(cmd.flags, cmd.flags.len() as int), " "@);
    let subcmds = join(names(cmd.subcommands), " "@);
    if flags.len() == 0 {
        subcmds
    } else if subcmds.len() == 0 {
        flags
    } else {
        flags + " "@ + subcmds
    }
}

/// The case for the word at `pos`, which completes the command itself.
pub open spec fn own_case(cmd: CommandInfoView, pos: nat) -> Seq<char> {
    decimal(pos) + ") COMPREPLY=($(compgen -W '"@ + completions(cmd) + "' -- $2)) ;;"@
}

/// The position after `pos`, as far as positions can be counted.
pub open spec fn next_pos(pos: nat) -> nat {
    if pos < usize::MAX {
        pos + 1
    } else {
        pos
    }
}

/// `out` after the cases of the first `n` subcommands of `cmd`, whose own
/// word stands at `pos`: each a case of the name with the cases of the
/// subcommand inside it.
pub open spec fn sub_cases(cmd: CommandInfoView, pos: nat, n: int, out: OutputView) -> OutputView
    decreases cmd, 0nat, n,
{
    if n <= 0 || n > cmd.subcommands.len() {
        out
    } else {
        let out = sub_cases(cmd, pos, n - 1, out).writeln(cmd.subcommands[n - 1].name + ")"@).indent();
        command_cases(cmd.subcommands[n - 1], next_pos(pos), out).writeln(";;"@).dedent()
    }
}

/// `out` after the cases of the command `cmd`, whose word stands before
/// `pos`: at `pos` the command itself is completed; further on, the word at
/// `pos` says which subcommand goes on.
pub open spec fn command_cases(cmd: CommandInfoView, pos: nat, out: OutputView) -> OutputView
    decreases cmd, 1nat, 0int,
{
    let out = out.writeln("case $COMP_CWORD in"@).indent().writeln(own_case(cmd, pos));
    let out = if cmd.subcommands.len() == 0 {
        out
    } else {
        let out = out.writeln("*)"@).indent().writeln(
            "case ${COMP_WORDS["@ + decimal(pos) + "]} in"@,
        ).indent();
        sub_cases(cmd, pos, cmd.subcommands.len() as int, out).dedent().writeln("esac"@).writeln(
            ";;"@,
        ).dedent()
    };
    out.dedent().writeln("esac"@)
}

/// The name of the file that holds the completions of `name`.
pub open spec fn file_name(name: Seq<char>) -> Seq<char> {
    "_"@ + name + ".bash"@
}

/// The completion script of `cmd`.
pub open spec fn script(cmd: CommandInfoView) -> Seq<char> {
    let comp_name = "_comp_cmd_"@ + cmd.name;
    let out = OutputView::new("\t"@).writeln("#!/usr/bin/env bash\n"@).writeln(
        "function "@ + comp_name + " {"@,
    ).indent().writeln("COMPREPLY=()"@);
    let out = command_cases(cmd, 1, out).writeln("return 0"@).dedent().writeln("}"@).writeln(""@);
    out.writeln("complete -F "@ + comp_name + " "@ + cmd.name).writeln(""@).text
}

fn generate_cmd(cmd: &CommandInfo, pos: usize, out: &mut Output)
    ensures
        final(out)@ == command_cases(cmd@, pos as nat, old(out)@),
    decreases cmd,
{
    proof {
        lemma_command_view(*cmd);
    }
    out.writeln("case $COMP_CWORD in");
    out.indent();

    let mut all_forms: Vec<String> = Vec::new();
    let mut i: usize = 0;
    assert(strs_view(all_forms@) =~= spellings(cmd@.flags, 0));
    while i < cmd.flags.len()
        invariant
            i <= cmd.flags.len(),
            cmd@.flags == crate::flags_view(cmd.flags@),
            strs_view(all_forms@) == spellings(cmd@.flags, i as int),
        decreases cmd.flags.len() - i,
    {
        let ghost before = strs_view(all_forms@);
        let forms = join_strings(&cmd.flags[i].forms, " ");
        all_forms.push(forms);
        assert(strs_view(all_forms@) =~= before.push(forms@));
        i += 1;
    }
    let flags = join_strings(&all_forms, " ");
    let subcmds = join_strings(&names_of(&cmd.subcommands), " ");
    let completions = if flags.as_str().is_empty() {
        subcmds
    } else if subcmds.as_str().is_empty() {
        flags
    } else {
        cat(cat(flags.as_str(), " ").as_str(), subcmds.as_str())
    };
    let position = decimal_string(pos);
    // This case is for when the subcommand we're processing is the one to
    // complete
    let own = cat(
        cat(cat(position.as_str(), ") COMPREPLY=($(compgen -W '").as_str(), completions.as_str()).as_str(),
        "' -- $2)) ;;",
    );
    out.writeln(own.as_str());

    // This case is in case we need to go further to a deeper subcommand
    if cmd.subcommands.len() != 0 {
        out.writeln("*)");
        out.indent();
        out.writeln(cat(cat("case ${COMP_WORDS[", position.as_str()).as_str(), "]} in").as_str());
        out.indent();
        let next: usize = if pos < usize::MAX {
            pos + 1
        } else {
            pos
        };
        let ghost start = out@;
        let mut k: usize = 0;
        while k < cmd.subcommands.len()
            invariant
                k <= cmd.subcommands.len(),
                cmd@.subcommands == crate::commands_view(cmd.subcommands@),
                next == next_pos(pos as nat),
                out@ == sub_cases(cmd@, pos as nat, k as int, start),
            decreases cmd.subcommands.len() - k,
        {
            let sub_cmd = &cmd.subcommands[k];
            proof {
                lemma_command_view(*sub_cmd);
            }
            out.writeln(cat(sub_cmd.name.as_str(), ")").as_str());
            out.indent();
            generate_cmd(sub_cmd, next, out);
            out.writeln(";;");
            out.dedent();
            k += 1;
        }
        out.dedent();
        out.writeln("esac");
        out.writeln(";;");
        out.dedent();
    }

    out.dedent();
    out.writeln("esac");
}

/// Generate a completion file for Bash
pub fn generate(cmd: &CommandInfo) -> (r: (String, String))
    ensures
        r.0@ == file_name(cmd@.name),
        r.1@ == script(cmd@),
{
    proof {
        lemma_command_view(*cmd);
    }
    let comp_name = cat("_comp_cmd_", cmd.name.as_str());

    let mut out = Output::new(String::from_str("\t"));
    out.writeln("#!/usr/bin/env bash\n");
    out.writeln(cat(cat("function ", comp_name.as_str()).as_str(), " {").as_str());
    out.indent();
    out.writeln("COMPREPLY=()");

    generate_cmd(cmd, 1, &mut out);

    out.writeln("return 0");
    out.dedent();
    out.writeln("}");
    out.writeln("");

    out.writeln(
        cat(cat(cat("complete -F ", comp_name.as_str()).as_str(), " ").as_str(), cmd.name.as_str()).as_str(),
    );
    out.writeln("");

    (cat(cat("_", cmd.name.as_str()).as_str(), ".bash"), out.text())
}

} // verus!
