//! For generating completions from command information

use vstd::prelude::*;
use crate::parse_man::util::{abbreviate, abbreviated};
use crate::{
    commands_view, copy_opt, copy_strs, copy_types, lemma_command_view, CommandInfo,
    CommandInfoView, Flag, FlagView,
};

pub mod bash;
pub mod carapace;
pub mod json;
pub mod kdl;
pub mod nu;
pub mod util;
pub mod yaml;
pub mod zsh;

verus! {

/// What to write for a command
#[derive(Debug, Copy, Clone, PartialEq, Eq)]
pub enum OutputFormat {
    /// Generate completions for Zsh
    Zsh,
    /// Generate completions for Bash
    Bash,
    /// Generate completions for Nushell
    Nu,
    /// Output parsed options as KDL
    Kdl,
    /// Output parsed options as JSON
    Json,
    /// Output parsed options as YAML
    Yaml,
}

/// `flag` with its description abbreviated.
pub open spec fn short_flag(flag: FlagView) -> FlagView {
    FlagView {
        forms: flag.forms,
        desc: match flag.desc {
            Some(d) => Some(abbreviated(d)),
            None => None,
        },
        typ: flag.typ,
    }
}

/// `cmd` with the description of each flag abbreviated, in the command and
/// in all its subcommands.
pub open spec fn preprocessed(cmd: CommandInfoView) -> CommandInfoView
    decreases cmd,
{
    CommandInfoView {
        name: cmd.name,
        desc: cmd.desc,
        flags: Seq::new(cmd.flags.len(), |i: int| short_flag(cmd.flags[i])),
        args: cmd.args,
        subcommands: Seq::new(
            cmd.subcommands.len(),
            |i: int|
                if 0 <= i < cmd.subcommands.len() {
                    preprocessed(cmd.subcommands[i])
                } else {
                    arbitrary()
                },
        ),
    }
}

/// The name of the file and the text that `format` gives for the command
/// `cmd`, as it stands. The dumps as JSON and as YAML are not among them:
/// a serializer makes those from the command itself.
pub open spec fn rendered(cmd: CommandInfoView, format: OutputFormat) -> Option<(Seq<char>, Seq<char>)> {
    match format {
        OutputFormat::Bash => Some((bash::file_name(cmd.name), bash::script(cmd))),
        OutputFormat::Zsh => Some((zsh::file_name(cmd.name), zsh::script(cmd))),
        OutputFormat::Nu => Some((nu::file_name(cmd.name), nu::script(cmd))),
        OutputFormat::Kdl => Some(
            (kdl::file_name(cmd.name), kdl::kdl_text(kdl::command_node(cmd))),
        ),
        OutputFormat::Json => None,
        OutputFormat::Yaml => None,
    }
}

/// The name and the text of a file, as characters.
pub open spec fn file_view(f: Option<(String, String)>) -> Option<(Seq<char>, Seq<char>)> {
    match f {
        Some((name, text)) => Some((name@, text@)),
        None => None,
    }
}

/// Trim descriptions
pub fn preprocess(cmd: &CommandInfo) -> (r: CommandInfo)
    ensures
        r@ == preprocessed(cmd@),
    decreases cmd,
{
    proof {
        lemma_command_view(*cmd);
    }
    let mut flags: Vec<Flag> = Vec::new();
    let mut i: usize = 0;
    while i < cmd.flags.len()
        invariant
            i <= cmd.flags.len(),
            flags@.len() == i,
            forall|k: int| 0 <= k < i ==> flags@[k]@ == short_flag(cmd.flags@[k]@),
        decreases cmd.flags.len() - i,
    {
        let flag = &cmd.flags[i];
        let desc = match &flag.desc {
            Some(desc) => Some(abbreviate(desc.as_str())),
            None => None,
        };
        let typ = match &flag.typ {
            Some(typ) => Some(typ.clone()),
            None => None,
        };
        flags.push(Flag { forms: copy_strs(&flag.forms), desc, typ });
        i += 1;
    }
    let mut subcommands: Vec<CommandInfo> = Vec::new();
    let mut k: usize = 0;
    while k < cmd.subcommands.len()
        invariant
            k <= cmd.subcommands.len(),
            subcommands@.len() == k,
            cmd@.subcommands == commands_view(cmd.subcommands@),
            forall|j: int| 0 <= j < k ==> subcommands@[j]@ == preprocessed(cmd.subcommands@[j]@),
        decreases cmd.subcommands.len() - k,
    {
        subcommands.push(preprocess(&cmd.subcommands[k]));
        k += 1;
    }
    let r = CommandInfo {
        name: cmd.name.clone(),
        desc: copy_opt(&cmd.desc),
        flags,
        args: copy_types(&cmd.args),
        subcommands,
    };
    proof {
        lemma_command_view(r);
        assert(r@.flags =~= preprocessed(cmd@).flags);
        assert(r@.subcommands =~= preprocessed(cmd@).subcommands);
    }
    r
}

/// The name of the file and the text for the given format, with the
/// descriptions of the flags abbreviated
pub fn generate(cmd: &CommandInfo, format: OutputFormat) -> (r: Option<(String, String)>)
    ensures
        file_view(r) == rendered(preprocessed(cmd@), format),
{
    let cmd = preprocess(cmd);
    match format {
        OutputFormat::Bash => Some(bash::generate(&cmd)),
        OutputFormat::Zsh => Some(zsh::generate(&cmd)),
        OutputFormat::Nu => Some(nu::generate(&cmd)),
        OutputFormat::Kdl => Some(kdl::generate(&cmd)),
        OutputFormat::Json => None,
        OutputFormat::Yaml => None,
    }
}

/// Generate completion for the given shell as a string
pub fn generate_to_str(cmd: &CommandInfo, format: OutputFormat) -> (r: Option<String>)
    ensures
        crate::opt_view(r) == match rendered(preprocessed(cmd@), format) {
            Some((_, text)) => Some(text),
            None => None,
        },
{
    match generate(cmd, format) {
        Some((_, text)) => Some(text),
        None => None,
    }
}

/// What writes completions for one shell
pub trait Completions {
    /// The name of the file and the text for the command `cmd`.
    spec fn script(cmd: CommandInfoView) -> (Seq<char>, Seq<char>);

    /// The name of the file and the text of the completions of one command
    fn generate(cmd_info: &CommandInfo) -> (r: (String, String))
        ensures
            (r.0@, r.1@) == Self::script(cmd_info@),
    ;

    /// The files of the completions of each of the commands, in their order
    fn generate_all(cmds: &Vec<CommandInfo>) -> (r: Vec<(String, String)>)
        ensures
            r@.len() == cmds@.len(),
            forall|i: int|
                0 <= i < cmds@.len() ==> (r@[i].0@, r@[i].1@) == Self::script(#[trigger] cmds@[i]@),
    {
        let mut files: Vec<(String, String)> = Vec::new();
        let mut i: usize = 0;
        while i < cmds.len()
            invariant
                i <= cmds.len(),
                files@.len() == i,
                forall|k: int|
                    0 <= k < i ==> (files@[k].0@, files@[k].1@) == Self::script(
                        #[trigger] cmds@[k]@,
                    ),
            decreases cmds.len() - i,
        {
            files.push(Self::generate(&cmds[i]));
            i += 1;
        }
        files
    }
}

} // verus!
