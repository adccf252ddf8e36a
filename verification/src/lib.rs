//! Completion scripts from man pages.
//!
//! The [`parse_man`] module recovers the flags of a command from the text of
//! its man page; the [`gen`] module renders a [`CommandInfo`] as a completion
//! script for a shell. All functions are specified over the views of their
//! arguments: a string is the sequence of its characters.

use vstd::prelude::*;

pub mod args;
pub mod gen;
pub mod parse_deser;
pub mod parse_man;
pub mod pattern;
pub mod text;

verus! {

/// How to complete an argument
#[derive(Debug, PartialEq, Eq)]
pub enum ArgType {
    /// Complete using either file or directory paths
    Path,
    /// Complete using directory paths
    Dir,
    /// Complete by running a command
    Run {
        /// The command to run
        cmd: String,
        /// The separator to split each line of output on, to get the value
        /// (first) and its description (second). Without one, each line is a
        /// value.
        sep: Option<String>,
    },
    /// Only these strings are allowed, each with an optional description
    Strings(Vec<(String, Option<String>)>),
    /// Complete with the name of a command
    CommandName,
    /// Any of the given types work
    Any(Vec<ArgType>),
    /// Nothing is known of the argument
    Unknown,
}

/// A parsed flag
#[derive(Debug, PartialEq, Eq)]
pub struct Flag {
    /// The different short and long forms of a flag
    pub forms: Vec<String>,
    /// Optional description for the flag
    pub desc: Option<String>,
    /// How to complete the value of the flag, if it takes one
    pub typ: Option<ArgType>,
}

/// Flags parsed from a command, as well as its parsed subcommands
#[derive(Debug, PartialEq, Eq)]
pub struct CommandInfo {
    pub name: String,
    pub desc: Option<String>,
    pub flags: Vec<Flag>,
    /// The types of the arguments to this command
    pub args: Vec<ArgType>,
    pub subcommands: Vec<CommandInfo>,
}

/// The mathematical value of an [`ArgType`].
pub enum ArgTypeView {
    Path,
    Dir,
    Run { cmd: Seq<char>, sep: Option<Seq<char>> },
    Strings(Seq<(Seq<char>, Option<Seq<char>>)>),
    CommandName,
    Any(Seq<ArgTypeView>),
    Unknown,
}

/// The mathematical value of a [`Flag`].
pub struct FlagView {
    pub forms: Seq<Seq<char>>,
    pub desc: Option<Seq<char>>,
    pub typ: Option<ArgTypeView>,
}

/// The mathematical value of a [`CommandInfo`].
pub struct CommandInfoView {
    pub name: Seq<char>,
    pub desc: Option<Seq<char>>,
    pub flags: Seq<FlagView>,
    pub args: Seq<ArgTypeView>,
    pub subcommands: Seq<CommandInfoView>,
}

/// The characters of an optional string.
pub open spec fn opt_view(s: Option<String>) -> Option<Seq<char>> {
    match s {
        Some(s) => Some(s@),
        None => None,
    }
}

/// The characters of each string of a list.
pub open spec fn strs_view(v: Seq<String>) -> Seq<Seq<char>> {
    Seq::new(v.len(), |i: int| v[i]@)
}

/// The allowed values of a `Strings` type, as characters.
pub open spec fn choices_view(v: Seq<(String, Option<String>)>) -> Seq<(Seq<char>, Option<Seq<char>>)> {
    Seq::new(v.len(), |i: int| (v[i].0@, opt_view(v[i].1)))
}

impl ArgType {
    /// The mathematical value of this type.
    pub open spec fn model(self) -> ArgTypeView
        decreases self,
    {
        match self {
            ArgType::Path => ArgTypeView::Path,
            ArgType::Dir => ArgTypeView::Dir,
            ArgType::Run { cmd, sep } => ArgTypeView::Run { cmd: cmd@, sep: opt_view(sep) },
            ArgType::Strings(strs) => ArgTypeView::Strings(choices_view(strs@)),
            ArgType::CommandName => ArgTypeView::CommandName,
            ArgType::Any(types) => ArgTypeView::Any(
                Seq::new(
                    types@.len(),
                    |i: int|
                        if 0 <= i < types@.len() {
                            types@[i].model()
                        } else {
                            ArgTypeView::Unknown
                        },
                ),
            ),
            ArgType::Unknown => ArgTypeView::Unknown,
        }
    }
}

impl View for ArgType {
    type V = ArgTypeView;

    open spec fn view(&self) -> ArgTypeView {
        self.model()
    }
}

/// The values of a list of types.
pub open spec fn types_view(v: Seq<ArgType>) -> Seq<ArgTypeView> {
    Seq::new(v.len(), |i: int| v[i]@)
}

/// The value of an optional type.
pub open spec fn opt_type_view(t: Option<ArgType>) -> Option<ArgTypeView> {
    match t {
        Some(t) => Some(t@),
        None => None,
    }
}

impl View for Flag {
    type V = FlagView;

    open spec fn view(&self) -> FlagView {
        FlagView {
            forms: strs_view(self.forms@),
            desc: opt_view(self.desc),
            typ: opt_type_view(self.typ),
        }
    }
}

impl FlagView {
    /// Whether the flag is one that a page can give: it has a form, each
    /// of its forms begins with a hyphen, and no form stands twice.
    pub open spec fn well_formed(self) -> bool {
        &&& self.forms.len() > 0
        &&& forall|i: int|
            0 <= i < self.forms.len() ==> (#[trigger] self.forms[i]).len() > 0 && self.forms[i][0]
                == '-'
        &&& forall|i: int, j: int| 0 <= i < j < self.forms.len() ==> self.forms[i] != self.forms[j]
    }
}

/// The values of a list of flags.
pub open spec fn flags_view(v: Seq<Flag>) -> Seq<FlagView> {
    Seq::new(v.len(), |i: int| v[i]@)
}

impl CommandInfo {
    /// The mathematical value of this command.
    pub open spec fn model(self) -> CommandInfoView
        decreases self,
    {
        CommandInfoView {
            name: self.name@,
            desc: opt_view(self.desc),
            flags: flags_view(self.flags@),
            args: types_view(self.args@),
            subcommands: Seq::new(
                self.subcommands@.len(),
                |i: int|
                    if 0 <= i < self.subcommands@.len() {
                        self.subcommands@[i].model()
                    } else {
                        arbitrary()
                    },
            ),
        }
    }
}

impl View for CommandInfo {
    type V = CommandInfoView;

    open spec fn view(&self) -> CommandInfoView {
        self.model()
    }
}

impl CommandInfoView {
    /// Whether each flag of the command and of its subcommands, at any
    /// depth, is well formed.
    pub open spec fn well_formed(self) -> bool
        decreases self,
    {
        &&& forall|i: int| 0 <= i < self.flags.len() ==> (#[trigger] self.flags[i]).well_formed()
        &&& forall|i: int|
            0 <= i < self.subcommands.len() ==> (#[trigger] self.subcommands[i]).well_formed()
    }
}

/// Whether no two of `cmds` have the same name.
pub open spec fn distinct_names(cmds: Seq<CommandInfoView>) -> bool {
    forall|i: int, j: int| 0 <= i < j < cmds.len() ==> cmds[i].name != cmds[j].name
}

impl CommandInfoView {
    /// Whether no two subcommands of the command have the same name, and so
    /// in each of its subcommands, at any depth.
    pub open spec fn distinct_subcommands(self) -> bool
        decreases self,
    {
        &&& distinct_names(self.subcommands)
        &&& forall|i: int|
            0 <= i < self.subcommands.len() ==> (#[trigger] self.subcommands[i]).distinct_subcommands()
    }
}

/// The values of a list of commands.
pub open spec fn commands_view(v: Seq<CommandInfo>) -> Seq<CommandInfoView> {
    Seq::new(v.len(), |i: int| v[i]@)
}

/// The view of a command holds the views of its subcommands.
pub proof fn lemma_command_view(cmd: CommandInfo)
    ensures
        cmd@.subcommands == commands_view(cmd.subcommands@),
        cmd@.name == cmd.name@,
        cmd@.desc == opt_view(cmd.desc),
        cmd@.flags == flags_view(cmd.flags@),
        cmd@.args == types_view(cmd.args@),
{
    assert(cmd@.subcommands =~= commands_view(cmd.subcommands@));
}

/// The view of a type that is one of several holds the views of those.
pub proof fn lemma_any_view(types: Vec<ArgType>)
    ensures
        ArgType::Any(types)@ == ArgTypeView::Any(types_view(types@)),
{
    assert(ArgType::Any(types)@->Any_0 =~= types_view(types@));
}

/// A copy of an optional string.
pub fn copy_opt(s: &Option<String>) -> (r: Option<String>)
    ensures
        opt_view(r) == opt_view(*s),
{
    match s {
        Some(s) => Some(s.clone()),
        None => None,
    }
}

/// A copy of a list of strings.
pub fn copy_strs(v: &Vec<String>) -> (r: Vec<String>)
    ensures
        strs_view(r@) == strs_view(v@),
{
    let mut r: Vec<String> = Vec::new();
    let mut i: usize = 0;
    while i < v.len()
        invariant
            i <= v.len(),
            r@.len() == i,
            forall|k: int| 0 <= k < i ==> r@[k]@ == v@[k]@,
        decreases v.len() - i,
    {
        r.push(v[i].clone());
        i += 1;
    }
    assert(strs_view(r@) =~= strs_view(v@));
    r
}

/// A copy of a type.
pub fn copy_type(typ: &ArgType) -> (r: ArgType)
    ensures
        r@ == typ@,
    decreases typ,
{
    match typ {
        ArgType::Path => ArgType::Path,
        ArgType::Dir => ArgType::Dir,
        ArgType::Run { cmd, sep } => ArgType::Run { cmd: cmd.clone(), sep: copy_opt(sep) },
        ArgType::Strings(strs) => {
            let mut r: Vec<(String, Option<String>)> = Vec::new();
            let mut i: usize = 0;
            while i < strs.len()
                invariant
                    i <= strs.len(),
                    r@.len() == i,
                    forall|k: int|
                        0 <= k < i ==> r@[k].0@ == strs@[k].0@ && opt_view(r@[k].1) == opt_view(
                            strs@[k].1,
                        ),
                decreases strs.len() - i,
            {
                r.push((strs[i].0.clone(), copy_opt(&strs[i].1)));
                i += 1;
            }
            assert(choices_view(r@) =~= choices_view(strs@));
            ArgType::Strings(r)
        },
        ArgType::CommandName => ArgType::CommandName,
        ArgType::Any(types) => {
            let mut r: Vec<ArgType> = Vec::new();
            let mut i: usize = 0;
            while i < types.len()
                invariant
                    i <= types.len(),
                    *typ == ArgType::Any(*types),
                    r@.len() == i,
                    forall|k: int| 0 <= k < i ==> r@[k]@ == types@[k]@,
                decreases types.len() - i,
            {
                assert(typ->Any_0 == *types);
                r.push(copy_type(&types[i]));
                i += 1;
            }
            proof {
                lemma_any_view(r);
                lemma_any_view(*types);
                assert(types_view(r@) =~= types_view(types@));
            }
            ArgType::Any(r)
        },
        ArgType::Unknown => ArgType::Unknown,
    }
}

impl Clone for ArgType {
    fn clone(&self) -> (r: ArgType)
        ensures
            r@ == self@,
    {
        copy_type(self)
    }
}

/// A copy of a list of types.
pub fn copy_types(v: &Vec<ArgType>) -> (r: Vec<ArgType>)
    ensures
        types_view(r@) == types_view(v@),
{
    let mut r: Vec<ArgType> = Vec::new();
    let mut i: usize = 0;
    while i < v.len()
        invariant
            i <= v.len(),
            r@.len() == i,
            forall|k: int| 0 <= k < i ==> r@[k]@ == v@[k]@,
        decreases v.len() - i,
    {
        r.push(copy_type(&v[i]));
        i += 1;
    }
    assert(types_view(r@) =~= types_view(v@));
    r
}

/// The index of the first of `manpages`, at or after `from`, that is the
/// page of the command `cmd`.
pub open spec fn page_of(cmd: Seq<char>, manpages: Seq<Seq<char>>, from: int) -> Option<int>
    decreases manpages.len() - from,
{
    if from < 0 || from >= manpages.len() {
        None
    } else if parse_man::cmd_name_of(manpages[from]) == cmd {
        Some(from)
    } else {
        page_of(cmd, manpages, from + 1)
    }
}

/// Find the manpage for a specific command
///
/// `manpages` are the paths of the pages that were found, in the order in
/// which they are searched.
pub fn find_manpage(cmd: &str, manpages: &Vec<String>) -> (r: Option<String>)
    ensures
        match r {
            Some(path) => match page_of(cmd@, strs_view(manpages@), 0) {
                Some(i) => 0 <= i < manpages.len() && path@ == manpages@[i]@,
                None => false,
            },
            None => page_of(cmd@, strs_view(manpages@), 0) is None,
        },
{
    let wanted = text::chars_of(cmd);
    let mut i: usize = 0;
    while i < manpages.len()
        invariant
            i <= manpages.len(),
            wanted@ == cmd@,
            page_of(cmd@, strs_view(manpages@), 0) == page_of(cmd@, strs_view(manpages@), i as int),
        decreases manpages.len() - i,
    {
        let name = parse_man::get_cmd_name(manpages[i].as_str());
        if text::same_chars(&text::chars_of(name.as_str()), &wanted) {
            return Some(manpages[i].clone());
        }
        i += 1;
    }
    None
}

/// The index of the first of `cmds`, at or after `from`, that is named
/// `name`.
pub open spec fn named_at(cmds: Seq<CommandInfoView>, name: Seq<char>, from: int) -> Option<int>
    decreases cmds.len() - from,
{
    if from < 0 || from >= cmds.len() {
        None
    } else if cmds[from].name == name {
        Some(from)
    } else {
        named_at(cmds, name, from + 1)
    }
}

/// `cmds` with `cmd` in the place of the command of its name, or at the
/// end where no command has its name.
pub open spec fn with_command(cmds: Seq<CommandInfoView>, cmd: CommandInfoView) -> Seq<CommandInfoView> {
    match named_at(cmds, cmd.name, 0) {
        Some(i) => cmds.update(i, cmd),
        None => cmds.push(cmd),
    }
}

/// The command that the page at `path` describes by its text: it is named
/// after the page and has the flags of the text.
pub open spec fn page_command(path: Seq<char>, text: Seq<char>) -> CommandInfoView {
    CommandInfoView {
        name: parse_man::cmd_name_of(path),
        desc: None,
        flags: parse_man::page_flags(parse_man::cmd_name_of(path), text),
        args: Seq::empty(),
        subcommands: Seq::empty(),
    }
}

/// The commands of the first `n` of `pages`, each where the first page of
/// its name stands among those that could be read: a page that could not
/// be read gives none, and of two pages of one name the later one counts.
pub open spec fn all_parsed(pages: Seq<parse_man::ManPageView>, n: int) -> Seq<CommandInfoView>
    decreases n,
{
    if n <= 0 || n > pages.len() {
        Seq::empty()
    } else {
        match pages[n - 1].text {
            Ok(text) => with_command(all_parsed(pages, n - 1), page_command(pages[n - 1].path, text)),
            Err(_) => all_parsed(pages, n - 1),
        }
    }
}

proof fn lemma_named_at(cmds: Seq<CommandInfoView>, name: Seq<char>, from: int)
    requires
        0 <= from,
    ensures
        match named_at(cmds, name, from) {
            Some(i) => from <= i < cmds.len() && cmds[i].name == name,
            None => forall|j: int| from <= j < cmds.len() ==> (#[trigger] cmds[j]).name != name,
        },
    decreases cmds.len() - from,
{
    if from < cmds.len() && cmds[from].name != name {
        lemma_named_at(cmds, name, from + 1);
    }
}

/// A list of commands with distinct names has distinct names with one
/// more command; it then holds that command, and every flag is well
/// formed where that was so before and is so in the command.
pub proof fn lemma_with_command(cmds: Seq<CommandInfoView>, cmd: CommandInfoView)
    requires
        distinct_names(cmds),
    ensures
        distinct_names(with_command(cmds, cmd)),
        with_command(cmds, cmd).contains(cmd),
        cmd.well_formed() && (forall|i: int| 0 <= i < cmds.len() ==> (#[trigger] cmds[i]).well_formed())
            ==> forall|i: int|
            0 <= i < with_command(cmds, cmd).len() ==> (#[trigger] with_command(
                cmds,
                cmd,
            )[i]).well_formed(),
{
    lemma_named_at(cmds, cmd.name, 0);
    let all = with_command(cmds, cmd);
    match named_at(cmds, cmd.name, 0) {
        Some(k) => {
            assert(all[k] == cmd);
            assert forall|i: int, j: int| 0 <= i < j < all.len() implies all[i].name != all[j].name by {
                assert(all[i].name == cmds[i].name);
                assert(all[j].name == cmds[j].name);
            }
        },
        None => {
            assert(all[cmds.len() as int] == cmd);
            assert forall|i: int, j: int| 0 <= i < j < all.len() implies all[i].name != all[j].name by {
                assert(all[i] == cmds[i]);
                if j < cmds.len() {
                    assert(all[j] == cmds[j]);
                }
            }
        },
    }
}

/// No two of the commands of a list of pages have the same name, and each
/// of their flags is well formed.
pub proof fn lemma_all_parsed(pages: Seq<parse_man::ManPageView>, n: int)
    ensures
        distinct_names(all_parsed(pages, n)),
        forall|i: int| 0 <= i < all_parsed(pages, n).len() ==> (#[trigger] all_parsed(pages, n)[i]).well_formed(),
    decreases n,
{
    if 0 < n <= pages.len() {
        lemma_all_parsed(pages, n - 1);
        if let Ok(text) = pages[n - 1].text {
            let cmd = page_command(pages[n - 1].path, text);
            parse_man::lemma_page_flags_well_formed(cmd.name, text);
            lemma_with_command(all_parsed(pages, n - 1), cmd);
        }
    }
}

/// The page that counts for its command is kept: where no later page that
/// could be read is a page of the same command, the commands hold what the
/// page describes.
pub proof fn lemma_last_page_counts(pages: Seq<parse_man::ManPageView>, n: int, k: int)
    requires
        0 <= k < n <= pages.len(),
        pages[k].text is Ok,
        forall|j: int|
            k < j < n ==> (#[trigger] pages[j]).text is Err || parse_man::cmd_name_of(pages[j].path)
                != parse_man::cmd_name_of(pages[k].path),
    ensures
        all_parsed(pages, n).contains(page_command(pages[k].path, pages[k].text->Ok_0)),
    decreases n,
{
    let mine = page_command(pages[k].path, pages[k].text->Ok_0);
    lemma_all_parsed(pages, n - 1);
    let before = all_parsed(pages, n - 1);
    if k == n - 1 {
        lemma_with_command(before, mine);
    } else {
        lemma_last_page_counts(pages, n - 1, k);
        let at = choose|i: int| 0 <= i < before.len() && before[i] == mine;
        if let Ok(text) = pages[n - 1].text {
            let cmd = page_command(pages[n - 1].path, text);
            assert(pages[n - 1].text is Err || cmd.name != mine.name);
            lemma_named_at(before, cmd.name, 0);
            let all = with_command(before, cmd);
            assert(all[at] == mine);
        }
    }
}

fn place_of(cmds: &Vec<CommandInfo>, name: &String) -> (r: Option<usize>)
    ensures
        match r {
            Some(i) => named_at(commands_view(cmds@), name@, 0) == Some(i as int) && i < cmds.len(),
            None => named_at(commands_view(cmds@), name@, 0) is None,
        },
{
    let wanted = text::chars_of(name.as_str());
    let mut i: usize = 0;
    while i < cmds.len()
        invariant
            i <= cmds.len(),
            wanted@ == name@,
            named_at(commands_view(cmds@), name@, 0) == named_at(commands_view(cmds@), name@, i as int),
        decreases cmds.len() - i,
    {
        proof {
            lemma_command_view(cmds[i as int]);
        }
        if text::same_chars(&text::chars_of(cmds[i].name.as_str()), &wanted) {
            return Some(i);
        }
        i += 1;
    }
    None
}

/// Parse the pages that were found, in their order: one command for each
/// name, that of the last page of that name that could be read.
pub fn parse_all_manpages(pages: &Vec<parse_man::ManPage>) -> (r: Vec<CommandInfo>)
    ensures
        commands_view(r@) == all_parsed(parse_man::pages_view(pages@), pages.len() as int),
        distinct_names(commands_view(r@)),
        forall|i: int| 0 <= i < r.len() ==> (#[trigger] r[i]@).well_formed(),
{
    let mut res: Vec<CommandInfo> = Vec::new();
    let mut i: usize = 0;
    assert(commands_view(res@) =~= all_parsed(parse_man::pages_view(pages@), 0));
    while i < pages.len()
        invariant
            i <= pages.len(),
            commands_view(res@) == all_parsed(parse_man::pages_view(pages@), i as int),
        decreases pages.len() - i,
    {
        assert(parse_man::pages_view(pages@)[i as int] == pages[i as int]@);
        match &pages[i].text {
            Ok(text) => {
                let name = parse_man::get_cmd_name(pages[i].path.as_str());
                let flags = parse_man::parse_manpage_text(name.as_str(), text.as_str());
                let cmd = CommandInfo { name, desc: None, flags, args: Vec::new(), subcommands: Vec::new() };
                proof {
                    lemma_command_view(cmd);
                    assert(cmd@.args =~= Seq::empty());
                    assert(cmd@.subcommands =~= Seq::empty());
                    assert(cmd@ == page_command(pages[i as int]@.path, text@));
                }
                let ghost before = commands_view(res@);
                match place_of(&res, &cmd.name) {
                    Some(k) => {
                        res.remove(k);
                        res.insert(k, cmd);
                        assert(commands_view(res@) =~= before.update(k as int, cmd@));
                    },
                    None => {
                        res.push(cmd);
                        assert(commands_view(res@) =~= before.push(cmd@));
                    },
                }
            },
            Err(_) => {},
        }
        i += 1;
    }
    proof {
        lemma_all_parsed(parse_man::pages_view(pages@), pages.len() as int);
        assert forall|i: int| 0 <= i < res.len() implies (#[trigger] res[i]@).well_formed() by {
            assert(commands_view(res@)[i] == res[i]@);
        }
    }
    res
}

/// A copy of a flag.
pub fn copy_flag(flag: &Flag) -> (r: Flag)
    ensures
        r@ == flag@,
{
    let typ = match &flag.typ {
        Some(typ) => Some(copy_type(typ)),
        None => None,
    };
    Flag { forms: copy_strs(&flag.forms), desc: copy_opt(&flag.desc), typ }
}

/// A copy of a command.
pub fn copy_command(cmd: &CommandInfo) -> (r: CommandInfo)
    ensures
        r@ == cmd@,
    decreases cmd,
{
    proof {
        lemma_command_view(*cmd);
    }
    let mut flags: Vec<Flag> = Vec::new();
    let mut i: usize = 0;
    while i < cmd.flags.len()
        invariant
            i <= cmd.flags.len(),
            flags@.len() == i,
            forall|k: int| 0 <= k < i ==> flags@[k]@ == cmd.flags@[k]@,
        decreases cmd.flags.len() - i,
    {
        flags.push(copy_flag(&cmd.flags[i]));
        i += 1;
    }
    let mut subcommands: Vec<CommandInfo> = Vec::new();
    let mut k: usize = 0;
    while k < cmd.subcommands.len()
        invariant
            k <= cmd.subcommands.len(),
            subcommands@.len() == k,
            forall|j: int| 0 <= j < k ==> subcommands@[j]@ == cmd.subcommands@[j]@,
        decreases cmd.subcommands.len() - k,
    {
        subcommands.push(copy_command(&cmd.subcommands[k]));
        k += 1;
    }
    let r = CommandInfo {
        name: cmd.name.clone(),
        desc: copy_opt(&cmd.desc),
        flags,
        args: copy_types(&cmd.args),
        subcommands,
    };
    proof {
        lemma_command_view(r);
        assert(r@.flags =~= cmd@.flags);
        assert(r@.subcommands =~= cmd@.subcommands);
    }
    r
}

impl Clone for Flag {
    fn clone(&self) -> (r: Flag)
        ensures
            r@ == self@,
    {
        copy_flag(self)
    }
}

impl Clone for CommandInfo {
    fn clone(&self) -> (r: CommandInfo)
        ensures
            r@ == self@,
    {
        copy_command(self)
    }
}

} // verus!
