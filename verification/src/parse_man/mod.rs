//! For parsing command information from man pages

use vstd::prelude::*;
use vstd::string::StringExecFns;
use crate::parse_man::detect::{detect_chars, detected};
use crate::parse_man::error::{errors_view, Error, ErrorView};
use crate::pattern::{find, find_at, lit, replace_all, replace_all_chars, Pat};
use crate::text::{chars_of, slice_of, string_of};
use crate::{
    commands_view, distinct_names, flags_view, lemma_command_view, strs_view, CommandInfo,
    CommandInfoView, Flag, FlagView,
};

pub mod darwin;
pub mod detect;
pub mod error;
pub mod list;
pub mod read;
pub mod type1;
pub mod type2;
pub mod type3;
pub mod type4;
pub mod util;

verus! {

/// A man page as it was found: where it lies, and its text, or the reason
/// why it could not be read.
#[derive(Debug, PartialEq, Eq)]
pub struct ManPage {
    pub path: String,
    pub text: Result<String, String>,
}

/// Information about a command and its detected subcommands before being parsed
#[derive(Debug, PartialEq, Eq)]
pub struct CmdPreInfo {
    /// The last word of the command
    pub name: String,
    /// The page of this very command, if it has one
    pub page: Option<ManPage>,
    /// The subcommands; no two of them have the same name
    pub subcmds: Vec<CmdPreInfo>,
}

/// The mathematical value of a [`ManPage`].
pub struct ManPageView {
    pub path: Seq<char>,
    pub text: Result<Seq<char>, Seq<char>>,
}

/// The mathematical value of a [`CmdPreInfo`].
pub struct CmdPreInfoView {
    pub name: Seq<char>,
    pub page: Option<ManPageView>,
    pub subcmds: Seq<CmdPreInfoView>,
}

impl View for ManPage {
    type V = ManPageView;

    open spec fn view(&self) -> ManPageView {
        ManPageView {
            path: self.path@,
            text: match self.text {
                Ok(t) => Ok(t@),
                Err(e) => Err(e@),
            },
        }
    }
}

/// The value of an optional page.
pub open spec fn opt_page_view(p: Option<ManPage>) -> Option<ManPageView> {
    match p {
        Some(p) => Some(p@),
        None => None,
    }
}

impl CmdPreInfo {
    /// The mathematical value of this node.
    pub open spec fn model(self) -> CmdPreInfoView
        decreases self,
    {
        CmdPreInfoView {
            name: self.name@,
            page: opt_page_view(self.page),
            subcmds: Seq::new(
                self.subcmds@.len(),
                |i: int|
                    if 0 <= i < self.subcmds@.len() {
                        self.subcmds@[i].model()
                    } else {
                        arbitrary()
                    },
            ),
        }
    }
}

impl View for CmdPreInfo {
    type V = CmdPreInfoView;

    open spec fn view(&self) -> CmdPreInfoView {
        self.model()
    }
}

/// The values of a list of nodes.
pub open spec fn nodes_view(v: Seq<CmdPreInfo>) -> Seq<CmdPreInfoView> {
    Seq::new(v.len(), |i: int| v[i]@)
}

/// The values of a list of pages.
pub open spec fn pages_view(v: Seq<ManPage>) -> Seq<ManPageView> {
    Seq::new(v.len(), |i: int| v[i]@)
}

/// No two of the nodes have the same name, and so in each of them.
pub open spec fn well_formed(nodes: Seq<CmdPreInfoView>) -> bool
    decreases nodes,
{
    &&& forall|i: int, j: int| 0 <= i < j < nodes.len() ==> nodes[i].name != nodes[j].name
    &&& forall|i: int| 0 <= i < nodes.len() ==> well_formed(#[trigger] nodes[i].subcmds)
}

/// What follows the last `c` of `s`; all of `s` where it holds no `c`.
pub open spec fn after_last(s: Seq<char>, c: char) -> Seq<char>
    decreases s.len(),
{
    if s.len() == 0 || s.last() == c {
        Seq::empty()
    } else {
        after_last(s.drop_last(), c).push(s.last())
    }
}

/// The name of the command that the page at `path` documents: the file name,
/// what follows the last `/`, without the replacement character U+FFFD, up
/// to its first full stop.
pub open spec fn cmd_name_of(path: Seq<char>) -> Seq<char> {
    let file_name = replace_all(Pat::Lit("\u{fffd}"@), after_last(path, '/'), ""@);
    match find(Pat::Lit("."@), file_name, 0) {
        Some(i) => file_name.take(i),
        None => file_name,
    }
}

/// The flags of a page: those that each dialect finds in it, one dialect
/// after the other. A flag that two dialects find stands twice.
pub open spec fn page_flags(cmd_name: Seq<char>, text: Seq<char>) -> Seq<FlagView> {
    type1::flags(text) + type2::flags(text) + type3::flags(text) + type4::flags(text)
        + darwin::flags(cmd_name, text)
}

/// The index of the first of `nodes`, at or after `from`, that is named `name`.
pub open spec fn position(nodes: Seq<CmdPreInfoView>, name: Seq<char>, from: int) -> Option<int>
    decreases nodes.len() - from,
{
    if from < 0 || from >= nodes.len() {
        None
    } else if nodes[from].name == name {
        Some(from)
    } else {
        position(nodes, name, from + 1)
    }
}

/// `nodes` with a node named `name` at its end, unless it holds one.
pub open spec fn with_node(nodes: Seq<CmdPreInfoView>, name: Seq<char>) -> Seq<CmdPreInfoView> {
    if position(nodes, name, 0) is Some {
        nodes
    } else {
        nodes.push(CmdPreInfoView { name, page: None, subcmds: Seq::empty() })
    }
}

/// Where the node named `name` stands in `with_node(nodes, name)`.
pub open spec fn node_index(nodes: Seq<CmdPreInfoView>, name: Seq<char>) -> int {
    match position(nodes, name, 0) {
        Some(i) => i,
        None => nodes.len() as int,
    }
}

/// The tree `nodes` once `page` is the page of the command `parts`: the
/// node of each word is made where it is missing, without a page, and the
/// node of the last word gets `page`.
pub open spec fn inserted(nodes: Seq<CmdPreInfoView>, parts: Seq<Seq<char>>, page: ManPageView) -> Seq<
    CmdPreInfoView,
>
    decreases parts.len(),
{
    if parts.len() == 0 {
        nodes
    } else {
        let all = with_node(nodes, parts[0]);
        let i = node_index(nodes, parts[0]);
        let node = all[i];
        all.update(
            i,
            if parts.len() == 1 {
                CmdPreInfoView { name: node.name, page: Some(page), subcmds: node.subcmds }
            } else {
                CmdPreInfoView {
                    name: node.name,
                    page: node.page,
                    subcmds: inserted(node.subcmds, parts.skip(1), page),
                }
            },
        )
    }
}

/// The index of the last of the first `n` entries of `explicit` that is
/// given for the command `name`.
pub open spec fn explicit_for(explicit: Seq<(Seq<char>, Seq<Seq<char>>)>, name: Seq<char>, n: int) -> Option<
    int,
>
    decreases n,
{
    if n <= 0 || n > explicit.len() {
        None
    } else if explicit[n - 1].0 == name {
        Some(n - 1)
    } else {
        explicit_for(explicit, name, n - 1)
    }
}

/// The tree of the first `n` pages, and the names whose entry of `explicit`
/// they have used. The first page of a name that `explicit` gives words for
/// stands where those words say, read or not; any other page stands where
/// its own text says, and nowhere if it could not be read.
pub open spec fn tree_of(
    pages: Seq<ManPageView>,
    explicit: Seq<(Seq<char>, Seq<Seq<char>>)>,
    n: int,
) -> (Seq<CmdPreInfoView>, Set<Seq<char>>)
    decreases n,
{
    if n <= 0 || n > pages.len() {
        (Seq::empty(), Set::empty())
    } else {
        let (tree, used) = tree_of(pages, explicit, n - 1);
        let page = pages[n - 1];
        let name = cmd_name_of(page.path);
        match explicit_for(explicit, name, explicit.len() as int) {
            Some(k) if !used.contains(name) => (
                inserted(tree, explicit[k].1, page),
                used.insert(name),
            ),
            _ => match page.text {
                Ok(text) => (inserted(tree, detected(name, text), page), used),
                Err(_) => (tree, used),
            },
        }
    }
}

/// The explicit words of each command, as characters.
pub open spec fn explicit_view(v: Seq<(String, Vec<String>)>) -> Seq<(Seq<char>, Seq<Seq<char>>)> {
    Seq::new(v.len(), |i: int| (v[i].0@, strs_view(v[i].1@)))
}

/// The flags of a command's own page, and what is to be reported of it.
pub open spec fn own_flags(cmd_name: Seq<char>, page: Option<ManPageView>) -> (
    Seq<FlagView>,
    Seq<ErrorView>,
) {
    match page {
        Some(page) => match page.text {
            Ok(text) => if page_flags(cmd_name, text).len() == 0 {
                (Seq::empty(), seq![ErrorView::UnsupportedFormat { path: page.path }])
            } else {
                (page_flags(cmd_name, text), Seq::empty())
            },
            Err(message) => (Seq::empty(), seq![ErrorView::Io { path: page.path, message }]),
        },
        None => (Seq::empty(), seq![ErrorView::ManpageNotFound { cmd_name }]),
    }
}

/// Whether `a` comes before `b` in the order of the dictionary, or is `b`.
pub open spec fn name_le(a: Seq<char>, b: Seq<char>) -> bool
    decreases a.len(),
{
    if a.len() == 0 {
        true
    } else if b.len() == 0 {
        false
    } else if a[0] != b[0] {
        a[0] < b[0]
    } else {
        name_le(a.skip(1), b.skip(1))
    }
}

/// `cmds` with `cmd` put in before the commands at the end whose names
/// come after its own.
pub open spec fn insert_by_name(cmds: Seq<CommandInfoView>, cmd: CommandInfoView) -> Seq<
    CommandInfoView,
>
    decreases cmds.len(),
{
    if cmds.len() > 0 && !name_le(cmds.last().name, cmd.name) {
        insert_by_name(cmds.drop_last(), cmd).push(cmds.last())
    } else {
        cmds.push(cmd)
    }
}

/// The full name of the subcommand `name` of the command `cmd_name`.
pub open spec fn sub_name(cmd_name: Seq<char>, name: Seq<char>) -> Seq<char> {
    cmd_name + " "@ + name
}

/// The first `n` subcommands of `node` that have content, ordered by name,
/// and what is to be reported of them.
pub open spec fn parsed_children(cmd_name: Seq<char>, node: CmdPreInfoView, n: int) -> (
    Seq<CommandInfoView>,
    Seq<ErrorView>,
)
    decreases node, 0nat, n,
{
    if n <= 0 || n > node.subcmds.len() {
        (Seq::empty(), Seq::empty())
    } else {
        let (cmds, errors) = parsed_children(cmd_name, node, n - 1);
        let child = node.subcmds[n - 1];
        let (cmd, more) = parsed(sub_name(cmd_name, child.name), child);
        (
            match cmd {
                Some(cmd) => insert_by_name(cmds, cmd),
                None => cmds,
            },
            errors + more,
        )
    }
}

/// The command that `node` describes, under its full name `cmd_name`, and
/// what is to be reported of it and of its subcommands. The command has the
/// flags of its own page, and the subcommands that have content, ordered by
/// name; it is named by the last word of `cmd_name`. A command without flags
/// and without such subcommands is left out.
pub open spec fn parsed(cmd_name: Seq<char>, node: CmdPreInfoView) -> (
    Option<CommandInfoView>,
    Seq<ErrorView>,
)
    decreases node, 1nat, 0int,
{
    let (flags, errors) = own_flags(cmd_name, node.page);
    let (subcommands, more) = parsed_children(cmd_name, node, node.subcmds.len() as int);
    (
        if flags.len() == 0 && subcommands.len() == 0 {
            None
        } else {
            Some(
                CommandInfoView {
                    name: after_last(cmd_name, ' '),
                    desc: None,
                    flags,
                    args: Seq::empty(),
                    subcommands,
                },
            )
        },
        errors + more,
    )
}

/// The value of an optional command.
pub open spec fn opt_command_view(c: Option<CommandInfo>) -> Option<CommandInfoView> {
    match c {
        Some(c) => Some(c@),
        None => None,
    }
}

pub(crate) fn after_last_chars(s: &Vec<char>, c: char) -> (r: Vec<char>)
    ensures
        r@ == after_last(s@, c),
{
    let mut i: usize = s.len();
    assert(s@.take(i as int) =~= s@);
    assert(after_last(s@, c) + s@.skip(i as int) =~= after_last(s@, c));
    while i > 0 && s[i - 1] != c
        invariant
            i <= s.len(),
            after_last(s@, c) == after_last(s@.take(i as int), c) + s@.skip(i as int),
        decreases i,
    {
        assert(s@.take(i as int).drop_last() =~= s@.take(i - 1));
        assert(after_last(s@.take(i - 1), c).push(s@[i - 1]) + s@.skip(i as int) =~= after_last(
            s@.take(i - 1),
            c,
        ) + s@.skip(i - 1));
        i -= 1;
    }
    assert(after_last(s@.take(i as int), c) + s@.skip(i as int) =~= s@.skip(i as int));
    slice_of(s, i, s.len())
}

fn cmd_name_chars(path: &Vec<char>) -> (r: Vec<char>)
    ensures
        r@ == cmd_name_of(path@),
{
    let file_name = replace_all_chars(&lit("\u{fffd}"), &after_last_chars(path, '/'), &chars_of(""));
    match find_at(&lit("."), &file_name, 0) {
        Some((i, _)) => slice_of(&file_name, 0, i),
        None => file_name,
    }
}

/// Get the command that a manpage is for, given its path
///
/// e.g. `/foo/cowsay.1.txt -> "cowsay"`
pub fn get_cmd_name(manpage_path: &str) -> (r: String)
    ensures
        r@ == cmd_name_of(manpage_path@),
{
    string_of(&cmd_name_chars(&chars_of(manpage_path)))
}

/// Appends the flags of `more` to `flags`.
fn append_flags(flags: &mut Vec<Flag>, more: Vec<Flag>)
    ensures
        flags_view(final(flags)@) == flags_view(old(flags)@) + flags_view(more@),
{
    let ghost added = flags_view(more@);
    let mut more = more;
    flags.append(&mut more);
    assert(flags_view(flags@) =~= flags_view(old(flags)@) + added);
}

fn page_flags_chars(cmd_name: &str, text: &Vec<char>) -> (r: Vec<Flag>)
    ensures
        flags_view(r@) == page_flags(cmd_name@, text@),
{
    let mut flags = type1::parse_chars(text);
    append_flags(&mut flags, type2::parse_chars(text));
    append_flags(&mut flags, type3::parse_chars(text));
    append_flags(&mut flags, type4::parse_chars(text));
    append_flags(&mut flags, darwin::parse_chars(cmd_name, text));
    flags
}

/// Parse flags from a man page, trying all of the different parsers and merging
/// their results if multiple parsers could parse the man page.
pub fn parse_manpage_text(cmd_name: &str, text: &str) -> (r: Vec<Flag>)
    ensures
        flags_view(r@) == page_flags(cmd_name@, text@),
        forall|i: int| 0 <= i < r@.len() ==> (#[trigger] r@[i]@).well_formed(),
{
    proof {
        lemma_page_flags_well_formed(cmd_name@, text@);
    }
    let flags = page_flags_chars(cmd_name, &chars_of(text));
    assert forall|i: int| 0 <= i < flags@.len() implies (#[trigger] flags@[i]@).well_formed() by {
        assert(flags_view(flags@)[i] == flags@[i]@);
    }
    flags
}

/// The view of a node holds the views of its subcommands.
pub proof fn lemma_node_view(node: CmdPreInfo)
    ensures
        node@.subcmds == nodes_view(node.subcmds@),
        node@.name == node.name@,
        node@.page == opt_page_view(node.page),
{
    assert(node@.subcmds =~= nodes_view(node.subcmds@));
}

fn position_of(nodes: &Vec<CmdPreInfo>, name: &String) -> (r: Option<usize>)
    ensures
        match r {
            Some(i) => position(nodes_view(nodes@), name@, 0) == Some(i as int) && i < nodes.len(),
            None => position(nodes_view(nodes@), name@, 0) is None,
        },
{
    let mut i: usize = 0;
    while i < nodes.len()
        invariant
            i <= nodes.len(),
            position(nodes_view(nodes@), name@, 0) == position(nodes_view(nodes@), name@, i as int),
        decreases nodes.len() - i,
    {
        proof {
            lemma_node_view(nodes@[i as int]);
        }
        if nodes[i].name == *name {
            return Some(i);
        }
        i += 1;
    }
    None
}

/// Insert a subcommand into a tree of subcommands
fn insert_subcmd(subcommands: &mut Vec<CmdPreInfo>, cmd_parts: Vec<String>, page: ManPage)
    ensures
        nodes_view(final(subcommands)@) == inserted(
            nodes_view(old(subcommands)@),
            strs_view(cmd_parts@),
            page@,
        ),
    decreases cmd_parts.len(),
{
    let ghost nodes = nodes_view(subcommands@);
    let ghost parts = strs_view(cmd_parts@);
    let ghost page_view = page@;
    let mut cmd_parts = cmd_parts;
    if cmd_parts.len() == 0 {
        return ;
    }
    let head = cmd_parts.remove(0);
    assert(head@ == parts[0]);
    assert(strs_view(cmd_parts@) =~= parts.skip(1));
    let i = match position_of(subcommands, &head) {
        Some(i) => i,
        None => {
            let node = CmdPreInfo { name: head, page: None, subcmds: Vec::new() };
            proof {
                lemma_node_view(node);
                assert(node@.subcmds =~= Seq::empty());
            }
            subcommands.push(node);
            assert(nodes_view(subcommands@) =~= with_node(nodes, parts[0]));
            subcommands.len() - 1
        },
    };
    let ghost all = nodes_view(subcommands@);
    assert(all == with_node(nodes, parts[0]));
    assert(i == node_index(nodes, parts[0]));
    let mut node = subcommands.remove(i);
    let ghost rest = nodes_view(subcommands@);
    assert(rest =~= all.remove(i as int));
    proof {
        lemma_node_view(node);
    }
    let ghost before = node@;
    if cmd_parts.len() == 0 {
        node.page = Some(page);
    } else {
        insert_subcmd(&mut node.subcmds, cmd_parts, page);
    }
    proof {
        lemma_node_view(node);
    }
    subcommands.insert(i, node);
    assert(nodes_view(subcommands@) =~= all.update(i as int, node@));
}

fn explicit_index(explicit: &Vec<(String, Vec<String>)>, name: &String) -> (r: Option<usize>)
    ensures
        match r {
            Some(k) => explicit_for(explicit_view(explicit@), name@, explicit.len() as int) == Some(
                k as int,
            ) && k < explicit.len(),
            None => explicit_for(explicit_view(explicit@), name@, explicit.len() as int) is None,
        },
{
    let mut n: usize = explicit.len();
    while n > 0
        invariant
            n <= explicit.len(),
            explicit_for(explicit_view(explicit@), name@, explicit.len() as int) == explicit_for(
                explicit_view(explicit@),
                name@,
                n as int,
            ),
        decreases n,
    {
        if explicit[n - 1].0 == *name {
            return Some(n - 1);
        }
        n -= 1;
    }
    None
}

/// Make a tree relating commands to their subcommands
///
/// `manpages` are the pages that were found, in the order in which they are
/// to be put in. `explicit_subcmds` says of some names which command their
/// page documents, word by word.
pub fn detect_subcommands(manpages: Vec<ManPage>, explicit_subcmds: Vec<(String, Vec<String>)>) -> (r:
    Vec<CmdPreInfo>)
    ensures
        nodes_view(r@) == tree_of(
            pages_view(manpages@),
            explicit_view(explicit_subcmds@),
            manpages.len() as int,
        ).0,
        well_formed(nodes_view(r@)),
{
    proof {
        lemma_tree_well_formed(
            pages_view(manpages@),
            explicit_view(explicit_subcmds@),
            manpages.len() as int,
        );
    }
    let ghost pages = pages_view(manpages@);
    let ghost explicit = explicit_view(explicit_subcmds@);
    let total = manpages.len();
    let mut manpages = manpages;
    let mut res: Vec<CmdPreInfo> = Vec::new();
    let mut used: Vec<String> = Vec::new();
    let mut n: usize = 0;
    assert(nodes_view(res@) =~= Seq::<CmdPreInfoView>::empty());
    assert(strs_view(used@).to_set() =~= Set::<Seq<char>>::empty());
    while n < total
        invariant
            n <= total,
            manpages.len() == total - n,
            pages.len() == total,
            pages_view(manpages@) == pages.skip(n as int),
            explicit == explicit_view(explicit_subcmds@),
            nodes_view(res@) == tree_of(pages, explicit, n as int).0,
            strs_view(used@).to_set() == tree_of(pages, explicit, n as int).1,
        decreases total - n,
    {
        let ghost rest = pages_view(manpages@);
        let ghost used_before = strs_view(used@);
        let ghost first = manpages@[0];
        assert(rest[0] == first@);
        assert(rest[0] == pages[n as int]);
        let page = manpages.remove(0);
        assert(page == first);
        assert(pages_view(manpages@) =~= rest.skip(1));
        assert(rest.skip(1) =~= pages.skip(n + 1));
        let cmd_name = get_cmd_name(page.path.as_str());
        let explicit_at = if crate::text::holds(&used, &cmd_name) {
            None
        } else {
            explicit_index(&explicit_subcmds, &cmd_name)
        };
        match explicit_at {
            Some(k) => {
                let as_subcmd = crate::copy_strs(&explicit_subcmds[k].1);
                insert_subcmd(&mut res, as_subcmd, page);
                used.push(cmd_name);
                assert(strs_view(used@) =~= used_before.push(cmd_name@));
                assert(strs_view(used@).to_set() =~= used_before.to_set().insert(cmd_name@)) by {
                    vstd::seq_lib::seq_to_set_is_finite(used_before);
                    assert forall|x: Seq<char>| #[trigger]
                        used_before.push(cmd_name@).contains(x) <==> (used_before.contains(x) || x
                            == cmd_name@) by {
                        if used_before.contains(x) {
                            let j = choose|j: int| 0 <= j < used_before.len() && used_before[j] == x;
                            assert(used_before.push(cmd_name@)[j] == x);
                        }
                        if x == cmd_name@ {
                            assert(used_before.push(cmd_name@)[used_before.len() as int] == x);
                        }
                    }
                }
            },
            None => {
                let detected = match &page.text {
                    Ok(text) => Some(detect_chars(&chars_of(cmd_name.as_str()), &chars_of(text.as_str()))),
                    Err(_) => None,
                };
                match detected {
                    Some(words) => insert_subcmd(&mut res, words, page),
                    None => {},
                }
            },
        }
        n += 1;
    }
    res
}

pub(crate) fn name_le_chars(a: &Vec<char>, b: &Vec<char>) -> (r: bool)
    ensures
        r == name_le(a@, b@),
{
    let mut i: usize = 0;
    assert(a@.skip(0) =~= a@ && b@.skip(0) =~= b@);
    while i < a.len() && i < b.len() && a[i] == b[i]
        invariant
            i <= a.len(),
            i <= b.len(),
            name_le(a@, b@) == name_le(a@.skip(i as int), b@.skip(i as int)),
        decreases a.len() - i,
    {
        assert(a@.skip(i as int).skip(1) =~= a@.skip(i + 1));
        assert(b@.skip(i as int).skip(1) =~= b@.skip(i + 1));
        i += 1;
    }
    if i == a.len() {
        true
    } else if i == b.len() {
        false
    } else {
        a[i] < b[i]
    }
}

/// Puts `cmd` into `cmds` before the commands at the end whose names come
/// after its own.
fn insert_sorted(cmds: &mut Vec<CommandInfo>, cmd: CommandInfo)
    ensures
        commands_view(final(cmds)@) == insert_by_name(commands_view(old(cmds)@), cmd@),
{
    let ghost all = commands_view(cmds@);
    let name = chars_of(cmd.name.as_str());
    proof {
        lemma_command_view(cmd);
    }
    let mut i: usize = cmds.len();
    assert(all.take(i as int) =~= all);
    assert(insert_by_name(all, cmd@) + all.skip(i as int) =~= insert_by_name(all, cmd@));
    loop
        invariant_except_break
            i <= cmds.len(),
            all == commands_view(cmds@),
            name@ == cmd@.name,
            insert_by_name(all, cmd@) == insert_by_name(all.take(i as int), cmd@) + all.skip(
                i as int,
            ),
        ensures
            i <= cmds.len(),
            all == commands_view(cmds@),
            insert_by_name(all, cmd@) == all.take(i as int).push(cmd@) + all.skip(i as int),
        decreases i,
    {
        if i == 0 {
            break ;
        }
        proof {
            lemma_command_view(cmds@[i - 1]);
        }
        if name_le_chars(&chars_of(cmds[i - 1].name.as_str()), &name) {
            assert(all.take(i as int).last() == all[i - 1]);
            break ;
        }
        assert(all.take(i as int).last() == all[i - 1]);
        assert(all.take(i as int).drop_last() =~= all.take(i - 1));
        assert(insert_by_name(all.take(i - 1), cmd@).push(all[i - 1]) + all.skip(i as int)
            =~= insert_by_name(all.take(i - 1), cmd@) + all.skip(i - 1));
        i -= 1;
    }
    let ghost value = cmd@;
    cmds.insert(i, cmd);
    assert(commands_view(cmds@) =~= all.take(i as int).push(value) + all.skip(i as int));
}

/// Appends the errors of `more` to `errors`.
fn append_errors(errors: &mut Vec<Error>, more: Vec<Error>)
    ensures
        errors_view(final(errors)@) == errors_view(old(errors)@) + errors_view(more@),
{
    let ghost added = errors_view(more@);
    let mut more = more;
    errors.append(&mut more);
    assert(errors_view(errors@) =~= errors_view(old(errors)@) + added);
}

/// Take a `CmdPreInfo` representing the path to a command and its subcommands
/// and try parsing that command and its subcommands. Also returns a list of
/// errors encountered along the way.
pub fn parse_from(cmd_name: &str, pre_info: &CmdPreInfo) -> (r: (Option<CommandInfo>, Vec<Error>))
    ensures
        (opt_command_view(r.0), errors_view(r.1@)) == parsed(cmd_name@, pre_info@),
        match r.0 {
            Some(cmd) => ordered(cmd@.subcommands) && cmd@.well_formed() && cmd@.name == last_word(
                cmd_name@,
            ) && (distinct_words(pre_info@) ==> cmd@.distinct_subcommands()),
            None => true,
        },
    decreases pre_info,
{
    proof {
        lemma_node_view(*pre_info);
        lemma_children_ordered(cmd_name@, pre_info@, pre_info@.subcmds.len() as int);
        lemma_parsed_well_formed(cmd_name@, pre_info@);
        lemma_parsed_name(cmd_name@, pre_info@);
        if distinct_words(pre_info@) {
            lemma_parsed_distinct(cmd_name@, pre_info@);
        }
    }
    let mut errors: Vec<Error> = Vec::new();
    let flags: Vec<Flag> = match &pre_info.page {
        Some(page) => match &page.text {
            Ok(text) => {
                let all_flags = parse_manpage_text(cmd_name, text.as_str());
                if all_flags.len() == 0 {
                    errors.push(Error::UnsupportedFormat { path: page.path.clone() });
                    Vec::new()
                } else {
                    all_flags
                }
            },
            Err(message) => {
                errors.push(Error::Io { path: page.path.clone(), message: message.clone() });
                Vec::new()
            },
        },
        None => {
            errors.push(Error::ManpageNotFound { cmd_name: String::from_str(cmd_name) });
            Vec::new()
        },
    };
    assert(flags_view(flags@) =~= own_flags(cmd_name@, pre_info@.page).0);
    assert(errors_view(errors@) =~= own_flags(cmd_name@, pre_info@.page).1);

    let mut subcommands: Vec<CommandInfo> = Vec::new();
    let mut n: usize = 0;
    let ghost own = errors_view(errors@);
    assert(commands_view(subcommands@) =~= Seq::<CommandInfoView>::empty());
    assert(own + Seq::<ErrorView>::empty() =~= own);
    while n < pre_info.subcmds.len()
        invariant
            n <= pre_info.subcmds.len(),
            pre_info@.subcmds == nodes_view(pre_info.subcmds@),
            commands_view(subcommands@) == parsed_children(cmd_name@, pre_info@, n as int).0,
            errors_view(errors@) == own + parsed_children(cmd_name@, pre_info@, n as int).1,
        decreases pre_info.subcmds.len() - n,
    {
        let sub_info = &pre_info.subcmds[n];
        proof {
            lemma_node_view(*sub_info);
        }
        let mut full = String::from_str(cmd_name);
        full.append(" ");
        full.append(sub_info.name.as_str());
        let ghost before = errors_view(errors@);
        let ghost so_far = parsed_children(cmd_name@, pre_info@, n as int).1;
        let (sub_cmd, sub_errors) = parse_from(full.as_str(), sub_info);
        let ghost more = errors_view(sub_errors@);
        match sub_cmd {
            Some(cmd) => {
                insert_sorted(&mut subcommands, cmd);
            },
            None => {},
        }
        append_errors(&mut errors, sub_errors);
        assert(errors_view(errors@) =~= own + (so_far + more));
        n += 1;
    }

    let ghost more = parsed_children(cmd_name@, pre_info@, pre_info.subcmds.len() as int).1;
    if flags.len() == 0 && subcommands.len() == 0 {
        (None, errors)
    } else {
        let name = string_of(&after_last_chars(&chars_of(cmd_name), ' '));
        let args: Vec<crate::ArgType> = Vec::new();
        let cmd = CommandInfo { name, desc: None, flags, args, subcommands };
        proof {
            lemma_command_view(cmd);
            assert(cmd@.args =~= Seq::empty());
        }
        (Some(cmd), errors)
    }
}

/// Whether each of `cmds` has a name that is not after the name of the next.
pub open spec fn ordered(cmds: Seq<CommandInfoView>) -> bool {
    forall|i: int|
        0 <= i < cmds.len() - 1 ==> name_le((#[trigger] cmds[i]).name, cmds[i + 1].name)
}

/// Of two names, one is not after the other.
pub proof fn lemma_name_le_total(a: Seq<char>, b: Seq<char>)
    ensures
        name_le(a, b) || name_le(b, a),
    decreases a.len(),
{
    if a.len() > 0 && b.len() > 0 && a[0] == b[0] {
        lemma_name_le_total(a.skip(1), b.skip(1));
    }
}

/// Where a command is put in, the list has one command more, and ends in
/// the command or in the command that it ended in.
proof fn lemma_insert_last(cmds: Seq<CommandInfoView>, cmd: CommandInfoView)
    ensures
        insert_by_name(cmds, cmd).len() == cmds.len() + 1,
        insert_by_name(cmds, cmd).last() == (if cmds.len() > 0 && !name_le(
            cmds.last().name,
            cmd.name,
        ) {
            cmds.last()
        } else {
            cmd
        }),
    decreases cmds.len(),
{
    if cmds.len() > 0 && !name_le(cmds.last().name, cmd.name) {
        lemma_insert_last(cmds.drop_last(), cmd);
    }
}

/// A command that is put into an ordered list leaves it ordered.
pub proof fn lemma_insert_ordered(cmds: Seq<CommandInfoView>, cmd: CommandInfoView)
    requires
        ordered(cmds),
    ensures
        ordered(insert_by_name(cmds, cmd)),
    decreases cmds.len(),
{
    let r = insert_by_name(cmds, cmd);
    if cmds.len() > 0 && !name_le(cmds.last().name, cmd.name) {
        let rest = cmds.drop_last();
        assert forall|i: int| 0 <= i < rest.len() - 1 implies name_le(
            (#[trigger] rest[i]).name,
            rest[i + 1].name,
        ) by {
            assert(rest[i] == cmds[i]);
            assert(rest[i + 1] == cmds[i + 1]);
        }
        lemma_insert_ordered(rest, cmd);
        lemma_insert_last(rest, cmd);
        lemma_name_le_total(cmds.last().name, cmd.name);
        let inner = insert_by_name(rest, cmd);
        assert forall|i: int| 0 <= i < r.len() - 1 implies name_le(
            (#[trigger] r[i]).name,
            r[i + 1].name,
        ) by {
            if i < inner.len() - 1 {
                assert(r[i] == inner[i]);
                assert(r[i + 1] == inner[i + 1]);
            } else {
                assert(r[i] == inner.last());
                assert(r[i + 1] == cmds.last());
                if rest.len() > 0 && !name_le(rest.last().name, cmd.name) {
                    assert(rest.last() == cmds[cmds.len() - 2]);
                    assert(name_le(cmds[cmds.len() - 2].name, cmds[cmds.len() - 1].name));
                }
            }
        }
    } else {
        assert forall|i: int| 0 <= i < r.len() - 1 implies name_le(
            (#[trigger] r[i]).name,
            r[i + 1].name,
        ) by {
            if i < cmds.len() - 1 {
                assert(r[i] == cmds[i]);
                assert(r[i + 1] == cmds[i + 1]);
            }
        }
    }
}

/// The subcommands that are parsed are ordered by name.
pub proof fn lemma_children_ordered(cmd_name: Seq<char>, node: CmdPreInfoView, n: int)
    ensures
        ordered(parsed_children(cmd_name, node, n).0),
    decreases n,
{
    if 0 < n <= node.subcmds.len() {
        lemma_children_ordered(cmd_name, node, n - 1);
        let child = node.subcmds[n - 1];
        match parsed(sub_name(cmd_name, child.name), child).0 {
            Some(cmd) => {
                lemma_insert_ordered(parsed_children(cmd_name, node, n - 1).0, cmd);
            },
            None => {},
        }
    }
}

/// A name that is not found is the name of no node.
proof fn lemma_position_none(nodes: Seq<CmdPreInfoView>, name: Seq<char>, from: int)
    requires
        0 <= from,
        position(nodes, name, from) is None,
    ensures
        forall|j: int| from <= j < nodes.len() ==> (#[trigger] nodes[j]).name != name,
    decreases nodes.len() - from,
{
    if from < nodes.len() {
        lemma_position_none(nodes, name, from + 1);
    }
}

/// A name that is found is the name of the node at the index.
proof fn lemma_position_some(nodes: Seq<CmdPreInfoView>, name: Seq<char>, from: int)
    requires
        0 <= from,
        position(nodes, name, from) is Some,
    ensures
        from <= position(nodes, name, from)->0 < nodes.len(),
        nodes[position(nodes, name, from)->0].name == name,
    decreases nodes.len() - from,
{
    if from < nodes.len() && nodes[from].name != name {
        lemma_position_some(nodes, name, from + 1);
    }
}

/// A page that is put into a tree in which no two nodes of one command
/// have the same name leaves it so.
pub proof fn lemma_inserted_well_formed(
    nodes: Seq<CmdPreInfoView>,
    parts: Seq<Seq<char>>,
    page: ManPageView,
)
    requires
        well_formed(nodes),
    ensures
        well_formed(inserted(nodes, parts, page)),
    decreases parts.len(),
{
    if parts.len() > 0 {
        let all = with_node(nodes, parts[0]);
        let i = node_index(nodes, parts[0]);
        if position(nodes, parts[0], 0) is Some {
            lemma_position_some(nodes, parts[0], 0);
        } else {
            lemma_position_none(nodes, parts[0], 0);
            assert(well_formed(Seq::<CmdPreInfoView>::empty()));
            assert forall|j: int| 0 <= j < all.len() implies well_formed(
                #[trigger] all[j].subcmds,
            ) by {
                if j < nodes.len() {
                    assert(all[j] == nodes[j]);
                }
            }
        }
        assert(well_formed(all));
        let node = all[i];
        assert(well_formed(node.subcmds));
        if parts.len() > 1 {
            lemma_inserted_well_formed(node.subcmds, parts.skip(1), page);
        }
        let r = inserted(nodes, parts, page);
        assert forall|a: int, b: int| 0 <= a < b < r.len() implies r[a].name != r[b].name by {
            assert(r[a].name == all[a].name);
            assert(r[b].name == all[b].name);
        }
        assert forall|j: int| 0 <= j < r.len() implies well_formed(#[trigger] r[j].subcmds) by {
            if j != i {
                assert(r[j] == all[j]);
            }
        }
    }
}

/// In the tree of the pages, no two nodes of one command have the same name.
pub proof fn lemma_tree_well_formed(
    pages: Seq<ManPageView>,
    explicit: Seq<(Seq<char>, Seq<Seq<char>>)>,
    n: int,
)
    ensures
        well_formed(tree_of(pages, explicit, n).0),
    decreases n,
{
    if 0 < n <= pages.len() {
        lemma_tree_well_formed(pages, explicit, n - 1);
        let (tree, used) = tree_of(pages, explicit, n - 1);
        let page = pages[n - 1];
        let name = cmd_name_of(page.path);
        match explicit_for(explicit, name, explicit.len() as int) {
            Some(k) => {
                lemma_inserted_well_formed(tree, explicit[k].1, page);
            },
            None => {},
        }
        match page.text {
            Ok(text) => {
                lemma_inserted_well_formed(tree, detected(name, text), page);
            },
            Err(_) => {},
        }
    } else {
        assert(well_formed(Seq::<CmdPreInfoView>::empty()));
    }
}

/// Every flag that is found in a page has a form, and each of its forms
/// begins with a hyphen.
pub proof fn lemma_page_flags_well_formed(cmd_name: Seq<char>, text: Seq<char>)
    ensures
        forall|i: int|
            0 <= i < page_flags(cmd_name, text).len() ==> (#[trigger] page_flags(
                cmd_name,
                text,
            )[i]).well_formed(),
{
    type1::lemma_flags_well_formed(text);
    type2::lemma_flags_well_formed(text);
    type3::lemma_flags_well_formed(text);
    type4::lemma_flags_well_formed(text);
    darwin::lemma_flags_well_formed(cmd_name, text);
}

/// Commands that are well formed stay so when one more is put in.
proof fn lemma_insert_well_formed(cmds: Seq<CommandInfoView>, cmd: CommandInfoView)
    requires
        cmd.well_formed(),
        forall|i: int| 0 <= i < cmds.len() ==> (#[trigger] cmds[i]).well_formed(),
    ensures
        forall|i: int|
            0 <= i < insert_by_name(cmds, cmd).len() ==> (#[trigger] insert_by_name(
                cmds,
                cmd,
            )[i]).well_formed(),
    decreases cmds.len(),
{
    let r = insert_by_name(cmds, cmd);
    if cmds.len() > 0 && !name_le(cmds.last().name, cmd.name) {
        let rest = cmds.drop_last();
        assert forall|i: int| 0 <= i < rest.len() implies (#[trigger] rest[i]).well_formed() by {
            assert(rest[i] == cmds[i]);
        }
        lemma_insert_well_formed(rest, cmd);
        let inner = insert_by_name(rest, cmd);
        assert forall|i: int| 0 <= i < r.len() implies (#[trigger] r[i]).well_formed() by {
            if i < inner.len() {
                assert(r[i] == inner[i]);
            } else {
                assert(r[i] == cmds[cmds.len() - 1]);
            }
        }
    } else {
        assert forall|i: int| 0 <= i < r.len() implies (#[trigger] r[i]).well_formed() by {
            if i < cmds.len() {
                assert(r[i] == cmds[i]);
            }
        }
    }
}

/// The subcommands that are parsed hold well-formed flags only.
proof fn lemma_children_well_formed(cmd_name: Seq<char>, node: CmdPreInfoView, n: int)
    ensures
        forall|i: int|
            0 <= i < parsed_children(cmd_name, node, n).0.len() ==> (#[trigger] parsed_children(
                cmd_name,
                node,
                n,
            ).0[i]).well_formed(),
    decreases node, 0nat, n,
{
    if 0 < n <= node.subcmds.len() {
        lemma_children_well_formed(cmd_name, node, n - 1);
        let child = node.subcmds[n - 1];
        lemma_parsed_well_formed(sub_name(cmd_name, child.name), child);
        let before = parsed_children(cmd_name, node, n - 1).0;
        let now = parsed_children(cmd_name, node, n).0;
        match parsed(sub_name(cmd_name, child.name), child).0 {
            Some(cmd) => {
                lemma_insert_well_formed(before, cmd);
                assert(now == insert_by_name(before, cmd));
            },
            None => {
                assert(now == before);
            },
        }
    }
}

/// In a command that is parsed, and in its subcommands at any depth, every
/// flag has a form, and each of its forms begins with a hyphen.
pub proof fn lemma_parsed_well_formed(cmd_name: Seq<char>, node: CmdPreInfoView)
    ensures
        match parsed(cmd_name, node).0 {
            Some(cmd) => cmd.well_formed(),
            None => true,
        },
    decreases node, 1nat, 0int,
{
    lemma_children_well_formed(cmd_name, node, node.subcmds.len() as int);
    match node.page {
        Some(page) => match page.text {
            Ok(text) => {
                lemma_page_flags_well_formed(cmd_name, text);
            },
            Err(_) => {},
        },
        None => {},
    }
    match parsed(cmd_name, node).0 {
        Some(cmd) => {
            let flags = own_flags(cmd_name, node.page).0;
            let subcommands = parsed_children(cmd_name, node, node.subcmds.len() as int).0;
            assert(cmd.flags == flags);
            assert(cmd.subcommands == subcommands);
            assert forall|i: int| 0 <= i < cmd.flags.len() implies (#[trigger] cmd.flags[i]).well_formed() by {
                assert(flags[i].well_formed());
            }
            assert forall|i: int| 0 <= i < cmd.subcommands.len() implies (
            #[trigger] cmd.subcommands[i]).well_formed() by {
                assert(subcommands[i].well_formed());
            }
        },
        None => {},
    }
}

/// The last word of a name: what follows its last space.
pub open spec fn last_word(name: Seq<char>) -> Seq<char> {
    after_last(name, ' ')
}

/// Whether no two subcommands of `node` have the same last word, and so in
/// each of its subcommands, at any depth. For names without a space this
/// says that no two subcommands of one command have the same name.
pub open spec fn distinct_words(node: CmdPreInfoView) -> bool
    decreases node,
{
    &&& forall|i: int, j: int|
        0 <= i < j < node.subcmds.len() ==> last_word(node.subcmds[i].name) != last_word(
            node.subcmds[j].name,
        )
    &&& forall|i: int| 0 <= i < node.subcmds.len() ==> distinct_words(#[trigger] node.subcmds[i])
}

/// The last word of the full name of a subcommand is the last word of its
/// own name.
pub proof fn lemma_last_word_of_sub(cmd_name: Seq<char>, name: Seq<char>)
    ensures
        last_word(sub_name(cmd_name, name)) == last_word(name),
    decreases name.len(),
{
    reveal_strlit(" ");
    let full = sub_name(cmd_name, name);
    if name.len() == 0 {
        assert(full.last() == ' ');
    } else {
        assert(full.last() == name.last());
        if name.last() != ' ' {
            assert(full.drop_last() =~= sub_name(cmd_name, name.drop_last()));
            lemma_last_word_of_sub(cmd_name, name.drop_last());
        }
    }
}

/// Where a command is put in, each command of the list is that command or
/// one that the list held.
proof fn lemma_insert_holds(cmds: Seq<CommandInfoView>, cmd: CommandInfoView)
    ensures
        insert_by_name(cmds, cmd).len() == cmds.len() + 1,
        forall|i: int|
            0 <= i < cmds.len() + 1 ==> (#[trigger] insert_by_name(cmds, cmd)[i]) == cmd || exists|
                j: int,
            |
                0 <= j < cmds.len() && insert_by_name(cmds, cmd)[i] == cmds[j],
    decreases cmds.len(),
{
    let r = insert_by_name(cmds, cmd);
    if cmds.len() > 0 && !name_le(cmds.last().name, cmd.name) {
        let rest = cmds.drop_last();
        lemma_insert_holds(rest, cmd);
        let inner = insert_by_name(rest, cmd);
        assert forall|i: int| 0 <= i < cmds.len() + 1 implies (#[trigger] r[i]) == cmd || exists|
            j: int,
        |
            0 <= j < cmds.len() && r[i] == cmds[j] by {
            if i < inner.len() {
                assert(r[i] == inner[i]);
                if inner[i] != cmd {
                    let j = choose|j: int| 0 <= j < rest.len() && inner[i] == rest[j];
                    assert(rest[j] == cmds[j]);
                }
            } else {
                assert(r[i] == cmds[cmds.len() - 1]);
            }
        }
    } else {
        assert forall|i: int| 0 <= i < cmds.len() + 1 implies (#[trigger] r[i]) == cmd || exists|
            j: int,
        |
            0 <= j < cmds.len() && r[i] == cmds[j] by {
            if i < cmds.len() {
                assert(r[i] == cmds[i]);
            }
        }
    }
}

/// Commands of different names keep different names when a command of yet
/// another name is put in.
proof fn lemma_insert_distinct(cmds: Seq<CommandInfoView>, cmd: CommandInfoView)
    requires
        distinct_names(cmds),
        forall|j: int| 0 <= j < cmds.len() ==> (#[trigger] cmds[j]).name != cmd.name,
    ensures
        distinct_names(insert_by_name(cmds, cmd)),
    decreases cmds.len(),
{
    let r = insert_by_name(cmds, cmd);
    if cmds.len() > 0 && !name_le(cmds.last().name, cmd.name) {
        let rest = cmds.drop_last();
        assert forall|i: int, j: int| 0 <= i < j < rest.len() implies rest[i].name
            != rest[j].name by {
            assert(rest[i] == cmds[i] && rest[j] == cmds[j]);
        }
        assert forall|j: int| 0 <= j < rest.len() implies (#[trigger] rest[j]).name != cmd.name by {
            assert(rest[j] == cmds[j]);
        }
        lemma_insert_distinct(rest, cmd);
        lemma_insert_holds(rest, cmd);
        let inner = insert_by_name(rest, cmd);
        assert forall|i: int, j: int| 0 <= i < j < r.len() implies r[i].name != r[j].name by {
            assert(r[i] == inner[i]);
            if j < inner.len() {
                assert(r[j] == inner[j]);
            } else {
                assert(r[j] == cmds[cmds.len() - 1]);
                if inner[i] != cmd {
                    let k = choose|k: int| 0 <= k < rest.len() && inner[i] == rest[k];
                    assert(rest[k] == cmds[k]);
                }
            }
        }
    } else {
        assert forall|i: int, j: int| 0 <= i < j < r.len() implies r[i].name != r[j].name by {
            assert(r[i] == cmds[i]);
            if j < cmds.len() {
                assert(r[j] == cmds[j]);
            }
        }
    }
}

/// The name of a command that is parsed is the last word of its full name.
pub proof fn lemma_parsed_name(cmd_name: Seq<char>, node: CmdPreInfoView)
    ensures
        match parsed(cmd_name, node).0 {
            Some(cmd) => cmd.name == last_word(cmd_name),
            None => true,
        },
{
}

/// The first `n` subcommands that are parsed have different names, each the
/// last word of one of the first `n` subcommands of the node, and so have
/// their own subcommands.
proof fn lemma_children_distinct(cmd_name: Seq<char>, node: CmdPreInfoView, n: int)
    requires
        distinct_words(node),
    ensures
        distinct_names(parsed_children(cmd_name, node, n).0),
        forall|i: int|
            0 <= i < parsed_children(cmd_name, node, n).0.len() ==> (#[trigger] parsed_children(
                cmd_name,
                node,
                n,
            ).0[i]).distinct_subcommands(),
        forall|i: int|
            0 <= i < parsed_children(cmd_name, node, n).0.len() ==> exists|k: int|
                0 <= k < n && k < node.subcmds.len() && (#[trigger] parsed_children(
                    cmd_name,
                    node,
                    n,
                ).0[i]).name == last_word(node.subcmds[k].name),
    decreases node, 0nat, n,
{
    if 0 < n <= node.subcmds.len() {
        lemma_children_distinct(cmd_name, node, n - 1);
        let child = node.subcmds[n - 1];
        let full = sub_name(cmd_name, child.name);
        lemma_parsed_distinct(full, child);
        lemma_parsed_name(full, child);
        lemma_last_word_of_sub(cmd_name, child.name);
        let before = parsed_children(cmd_name, node, n - 1).0;
        let now = parsed_children(cmd_name, node, n).0;
        match parsed(full, child).0 {
            Some(cmd) => {
                assert(now == insert_by_name(before, cmd));
                assert forall|j: int| 0 <= j < before.len() implies (#[trigger] before[j]).name
                    != cmd.name by {
                    let k = choose|k: int|
                        0 <= k < n - 1 && k < node.subcmds.len() && before[j].name == last_word(
                            node.subcmds[k].name,
                        );
                    assert(last_word(node.subcmds[k].name) != last_word(node.subcmds[n - 1].name));
                }
                lemma_insert_distinct(before, cmd);
                lemma_insert_holds(before, cmd);
                assert forall|i: int| 0 <= i < now.len() implies (
                #[trigger] now[i]).distinct_subcommands() && exists|k: int|
                    0 <= k < n && k < node.subcmds.len() && now[i].name == last_word(
                        node.subcmds[k].name,
                    ) by {
                    if now[i] == cmd {
                        assert(cmd.name == last_word(node.subcmds[n - 1].name));
                    } else {
                        let j = choose|j: int| 0 <= j < before.len() && now[i] == before[j];
                        assert(before[j].distinct_subcommands());
                        let k = choose|k: int|
                            0 <= k < n - 1 && k < node.subcmds.len() && before[j].name == last_word(
                                node.subcmds[k].name,
                            );
                        assert(now[i].name == last_word(node.subcmds[k].name));
                    }
                }
            },
            None => {
                assert(now == before);
                assert forall|i: int| 0 <= i < now.len() implies exists|k: int|
                    0 <= k < n && k < node.subcmds.len() && (#[trigger] now[i]).name == last_word(
                        node.subcmds[k].name,
                    ) by {
                    let k = choose|k: int|
                        0 <= k < n - 1 && k < node.subcmds.len() && before[i].name == last_word(
                            node.subcmds[k].name,
                        );
                    assert(now[i].name == last_word(node.subcmds[k].name));
                }
            },
        }
    }
}

/// In a command that is parsed, no two subcommands of one command have the
/// same name, at any depth, where no two subcommands of one node of the
/// tree have the same last word.
pub proof fn lemma_parsed_distinct(cmd_name: Seq<char>, node: CmdPreInfoView)
    requires
        distinct_words(node),
    ensures
        match parsed(cmd_name, node).0 {
            Some(cmd) => cmd.distinct_subcommands(),
            None => true,
        },
    decreases node, 1nat, 0int,
{
    lemma_children_distinct(cmd_name, node, node.subcmds.len() as int);
    match parsed(cmd_name, node).0 {
        Some(cmd) => {
            let subcommands = parsed_children(cmd_name, node, node.subcmds.len() as int).0;
            assert(cmd.subcommands == subcommands);
            assert forall|i: int| 0 <= i < cmd.subcommands.len() implies (
            #[trigger] cmd.subcommands[i]).distinct_subcommands() by {
                assert(subcommands[i].distinct_subcommands());
            }
        },
        None => {},
    }
}

/// Whether no name among `nodes`, at any depth, holds a space.
pub open spec fn spaceless(nodes: Seq<CmdPreInfoView>) -> bool
    decreases nodes,
{
    &&& forall|i: int| 0 <= i < nodes.len() ==> !(#[trigger] nodes[i]).name.contains(' ')
    &&& forall|i: int| 0 <= i < nodes.len() ==> spaceless(#[trigger] nodes[i].subcmds)
}

/// A name without a space is its own last word.
pub proof fn lemma_last_word_whole(name: Seq<char>)
    requires
        !name.contains(' '),
    ensures
        last_word(name) == name,
    decreases name.len(),
{
    if name.len() > 0 {
        assert(name.contains(name.last()));
        assert forall|c: char| name.drop_last().contains(c) implies name.contains(c) by {
            let i = choose|i: int| 0 <= i < name.drop_last().len() && name.drop_last()[i] == c;
            assert(name[i] == c);
        }
        lemma_last_word_whole(name.drop_last());
        assert(name.drop_last().push(name.last()) =~= name);
    } else {
        assert(last_word(name) =~= name);
    }
}

/// In a tree whose names hold no space, and in which no two subcommands of
/// one command have the same name, no two have the same last word.
pub proof fn lemma_distinct_words(node: CmdPreInfoView)
    requires
        well_formed(node.subcmds),
        spaceless(node.subcmds),
    ensures
        distinct_words(node),
    decreases node,
{
    assert forall|i: int, j: int| 0 <= i < j < node.subcmds.len() implies last_word(
        node.subcmds[i].name,
    ) != last_word(node.subcmds[j].name) by {
        lemma_last_word_whole(node.subcmds[i].name);
        lemma_last_word_whole(node.subcmds[j].name);
    }
    assert forall|i: int| 0 <= i < node.subcmds.len() implies distinct_words(
        #[trigger] node.subcmds[i],
    ) by {
        lemma_distinct_words(node.subcmds[i]);
    }
}

} // verus!
