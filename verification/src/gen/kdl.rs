//! The parsed options as a KDL node.

use vstd::prelude::*;
use vstd::string::StringExecFns;
use crate::{lemma_command_view, strs_view, CommandInfo, CommandInfoView, FlagView};

verus! {

/// The node type of the `kdl` crate. A node of the library is turned into
/// one of these to be written out.
#[verifier::external_type_specification]
#[verifier::external_body]
pub struct ExKdlNode(kdl::KdlNode);

/// A node of a KDL document: a name, arguments that are strings, and the
/// nodes inside its braces, if it has braces.
#[derive(Debug, PartialEq, Eq)]
pub struct Node {
    pub name: String,
    pub entries: Vec<String>,
    pub children: Option<Vec<Node>>,
}

/// The mathematical value of a [`Node`].
pub struct NodeView {
    pub name: Seq<char>,
    pub entries: Seq<Seq<char>>,
    pub children: Option<Seq<NodeView>>,
}

impl Node {
    /// The mathematical value of this node.
    pub open spec fn model(self) -> NodeView
        decreases self,
    {
        NodeView {
            name: self.name@,
            entries: strs_view(self.entries@),
            children: match self.children {
                Some(nodes) => Some(
                    Seq::new(
                        nodes@.len(),
                        |i: int|
                            if 0 <= i < nodes@.len() {
                                nodes@[i].model()
                            } else {
                                arbitrary()
                            },
                    ),
                ),
                None => None,
            },
        }
    }
}

impl View for Node {
    type V = NodeView;

    open spec fn view(&self) -> NodeView {
        self.model()
    }
}

/// The values of a list of nodes.
pub open spec fn kdl_nodes_view(v: Seq<Node>) -> Seq<NodeView> {
    Seq::new(v.len(), |i: int| v[i]@)
}

/// The view of a node holds the views of the nodes inside it.
pub proof fn lemma_kdl_view(node: Node)
    ensures
        node@.name == node.name@,
        node@.entries == strs_view(node.entries@),
        node@.children == match node.children {
            Some(nodes) => Some(kdl_nodes_view(nodes@)),
            None => None,
        },
{
    match node.children {
        Some(nodes) => {
            assert(node@.children->0 =~= kdl_nodes_view(nodes@));
        },
        None => {},
    }
}

/// The text that the `kdl` crate writes for a node.
pub uninterp spec fn kdl_text(node: NodeView) -> Seq<char>;

/// The node of one flag: named by its first form, with the other forms as
/// arguments, and its description in a node `desc` inside it.
pub open spec fn flag_node(flag: FlagView) -> NodeView {
    NodeView {
        name: flag.forms[0],
        entries: flag.forms.skip(1),
        children: match flag.desc {
            Some(desc) => Some(
                seq![NodeView { name: "desc"@, entries: seq![desc], children: None }],
            ),
            None => None,
        },
    }
}

/// The nodes of the first `n` of `flags`; a flag without a form has none.
pub open spec fn flag_nodes(flags: Seq<FlagView>, n: int) -> Seq<NodeView>
    decreases n,
{
    if n <= 0 || n > flags.len() {
        Seq::empty()
    } else if flags[n - 1].forms.len() == 0 {
        flag_nodes(flags, n - 1)
    } else {
        flag_nodes(flags, n - 1).push(flag_node(flags[n - 1]))
    }
}

/// The nodes of the first `n` subcommands of `cmd`.
pub open spec fn sub_nodes(cmd: CommandInfoView, n: int) -> Seq<NodeView>
    decreases cmd, 0nat, n,
{
    if n <= 0 || n > cmd.subcommands.len() {
        Seq::empty()
    } else {
        sub_nodes(cmd, n - 1).push(command_node(cmd.subcommands[n - 1]))
    }
}

/// The node of `cmd`: named like the command, it holds a node `flags` with
/// the nodes of the flags and, where the command has subcommands, a node
/// `subcommands` with their nodes.
pub open spec fn command_node(cmd: CommandInfoView) -> NodeView
    decreases cmd, 1nat, 0int,
{
    let flags = NodeView {
        name: "flags"@,
        entries: Seq::empty(),
        children: Some(flag_nodes(cmd.flags, cmd.flags.len() as int)),
    };
    NodeView {
        name: cmd.name,
        entries: Seq::empty(),
        children: Some(
            if cmd.subcommands.len() == 0 {
                seq![flags]
            } else {
                seq![
                    flags,
                    NodeView {
                        name: "subcommands"@,
                        entries: Seq::empty(),
                        children: Some(sub_nodes(cmd, cmd.subcommands.len() as int)),
                    },
                ]
            },
        ),
    }
}

/// Turns a node of the library into a `kdl::KdlNode`: the name, each entry
/// as a string argument, and the children, if there are any, as its document.
#[verifier::external_body]
fn outside_node(node: &Node) -> kdl::KdlNode {
    let mut out = kdl::KdlNode::new(node.name.as_str());
    for entry in &node.entries {
        out.entries_mut().push(kdl::KdlEntry::new(entry.as_str()));
    }
    if let Some(children) = &node.children {
        let mut doc = kdl::KdlDocument::new();
        for child in children {
            doc.nodes_mut().push(outside_node(child));
        }
        out.set_children(doc);
    }
    out
}

/// Calls `to_string` of `kdl::KdlNode`, its `Display`: the result is the text
/// that the crate writes for the node, named [`kdl_text`].
#[verifier::external_body]
fn render(node: &Node) -> (r: String)
    ensures
        r@ == kdl_text(node@),
{
    outside_node(node).to_string()
}

fn flag_to_node(flag: &crate::Flag) -> (r: Node)
    requires
        flag.forms.len() > 0,
    ensures
        r@ == flag_node(flag@),
{
    let mut entries: Vec<String> = Vec::new();
    let mut i: usize = 1;
    assert(strs_view(entries@) =~= flag@.forms.subrange(1, 1));
    while i < flag.forms.len()
        invariant
            1 <= i <= flag.forms.len(),
            flag@.forms == strs_view(flag.forms@),
            strs_view(entries@) == flag@.forms.subrange(1, i as int),
        decreases flag.forms.len() - i,
    {
        let ghost before = strs_view(entries@);
        entries.push(flag.forms[i].clone());
        assert(strs_view(entries@) =~= before.push(flag.forms@[i as int]@));
        assert(flag@.forms.subrange(1, i + 1) =~= flag@.forms.subrange(1, i as int).push(
            flag.forms@[i as int]@,
        ));
        i += 1;
    }
    assert(flag@.forms.subrange(1, flag.forms.len() as int) =~= flag@.forms.skip(1));
    let children = match &flag.desc {
        Some(desc) => {
            let entry = vec![desc.clone()];
            assert(strs_view(entry@) =~= seq![desc@]);
            let description_node = Node {
                name: String::from_str("desc"),
                entries: entry,
                children: None,
            };
            proof {
                lemma_kdl_view(description_node);
            }
            let nodes = vec![description_node];
            assert(kdl_nodes_view(nodes@) =~= seq![description_node@]);
            Some(nodes)
        },
        None => None,
    };
    let node = Node { name: flag.forms[0].clone(), entries, children };
    proof {
        lemma_kdl_view(node);
    }
    node
}

/// Turn a [`CommandInfo`] into a KDL [`Node`]
pub fn to_kdl_node(cmd: &CommandInfo) -> (r: Node)
    ensures
        r@ == command_node(cmd@),
    decreases cmd,
{
    proof {
        lemma_command_view(*cmd);
    }
    let mut nodes: Vec<Node> = Vec::new();
    let mut i: usize = 0;
    assert(kdl_nodes_view(nodes@) =~= flag_nodes(cmd@.flags, 0));
    while i < cmd.flags.len()
        invariant
            i <= cmd.flags.len(),
            cmd@.flags == crate::flags_view(cmd.flags@),
            kdl_nodes_view(nodes@) == flag_nodes(cmd@.flags, i as int),
        decreases cmd.flags.len() - i,
    {
        let ghost before = kdl_nodes_view(nodes@);
        if cmd.flags[i].forms.len() > 0 {
            let node = flag_to_node(&cmd.flags[i]);
            nodes.push(node);
            assert(kdl_nodes_view(nodes@) =~= before.push(node@));
        }
        i += 1;
    }
    let flags = Node {
        name: String::from_str("flags"),
        entries: Vec::new(),
        children: Some(nodes),
    };
    proof {
        lemma_kdl_view(flags);
        assert(flags@.entries =~= Seq::empty());
    }
    let mut children: Vec<Node> = Vec::new();
    children.push(flags);

    if cmd.subcommands.len() != 0 {
        let mut subcommands: Vec<Node> = Vec::new();
        let mut k: usize = 0;
        assert(kdl_nodes_view(subcommands@) =~= sub_nodes(cmd@, 0));
        while k < cmd.subcommands.len()
            invariant
                k <= cmd.subcommands.len(),
                cmd@.subcommands == crate::commands_view(cmd.subcommands@),
                kdl_nodes_view(subcommands@) == sub_nodes(cmd@, k as int),
            decreases cmd.subcommands.len() - k,
        {
            let ghost before = kdl_nodes_view(subcommands@);
            let node = to_kdl_node(&cmd.subcommands[k]);
            subcommands.push(node);
            assert(kdl_nodes_view(subcommands@) =~= before.push(node@));
            k += 1;
        }
        let subcommands_node = Node {
            name: String::from_str("subcommands"),
            entries: Vec::new(),
            children: Some(subcommands),
        };
        proof {
            lemma_kdl_view(subcommands_node);
            assert(subcommands_node@.entries =~= Seq::empty());
        }
        children.push(subcommands_node);
        assert(kdl_nodes_view(children@) =~= seq![flags@, subcommands_node@]);
    } else {
        assert(kdl_nodes_view(children@) =~= seq![flags@]);
    }

    let node = Node { name: cmd.name.clone(), entries: Vec::new(), children: Some(children) };
    proof {
        lemma_kdl_view(node);
        assert(node@.entries =~= Seq::empty());
    }
    node
}

/// The name of the file that holds the options of `name`.
pub open spec fn file_name(name: Seq<char>) -> Seq<char> {
    name + ".kdl"@
}

/// Write the parsed options as KDL
pub fn generate(cmd: &CommandInfo) -> (r: (String, String))
    ensures
        r.0@ == file_name(cmd@.name),
        r.1@ == kdl_text(command_node(cmd@)),
{
    proof {
        lemma_command_view(*cmd);
    }
    let mut name = cmd.name.clone();
    name.append(".kdl");
    (name, render(&to_kdl_node(cmd)))
}

} // verus!
