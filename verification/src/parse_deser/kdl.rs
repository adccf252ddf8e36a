//! For deserializing from KDL

use vstd::prelude::*;
use vstd::string::StringExecFns;
use crate::parse_deser::error::{
    KdlDeserError, KdlDeserErrorView, ParseError, ParseErrorView, Span, SyntaxError,
    SyntaxErrorView,
};
use crate::text::{chars_of, join, join_strings, slice_of, string_of, trim, trim_chars};
use crate::{
    commands_view, flags_view, lemma_any_view, lemma_command_view, strs_view, types_view, ArgType,
    ArgTypeView, CommandInfo, CommandInfoView, Flag, FlagView,
};

verus! {

/// The entry type of the `kdl` crate.
#[verifier::external_type_specification]
#[verifier::external_body]
pub struct ExKdlEntry(kdl::KdlEntry);

/// The document type of the `kdl` crate.
#[verifier::external_type_specification]
#[verifier::external_body]
pub struct ExKdlDocument(kdl::KdlDocument);

/// An argument or a property of a node, as the parser found it.
#[derive(Debug, PartialEq, Eq)]
pub struct Entry {
    /// The name of the property, as it is written; an argument has none
    pub name: Option<String>,
    /// Whether the value is a string
    pub is_string: bool,
    /// The value, as it is written
    pub value: String,
    /// The whole entry, as it is written, with the space before it
    pub text: String,
    pub span: Span,
}

/// The nodes between the braces of a node.
#[derive(Debug, PartialEq, Eq)]
pub struct Children {
    pub span: Span,
    pub nodes: Vec<Node>,
}

/// A node of a document, as the parser found it.
#[derive(Debug, PartialEq, Eq)]
pub struct Node {
    /// The name, as it is written: in quotes, if it was written so
    pub name: String,
    pub name_span: Span,
    pub span: Span,
    pub entries: Vec<Entry>,
    pub children: Option<Children>,
}

/// The mathematical value of an [`Entry`].
pub struct EntryView {
    pub name: Option<Seq<char>>,
    pub is_string: bool,
    pub value: Seq<char>,
    pub text: Seq<char>,
    pub span: Span,
}

/// The mathematical value of a [`Children`].
pub struct ChildrenView {
    pub span: Span,
    pub nodes: Seq<NodeView>,
}

/// The mathematical value of a [`Node`].
pub struct NodeView {
    pub name: Seq<char>,
    pub name_span: Span,
    pub span: Span,
    pub entries: Seq<EntryView>,
    pub children: Option<ChildrenView>,
}

impl View for Entry {
    type V = EntryView;

    open spec fn view(&self) -> EntryView {
        EntryView {
            name: crate::opt_view(self.name),
            is_string: self.is_string,
            value: self.value@,
            text: self.text@,
            span: self.span,
        }
    }
}

/// The values of a list of entries.
pub open spec fn entries_view(v: Seq<Entry>) -> Seq<EntryView> {
    Seq::new(v.len(), |i: int| v[i]@)
}

impl Node {
    /// The mathematical value of this node.
    pub open spec fn model(self) -> NodeView
        decreases self,
    {
        NodeView {
            name: self.name@,
            name_span: self.name_span,
            span: self.span,
            entries: entries_view(self.entries@),
            children: match self.children {
                Some(children) => Some(
                    ChildrenView {
                        span: children.span,
                        nodes: Seq::new(
                            children.nodes@.len(),
                            |i: int|
                                if 0 <= i < children.nodes@.len() {
                                    children.nodes@[i].model()
                                } else {
                                    arbitrary()
                                },
                        ),
                    },
                ),
                None => None,
            },
        }
    }
}

impl View for Node {
    type V = NodeView;

    open spec fn view(&self) -> NodeView {
        self.model()
    }
}

/// The values of a list of nodes.
pub open spec fn nodes_view(v: Seq<Node>) -> Seq<NodeView> {
    Seq::new(v.len(), |i: int| v[i]@)
}

/// The view of a node holds the views of the nodes inside it.
pub proof fn lemma_node_view(node: Node)
    ensures
        node@.name == node.name@,
        node@.name_span == node.name_span,
        node@.span == node.span,
        node@.entries == entries_view(node.entries@),
        node@.children == match node.children {
            Some(children) => Some(
                ChildrenView { span: children.span, nodes: nodes_view(children.nodes@) },
            ),
            None => None,
        },
{
    match node.children {
        Some(children) => {
            assert(node@.children->0.nodes =~= nodes_view(children.nodes@));
        },
        None => {},
    }
}

/// What the `kdl` crate makes of a text: the nodes of the document, or the
/// reason why the text is none.
pub uninterp spec fn kdl_document(text: Seq<char>) -> Result<Seq<NodeView>, SyntaxErrorView>;

/// The nodes of a document, or the error of the parser, as values.
pub open spec fn document_view(r: Result<Vec<Node>, SyntaxError>) -> Result<
    Seq<NodeView>,
    SyntaxErrorView,
> {
    match r {
        Ok(nodes) => Ok(nodes_view(nodes@)),
        Err(e) => Err(e@),
    }
}

/// Takes over an entry of the `kdl` crate: the name of a property, whether
/// the value is a string, and the value and the whole entry as the crate
/// writes them.
#[verifier::external_body]
fn entry_of(entry: &kdl::KdlEntry) -> Entry {
    Entry {
        name: entry.name().map(|name| name.to_string()),
        is_string: entry.value().is_string_value(),
        value: entry.value().to_string(),
        text: entry.to_string(),
        span: Span { offset: entry.span().offset(), len: entry.span().len() },
    }
}

/// Takes over the nodes of a document of the `kdl` crate.
#[verifier::external_body]
fn children_of(doc: &kdl::KdlDocument) -> Children {
    Children {
        span: Span { offset: doc.span().offset(), len: doc.span().len() },
        nodes: doc.nodes().iter().map(node_of).collect(),
    }
}

/// Takes over a node of the `kdl` crate: its name as the crate writes it,
/// its entries, and its children if it has braces.
#[verifier::external_body]
fn node_of(node: &kdl::KdlNode) -> Node {
    Node {
        name: node.name().to_string(),
        name_span: Span { offset: node.name().span().offset(), len: node.name().span().len() },
        span: Span { offset: node.span().offset(), len: node.span().len() },
        entries: node.entries().iter().map(entry_of).collect(),
        children: node.children().map(children_of),
    }
}

/// Calls the parser of the `kdl` crate, `KdlDocument::from_str`: the result
/// is what the crate makes of the text, named [`kdl_document`].
#[verifier::external_body]
fn parse_document(text: &str) -> (r: Result<Vec<Node>, SyntaxError>)
    ensures
        document_view(r) == kdl_document(text@),
{
    match text.parse::<kdl::KdlDocument>() {
        Ok(doc) => Ok(doc.nodes().iter().map(node_of).collect()),
        Err(e) => Err(
            SyntaxError {
                message: e.kind.to_string(),
                span: Span { offset: e.span.offset(), len: e.span.len() },
                label: e.label.map(String::from),
                help: e.help.map(String::from),
            },
        ),
    }
}

/// `s` without the quotes around it: where `s`, without the whitespace
/// around it, begins with a double quote, what stands between that and the
/// double quote at its end. Any other text is left as it is.
pub open spec fn unquoted(s: Seq<char>) -> Seq<char> {
    let t = trim(s);
    if t.len() > 0 && t[0] == '"' {
        if t.len() >= 2 && t.last() == '"' {
            t.subrange(1, t.len() - 1)
        } else {
            t.skip(1)
        }
    } else {
        s
    }
}

/// The index of the first of `nodes`, at or after `from`, that is named `name`.
pub open spec fn named(nodes: Seq<NodeView>, name: Seq<char>, from: int) -> Option<int>
    decreases nodes.len() - from,
{
    if from < 0 || from >= nodes.len() {
        None
    } else if nodes[from].name == name {
        Some(from)
    } else {
        named(nodes, name, from + 1)
    }
}

/// The names that the children of a command may have.
pub open spec fn command_children() -> Seq<Seq<char>> {
    seq!["flags"@, "args"@, "desc"@, "subcommands"@]
}

/// The names that the children of a flag may have.
pub open spec fn flag_children() -> Seq<Seq<char>> {
    seq!["desc"@, "type"@]
}

/// What is wrong with the first `n` of `nodes` as the children of a node
/// that may have the children `names`, once each: the first node that is
/// not among `names`, or that has the name of a node before it.
pub open spec fn misplaced(nodes: Seq<NodeView>, names: Seq<Seq<char>>, n: int) -> Option<
    ParseErrorView,
>
    decreases n,
{
    if n <= 0 || n > nodes.len() {
        None
    } else {
        match misplaced(nodes, names, n - 1) {
            Some(e) => Some(e),
            None => {
                let node = nodes[n - 1];
                if !names.contains(node.name) {
                    Some(
                        ParseErrorView::UnexpectedChild {
                            child_name: node.name,
                            allowed: "one of ["@ + join(names, ", "@) + "]"@,
                            span: node.name_span,
                        },
                    )
                } else {
                    match named(nodes.take(n - 1), node.name, 0) {
                        Some(i) => Some(
                            ParseErrorView::DuplicateChild {
                                child_name: node.name,
                                span: node.name_span,
                                prev_span: nodes[i].name_span,
                            },
                        ),
                        None => None,
                    }
                }
            },
        }
    }
}

/// The first `n` of `entries`, each as it is written, without quotes.
pub open spec fn entry_texts(entries: Seq<EntryView>, n: int) -> Seq<Seq<char>>
    decreases n,
{
    if n <= 0 || n > entries.len() {
        Seq::empty()
    } else {
        entry_texts(entries, n - 1).push(unquoted(entries[n - 1].text))
    }
}

/// The advice for a type `strings` that is written with braces.
pub open spec fn strings_help() -> Seq<char> {
    "Write out the strings like 'strings \"foo\" \"bar\"' instead of 'strings {...}'"@
}

/// The type that `node` stands for: `path`, `dir`, `unknown` and `command`
/// by their names, `strings` with the allowed strings as its arguments, and
/// `run` with the words of a command as its arguments.
pub open spec fn type_of(node: NodeView) -> Result<ArgTypeView, ParseErrorView> {
    if node.name == "path"@ {
        Ok(ArgTypeView::Path)
    } else if node.name == "dir"@ {
        Ok(ArgTypeView::Dir)
    } else if node.name == "unknown"@ {
        Ok(ArgTypeView::Unknown)
    } else if node.name == "command"@ {
        Ok(ArgTypeView::CommandName)
    } else if node.name == "strings"@ {
        match node.children {
            Some(children) => Err(
                ParseErrorView::Generic {
                    error: "'strings' type should have no child nodes"@,
                    span: children.span,
                    label: "this stuff shouldn't be here"@,
                    help: if node.entries.len() == 0 {
                        Some(strings_help())
                    } else {
                        None
                    },
                },
            ),
            None => Ok(
                ArgTypeView::Strings(
                    Seq::new(
                        node.entries.len(),
                        |i: int| (unquoted(node.entries[i].text), None::<Seq<char>>),
                    ),
                ),
            ),
        }
    } else if node.name == "run"@ {
        if node.entries.len() == 0 {
            Err(ParseErrorView::MissingCommand(node.name_span))
        } else {
            Ok(
                ArgTypeView::Run {
                    cmd: join(entry_texts(node.entries, node.entries.len() as int), " "@),
                    sep: None,
                },
            )
        }
    } else {
        Err(ParseErrorView::InvalidType(node.name, node.name_span))
    }
}

/// The types of the first `n` of `nodes`, or what is wrong with the first
/// of them that is no type.
pub open spec fn types_of(nodes: Seq<NodeView>, n: int) -> Result<Seq<ArgTypeView>, ParseErrorView>
    decreases n,
{
    if n <= 0 || n > nodes.len() {
        Ok(Seq::empty())
    } else {
        match types_of(nodes, n - 1) {
            Err(e) => Err(e),
            Ok(types) => match type_of(nodes[n - 1]) {
                Err(e) => Err(e),
                Ok(typ) => Ok(types.push(typ)),
            },
        }
    }
}

/// The spellings that a command has so far, each with the place where it
/// was given.
pub type Seen = Seq<(Seq<char>, Span)>;

/// The index of the first of `seen`, at or after `from`, that is spelled `flag`.
pub open spec fn seen_at(seen: Seen, flag: Seq<char>, from: int) -> Option<int>
    decreases seen.len() - from,
{
    if from < 0 || from >= seen.len() {
        None
    } else if seen[from].0 == flag {
        Some(from)
    } else {
        seen_at(seen, flag, from + 1)
    }
}

/// The forms of the flag `node`, as far as its name and its first `n`
/// entries give them, and the spellings of the command with them. The name
/// of the node is the first form and each entry a further one; an entry
/// must be a string without a name, and no spelling may come twice.
pub open spec fn forms_of(node: NodeView, seen: Seen, n: int) -> Result<
    (Seq<Seq<char>>, Seen),
    ParseErrorView,
>
    decreases n,
{
    if n <= 0 || n > node.entries.len() {
        let first = unquoted(node.name);
        match seen_at(seen, first, 0) {
            Some(i) => Err(
                ParseErrorView::DuplicateFlag {
                    flag: first,
                    span: node.name_span,
                    prev_span: seen[i].1,
                },
            ),
            None => Ok((seq![first], seen.push((first, node.name_span)))),
        }
    } else {
        match forms_of(node, seen, n - 1) {
            Err(e) => Err(e),
            Ok((forms, seen)) => {
                let entry = node.entries[n - 1];
                match entry.name {
                    Some(name) => Err(
                        ParseErrorView::InvalidFlag {
                            msg: "entry with name "@ + name,
                            span: entry.span,
                        },
                    ),
                    None => if !entry.is_string {
                        Err(ParseErrorView::InvalidFlag { msg: entry.text, span: entry.span })
                    } else {
                        let flag = unquoted(entry.value);
                        match seen_at(seen, flag, 0) {
                            Some(i) => Err(
                                ParseErrorView::DuplicateFlag {
                                    flag,
                                    span: entry.span,
                                    prev_span: seen[i].1,
                                },
                            ),
                            None => Ok((forms.push(flag), seen.push((flag, node.name_span)))),
                        }
                    },
                }
            },
        }
    }
}

/// The description that the children of a flag give it: the one argument
/// of the node `desc`.
pub open spec fn flag_desc(children: Seq<NodeView>) -> Result<Option<Seq<char>>, ParseErrorView> {
    match named(children, "desc"@, 0) {
        Some(i) => if children[i].entries.len() == 1 {
            Ok(Some(unquoted(children[i].entries[0].value)))
        } else {
            Err(ParseErrorView::InvalidDescription(children[i].name_span))
        },
        None => Ok(None),
    }
}

/// The type that the children of a flag give it: the one type inside the
/// node `type`, or any of the types inside it.
pub open spec fn flag_type(children: Seq<NodeView>) -> Result<Option<ArgTypeView>, ParseErrorView> {
    match named(children, "type"@, 0) {
        Some(i) => match children[i].children {
            Some(inner) => match types_of(inner.nodes, inner.nodes.len() as int) {
                Err(e) => Err(e),
                Ok(types) => Ok(
                    Some(
                        if types.len() == 1 {
                            types[0]
                        } else {
                            ArgTypeView::Any(types)
                        },
                    ),
                ),
            },
            None => Err(ParseErrorView::EmptyType(children[i].span)),
        },
        None => Ok(None),
    }
}

/// The flag that `node` stands for, and the spellings of the command
/// with its forms.
pub open spec fn flag_of(node: NodeView, seen: Seen) -> Result<(FlagView, Seen), ParseErrorView> {
    match forms_of(node, seen, node.entries.len() as int) {
        Err(e) => Err(e),
        Ok((forms, seen)) => match node.children {
            None => Ok((FlagView { forms, desc: None, typ: None }, seen)),
            Some(children) => match misplaced(
                children.nodes,
                flag_children(),
                children.nodes.len() as int,
            ) {
                Some(e) => Err(e),
                None => match flag_desc(children.nodes) {
                    Err(e) => Err(e),
                    Ok(desc) => match flag_type(children.nodes) {
                        Err(e) => Err(e),
                        Ok(typ) => Ok((FlagView { forms, desc, typ }, seen)),
                    },
                },
            },
        },
    }
}

/// The flags of the first `n` of `nodes`, and their spellings.
pub open spec fn flags_of(nodes: Seq<NodeView>, n: int) -> Result<
    (Seq<FlagView>, Seen),
    ParseErrorView,
>
    decreases n,
{
    if n <= 0 || n > nodes.len() {
        Ok((Seq::empty(), Seq::empty()))
    } else {
        match flags_of(nodes, n - 1) {
            Err(e) => Err(e),
            Ok((flags, seen)) => match flag_of(nodes[n - 1], seen) {
                Err(e) => Err(e),
                Ok((flag, seen)) => Ok((flags.push(flag), seen)),
            },
        }
    }
}

/// The nodes inside the child named `name`, if there is such a child and it
/// has braces.
pub open spec fn inside(children: Seq<NodeView>, name: Seq<char>) -> Option<Seq<NodeView>> {
    match named(children, name, 0) {
        Some(i) => match children[i].children {
            Some(inner) => Some(inner.nodes),
            None => None,
        },
        None => None,
    }
}

/// The description that the children of a command give it: the first
/// argument of the node `desc`.
pub open spec fn command_desc(children: Seq<NodeView>) -> Result<Option<Seq<char>>, ParseErrorView> {
    match named(children, "desc"@, 0) {
        Some(i) => if children[i].entries.len() == 0 {
            Err(
                ParseErrorView::Generic {
                    error: "Expected command description"@,
                    span: children[i].name_span,
                    label: "No entry for node"@,
                    help: None,
                },
            )
        } else {
            Ok(Some(unquoted(children[i].entries[0].text)))
        },
        None => Ok(None),
    }
}

/// The commands of the first `n` nodes inside `holder`.
pub open spec fn commands_of(holder: NodeView, n: int) -> Result<Seq<CommandInfoView>, ParseErrorView>
    decreases holder, 0nat, n,
{
    match holder.children {
        Some(inner) => if n <= 0 || n > inner.nodes.len() {
            Ok(Seq::empty())
        } else {
            match commands_of(holder, n - 1) {
                Err(e) => Err(e),
                Ok(cmds) => match command_of(inner.nodes[n - 1]) {
                    Err(e) => Err(e),
                    Ok(cmd) => Ok(cmds.push(cmd)),
                },
            }
        },
        None => Ok(Seq::empty()),
    }
}

/// The command that `node` stands for: named like the node, with the flags
/// inside its child `flags`, the types of the arguments inside `args`, the
/// description that `desc` gives, and the commands inside `subcommands`.
/// What is wrong with the flags is reported before what is wrong with the
/// arguments, the description and the subcommands, in this order.
pub open spec fn command_of(node: NodeView) -> Result<CommandInfoView, ParseErrorView>
    decreases node, 1nat, 0int,
{
    match node.children {
        None => Ok(
            CommandInfoView {
                name: node.name,
                desc: None,
                flags: Seq::empty(),
                args: Seq::empty(),
                subcommands: Seq::empty(),
            },
        ),
        Some(children) => match misplaced(
            children.nodes,
            command_children(),
            children.nodes.len() as int,
        ) {
            Some(e) => Err(e),
            None => match (match inside(children.nodes, "flags"@) {
                Some(nodes) => flags_of(nodes, nodes.len() as int),
                None => Ok((Seq::empty(), Seq::empty())),
            }) {
                Err(e) => Err(e),
                Ok((flags, _)) => match (match inside(children.nodes, "args"@) {
                    Some(nodes) => types_of(nodes, nodes.len() as int),
                    None => Ok(Seq::empty()),
                }) {
                    Err(e) => Err(e),
                    Ok(args) => match command_desc(children.nodes) {
                        Err(e) => Err(e),
                        Ok(desc) => match (match named(children.nodes, "subcommands"@, 0) {
                            Some(i) => if 0 <= i < children.nodes.len() {
                                commands_of(
                                    children.nodes[i],
                                    match children.nodes[i].children {
                                        Some(inner) => inner.nodes.len() as int,
                                        None => 0,
                                    },
                                )
                            } else {
                                Ok(Seq::empty())
                            },
                            None => Ok(Seq::empty()),
                        }) {
                            Err(e) => Err(e),
                            Ok(subcommands) => Ok(
                                CommandInfoView { name: node.name, desc, flags, args, subcommands },
                            ),
                        },
                    },
                },
            },
        },
    }
}

/// The command that a text describes, given what the parser made of the
/// text: the command of the one node of the document.
pub open spec fn command_from(text: Seq<char>, document: Result<Seq<NodeView>, SyntaxErrorView>) -> Result<
    CommandInfoView,
    KdlDeserErrorView,
> {
    match document {
        Err(e) => Err(KdlDeserErrorView::SyntaxError(e)),
        Ok(nodes) => if nodes.len() == 0 {
            Err(KdlDeserErrorView::EmptyFile)
        } else if nodes.len() > 1 {
            Err(KdlDeserErrorView::TooManyNodes(nodes.len() as usize))
        } else {
            match command_of(nodes[0]) {
                Ok(cmd) => Ok(cmd),
                Err(error) => Err(KdlDeserErrorView::ParseError { source_code: text, error }),
            }
        },
    }
}

/// A type or an error, as values.
pub open spec fn type_result_view(r: Result<ArgType, ParseError>) -> Result<ArgTypeView, ParseErrorView> {
    match r {
        Ok(t) => Ok(t@),
        Err(e) => Err(e@),
    }
}

/// A list of types or an error, as values.
pub open spec fn types_result_view(r: Result<Vec<ArgType>, ParseError>) -> Result<
    Seq<ArgTypeView>,
    ParseErrorView,
> {
    match r {
        Ok(t) => Ok(types_view(t@)),
        Err(e) => Err(e@),
    }
}

/// A command or an error, as values.
pub open spec fn command_result_view(r: Result<CommandInfo, ParseError>) -> Result<
    CommandInfoView,
    ParseErrorView,
> {
    match r {
        Ok(c) => Ok(c@),
        Err(e) => Err(e@),
    }
}

/// A command or an error of the whole text, as values.
pub open spec fn deser_result_view(r: Result<CommandInfo, KdlDeserError>) -> Result<
    CommandInfoView,
    KdlDeserErrorView,
> {
    match r {
        Ok(c) => Ok(c@),
        Err(e) => Err(e@),
    }
}

/// The spellings of a command, as characters.
pub open spec fn seen_view(v: Seq<(String, Span)>) -> Seen {
    Seq::new(v.len(), |i: int| (v[i].0@, v[i].1))
}

/// Once a child is misplaced, the children after it do not matter.
proof fn lemma_misplaced_stays(nodes: Seq<NodeView>, names: Seq<Seq<char>>, m: int, n: int)
    requires
        0 <= m <= n <= nodes.len(),
        misplaced(nodes, names, m) is Some,
    ensures
        misplaced(nodes, names, n) == misplaced(nodes, names, m),
    decreases n - m,
{
    if m < n {
        lemma_misplaced_stays(nodes, names, m, n - 1);
    }
}

/// Once a node is no type, the nodes after it do not matter.
proof fn lemma_types_stay(nodes: Seq<NodeView>, m: int, n: int)
    requires
        0 <= m <= n <= nodes.len(),
        types_of(nodes, m) is Err,
    ensures
        types_of(nodes, n) == types_of(nodes, m),
    decreases n - m,
{
    if m < n {
        lemma_types_stay(nodes, m, n - 1);
    }
}

/// Once an entry is no form, the entries after it do not matter.
proof fn lemma_forms_stay(node: NodeView, seen: Seen, m: int, n: int)
    requires
        0 <= m <= n <= node.entries.len(),
        forms_of(node, seen, m) is Err,
    ensures
        forms_of(node, seen, n) == forms_of(node, seen, m),
    decreases n - m,
{
    if m < n {
        lemma_forms_stay(node, seen, m, n - 1);
    }
}

/// Once a node is no flag, the nodes after it do not matter.
proof fn lemma_flags_stay(nodes: Seq<NodeView>, m: int, n: int)
    requires
        0 <= m <= n <= nodes.len(),
        flags_of(nodes, m) is Err,
    ensures
        flags_of(nodes, n) == flags_of(nodes, m),
    decreases n - m,
{
    if m < n {
        lemma_flags_stay(nodes, m, n - 1);
    }
}

/// Once a node is no command, the nodes after it do not matter.
proof fn lemma_commands_stay(holder: NodeView, m: int, n: int)
    requires
        holder.children is Some,
        0 <= m <= n <= holder.children->0.nodes.len(),
        commands_of(holder, m) is Err,
    ensures
        commands_of(holder, n) == commands_of(holder, m),
    decreases n - m,
{
    if m < n {
        lemma_commands_stay(holder, m, n - 1);
    }
}

/// Whether no spelling stands twice among `seen`: what a map from the
/// spellings to their places gives.
pub open spec fn spelled_once(seen: Seen) -> bool {
    forall|i: int, j: int| 0 <= i < j < seen.len() ==> seen[i].0 != seen[j].0
}

/// A spelling that is not found stands nowhere among the spellings.
proof fn lemma_not_seen(seen: Seen, flag: Seq<char>, from: int)
    requires
        0 <= from,
        seen_at(seen, flag, from) is None,
    ensures
        forall|j: int| from <= j < seen.len() ==> (#[trigger] seen[j]).0 != flag,
    decreases seen.len() - from,
{
    if from < seen.len() {
        lemma_not_seen(seen, flag, from + 1);
    }
}

/// The spellings of a command stay without a spelling twice when the forms
/// of a flag are read.
pub proof fn lemma_forms_spelled_once(node: NodeView, seen: Seen, n: int)
    requires
        spelled_once(seen),
    ensures
        match forms_of(node, seen, n) {
            Ok((_, after)) => spelled_once(after),
            Err(_) => true,
        },
    decreases n,
{
    if n <= 0 || n > node.entries.len() {
        let first = unquoted(node.name);
        if seen_at(seen, first, 0) is None {
            lemma_not_seen(seen, first, 0);
            let after = seen.push((first, node.name_span));
            assert forall|i: int, j: int| 0 <= i < j < after.len() implies after[i].0
                != after[j].0 by {
                assert(after[i] == seen[i]);
                if j < seen.len() {
                    assert(after[j] == seen[j]);
                }
            }
        }
    } else {
        lemma_forms_spelled_once(node, seen, n - 1);
        match forms_of(node, seen, n - 1) {
            Ok((forms, before)) => {
                let entry = node.entries[n - 1];
                if entry.name is None && entry.is_string {
                    let flag = unquoted(entry.value);
                    if seen_at(before, flag, 0) is None {
                        lemma_not_seen(before, flag, 0);
                        let after = before.push((flag, node.name_span));
                        assert forall|i: int, j: int| 0 <= i < j < after.len() implies after[i].0
                            != after[j].0 by {
                            assert(after[i] == before[i]);
                            if j < before.len() {
                                assert(after[j] == before[j]);
                            }
                        }
                    }
                }
            },
            Err(_) => {},
        }
    }
}

/// KDL returns values with quotes around them, so remove those
fn strip_quotes(flag: &str) -> (r: String)
    ensures
        r@ == unquoted(flag@),
{
    let t = trim_chars(&chars_of(flag));
    if t.len() > 0 && t[0] == '"' {
        if t.len() >= 2 && t[t.len() - 1] == '"' {
            string_of(&slice_of(&t, 1, t.len() - 1))
        } else {
            string_of(&slice_of(&t, 1, t.len()))
        }
    } else {
        String::from_str(flag)
    }
}

fn find_named<'a>(nodes: &'a Vec<Node>, upto: usize, name: &str) -> (r: Option<usize>)
    requires
        upto <= nodes.len(),
    ensures
        match r {
            Some(i) => named(nodes_view(nodes@).take(upto as int), name@, 0) == Some(i as int) && i
                < upto,
            None => named(nodes_view(nodes@).take(upto as int), name@, 0) is None,
        },
{
    let ghost all = nodes_view(nodes@).take(upto as int);
    let wanted = chars_of(name);
    let mut i: usize = 0;
    while i < upto
        invariant
            i <= upto <= nodes.len(),
            all == nodes_view(nodes@).take(upto as int),
            wanted@ == name@,
            named(all, name@, 0) == named(all, name@, i as int),
        decreases upto - i,
    {
        proof {
            lemma_node_view(nodes@[i as int]);
            assert(all[i as int] == nodes@[i as int]@);
        }
        if crate::text::same_chars(&chars_of(nodes[i].name.as_str()), &wanted) {
            return Some(i);
        }
        i += 1;
    }
    None
}

/// Helper to check the nodes inside a node. Errors if there are duplicates or
/// unrecognized nodes
fn get_nodes(nodes: &Vec<Node>, names: &Vec<String>) -> (r: Result<(), ParseError>)
    ensures
        match r {
            Ok(_) => misplaced(nodes_view(nodes@), strs_view(names@), nodes.len() as int) is None,
            Err(e) => misplaced(nodes_view(nodes@), strs_view(names@), nodes.len() as int) == Some(
                e@,
            ),
        },
{
    let ghost all = nodes_view(nodes@);
    let mut n: usize = 0;
    while n < nodes.len()
        invariant
            n <= nodes.len(),
            all == nodes_view(nodes@),
            misplaced(all, strs_view(names@), n as int) is None,
        decreases nodes.len() - n,
    {
        let node = &nodes[n];
        proof {
            lemma_node_view(*node);
        }
        if !crate::text::holds(names, &node.name) {
            let mut allowed = String::from_str("one of [");
            allowed.append(join_strings(names, ", ").as_str());
            allowed.append("]");
            proof {
                lemma_misplaced_stays(all, strs_view(names@), n + 1, nodes.len() as int);
            }
            return Err(
                ParseError::UnexpectedChild {
                    child_name: node.name.clone(),
                    allowed,
                    span: node.name_span,
                },
            );
        }
        match find_named(nodes, n, node.name.as_str()) {
            Some(i) => {
                proof {
                    lemma_node_view(nodes@[i as int]);
                    lemma_misplaced_stays(all, strs_view(names@), n + 1, nodes.len() as int);
                }
                return Err(
                    ParseError::DuplicateChild {
                        child_name: node.name.clone(),
                        span: node.name_span,
                        prev_span: nodes[i].name_span,
                    },
                );
            },
            None => {},
        }
        n += 1;
    }
    Ok(())
}

fn child_named<'a>(nodes: &'a Vec<Node>, name: &str) -> (r: Option<&'a Node>)
    ensures
        match r {
            Some(node) => match named(nodes_view(nodes@), name@, 0) {
                Some(i) => 0 <= i < nodes.len() && *node == nodes@[i],
                None => false,
            },
            None => named(nodes_view(nodes@), name@, 0) is None,
        },
{
    assert(nodes_view(nodes@).take(nodes.len() as int) =~= nodes_view(nodes@));
    match find_named(nodes, nodes.len(), name) {
        Some(i) => Some(&nodes[i]),
        None => None,
    }
}

/// Helper to treat a node as an [`ArgType`]
fn parse_type(node: &Node) -> (r: Result<ArgType, ParseError>)
    ensures
        type_result_view(r) == type_of(node@),
{
    proof {
        lemma_node_view(*node);
    }
    let name = chars_of(node.name.as_str());
    if crate::text::same_chars(&name, &chars_of("path")) {
        Ok(ArgType::Path)
    } else if crate::text::same_chars(&name, &chars_of("dir")) {
        Ok(ArgType::Dir)
    } else if crate::text::same_chars(&name, &chars_of("unknown")) {
        Ok(ArgType::Unknown)
    } else if crate::text::same_chars(&name, &chars_of("command")) {
        Ok(ArgType::CommandName)
    } else if crate::text::same_chars(&name, &chars_of("strings")) {
        match &node.children {
            Some(children) => {
                let help = if node.entries.len() == 0 {
                    Some(
                        String::from_str(
                            "Write out the strings like 'strings \"foo\" \"bar\"' instead of 'strings {...}'",
                        ),
                    )
                } else {
                    None
                };
                Err(
                    ParseError::Generic {
                        error: String::from_str("'strings' type should have no child nodes"),
                        span: children.span,
                        label: String::from_str("this stuff shouldn't be here"),
                        help,
                    },
                )
            },
            None => {
                let mut strs: Vec<(String, Option<String>)> = Vec::new();
                let mut i: usize = 0;
                while i < node.entries.len()
                    invariant
                        i <= node.entries.len(),
                        strs@.len() == i,
                        forall|k: int|
                            0 <= k < i ==> strs@[k].0@ == unquoted(node.entries@[k]@.text)
                                && strs@[k].1 is None,
                    decreases node.entries.len() - i,
                {
                    strs.push((strip_quotes(node.entries[i].text.as_str()), None));
                    i += 1;
                }
                assert(crate::choices_view(strs@) =~= Seq::new(
                    node@.entries.len(),
                    |i: int| (unquoted(node@.entries[i].text), None::<Seq<char>>),
                ));
                Ok(ArgType::Strings(strs))
            },
        }
    } else if crate::text::same_chars(&name, &chars_of("run")) {
        if node.entries.len() == 0 {
            return Err(ParseError::MissingCommand(node.name_span));
        }
        let mut words: Vec<String> = Vec::new();
        let mut i: usize = 0;
        assert(strs_view(words@) =~= entry_texts(node@.entries, 0));
        while i < node.entries.len()
            invariant
                i <= node.entries.len(),
                node@.entries == entries_view(node.entries@),
                strs_view(words@) == entry_texts(node@.entries, i as int),
            decreases node.entries.len() - i,
        {
            let ghost before = strs_view(words@);
            let word = strip_quotes(node.entries[i].text.as_str());
            words.push(word);
            assert(strs_view(words@) =~= before.push(word@));
            i += 1;
        }
        Ok(ArgType::Run { cmd: join_strings(&words, " "), sep: None })
    } else {
        Err(ParseError::InvalidType(node.name.clone(), node.name_span))
    }
}

fn parse_types(nodes: &Vec<Node>) -> (r: Result<Vec<ArgType>, ParseError>)
    ensures
        types_result_view(r) == types_of(nodes_view(nodes@), nodes.len() as int),
{
    let ghost all = nodes_view(nodes@);
    let mut types: Vec<ArgType> = Vec::new();
    let mut i: usize = 0;
    assert(types_view(types@) =~= Seq::<ArgTypeView>::empty());
    while i < nodes.len()
        invariant
            i <= nodes.len(),
            all == nodes_view(nodes@),
            types_of(all, i as int) == Ok::<Seq<ArgTypeView>, ParseErrorView>(types_view(types@)),
        decreases nodes.len() - i,
    {
        let ghost before = types_view(types@);
        match parse_type(&nodes[i]) {
            Ok(typ) => {
                types.push(typ);
                assert(types_view(types@) =~= before.push(typ@));
            },
            Err(e) => {
                proof {
                    lemma_types_stay(all, i + 1, nodes.len() as int);
                }
                return Err(e);
            },
        }
        i += 1;
    }
    Ok(types)
}

fn seen_index(seen: &Vec<(String, Span)>, flag: &String) -> (r: Option<usize>)
    ensures
        match r {
            Some(i) => seen_at(seen_view(seen@), flag@, 0) == Some(i as int) && i < seen.len(),
            None => seen_at(seen_view(seen@), flag@, 0) is None,
        },
{
    let mut i: usize = 0;
    while i < seen.len()
        invariant
            i <= seen.len(),
            seen_at(seen_view(seen@), flag@, 0) == seen_at(seen_view(seen@), flag@, i as int),
        decreases seen.len() - i,
    {
        if seen[i].0 == *flag {
            return Some(i);
        }
        i += 1;
    }
    None
}

/// `flag_spans` records the spans of all flags for the current command to find
/// duplicates
fn parse_flag(node: &Node, flag_spans: &mut Vec<(String, Span)>) -> (r: Result<Flag, ParseError>)
    ensures
        match r {
            Ok(flag) => flag_of(node@, seen_view(old(flag_spans)@)) == Ok::<
                (FlagView, Seen),
                ParseErrorView,
            >((flag@, seen_view(final(flag_spans)@))),
            Err(e) => flag_of(node@, seen_view(old(flag_spans)@)) == Err::<
                (FlagView, Seen),
                ParseErrorView,
            >(e@),
        },
{
    proof {
        lemma_node_view(*node);
    }
    let ghost start = seen_view(flag_spans@);
    let mut forms: Vec<String> = Vec::new();

    // The name of the node itself will be the first flag
    let first_flag = strip_quotes(node.name.as_str());
    match seen_index(flag_spans, &first_flag) {
        Some(i) => {
            proof {
                lemma_forms_stay(node@, start, 0, node.entries.len() as int);
            }
            return Err(
                ParseError::DuplicateFlag {
                    flag: first_flag,
                    span: node.name_span,
                    prev_span: flag_spans[i].1,
                },
            );
        },
        None => {
            forms.push(first_flag.clone());
            flag_spans.push((first_flag, node.name_span));
        },
    }
    assert(strs_view(forms@) =~= seq![unquoted(node@.name)]);
    assert(seen_view(flag_spans@) =~= start.push((unquoted(node@.name), node@.name_span)));

    // The other flags will be parsed as entries
    let mut n: usize = 0;
    while n < node.entries.len()
        invariant
            n <= node.entries.len(),
            node@.entries == entries_view(node.entries@),
            node@.name_span == node.name_span,
            start == seen_view(old(flag_spans)@),
            forms_of(node@, start, n as int) == Ok::<(Seq<Seq<char>>, Seen), ParseErrorView>(
                (strs_view(forms@), seen_view(flag_spans@)),
            ),
        decreases node.entries.len() - n,
    {
        let flag_entry = &node.entries[n];
        assert(node@.entries[n as int] == flag_entry@);
        let ghost forms_before = strs_view(forms@);
        let ghost seen_before = seen_view(flag_spans@);
        match &flag_entry.name {
            Some(name) => {
                let mut msg = String::from_str("entry with name ");
                msg.append(name.as_str());
                proof {
                    lemma_forms_stay(node@, start, n + 1, node.entries.len() as int);
                }
                return Err(ParseError::InvalidFlag { msg, span: flag_entry.span });
            },
            None => {},
        }
        if !flag_entry.is_string {
            proof {
                lemma_forms_stay(node@, start, n + 1, node.entries.len() as int);
            }
            return Err(
                ParseError::InvalidFlag { msg: flag_entry.text.clone(), span: flag_entry.span },
            );
        }
        let flag = strip_quotes(flag_entry.value.as_str());
        match seen_index(flag_spans, &flag) {
            Some(i) => {
                proof {
                    lemma_forms_stay(node@, start, n + 1, node.entries.len() as int);
                }
                return Err(
                    ParseError::DuplicateFlag {
                        flag,
                        span: flag_entry.span,
                        prev_span: flag_spans[i].1,
                    },
                );
            },
            None => {},
        }
        forms.push(flag.clone());
        flag_spans.push((flag, node.name_span));
        assert(strs_view(forms@) =~= forms_before.push(flag@));
        assert(seen_view(flag_spans@) =~= seen_before.push((flag@, node@.name_span)));
        n += 1;
    }

    let mut desc: Option<String> = None;
    let mut typ: Option<ArgType> = None;
    match &node.children {
        Some(children) => {
            let names = vec![String::from_str("desc"), String::from_str("type")];
            assert(strs_view(names@) =~= flag_children());
            match get_nodes(&children.nodes, &names) {
                Err(e) => {
                    return Err(e);
                },
                Ok(_) => {},
            }
            match child_named(&children.nodes, "desc") {
                Some(desc_node) => {
                    proof {
                        lemma_node_view(*desc_node);
                    }
                    if desc_node.entries.len() == 1 {
                        desc = Some(strip_quotes(desc_node.entries[0].value.as_str()));
                    } else {
                        return Err(ParseError::InvalidDescription(desc_node.name_span));
                    }
                },
                None => {},
            }
            match child_named(&children.nodes, "type") {
                Some(type_node) => {
                    proof {
                        lemma_node_view(*type_node);
                    }
                    match &type_node.children {
                        Some(inner) => {
                            match parse_types(&inner.nodes) {
                                Err(e) => {
                                    return Err(e);
                                },
                                Ok(types) => {
                                    let mut types = types;
                                    if types.len() == 1 {
                                        let ghost only = types@[0]@;
                                        let one = types.remove(0);
                                        assert(one@ == only);
                                        typ = Some(one);
                                    } else {
                                        proof {
                                            lemma_any_view(types);
                                        }
                                        typ = Some(ArgType::Any(types));
                                    }
                                },
                            }
                        },
                        None => {
                            return Err(ParseError::EmptyType(type_node.span));
                        },
                    }
                },
                None => {},
            }
        },
        None => {},
    }

    Ok(Flag { forms, desc, typ })
}

fn parse_flags(nodes: &Vec<Node>) -> (r: Result<Vec<Flag>, ParseError>)
    ensures
        match r {
            Ok(flags) => match flags_of(nodes_view(nodes@), nodes.len() as int) {
                Ok((f, _)) => f == flags_view(flags@),
                Err(_) => false,
            },
            Err(e) => flags_of(nodes_view(nodes@), nodes.len() as int) == Err::<
                (Seq<FlagView>, Seen),
                ParseErrorView,
            >(e@),
        },
{
    let ghost all = nodes_view(nodes@);
    let mut flags: Vec<Flag> = Vec::new();
    let mut flag_spans: Vec<(String, Span)> = Vec::new();
    let mut i: usize = 0;
    assert(flags_view(flags@) =~= Seq::<FlagView>::empty());
    assert(seen_view(flag_spans@) =~= Seq::empty());
    while i < nodes.len()
        invariant
            i <= nodes.len(),
            all == nodes_view(nodes@),
            flags_of(all, i as int) == Ok::<(Seq<FlagView>, Seen), ParseErrorView>(
                (flags_view(flags@), seen_view(flag_spans@)),
            ),
        decreases nodes.len() - i,
    {
        let ghost before = flags_view(flags@);
        match parse_flag(&nodes[i], &mut flag_spans) {
            Ok(flag) => {
                flags.push(flag);
                assert(flags_view(flags@) =~= before.push(flag@));
            },
            Err(e) => {
                proof {
                    lemma_flags_stay(all, i + 1, nodes.len() as int);
                }
                return Err(e);
            },
        }
        i += 1;
    }
    Ok(flags)
}

/// The commands of the nodes inside `holder`
fn parse_commands(holder: &Node) -> (r: Result<Vec<CommandInfo>, ParseError>)
    ensures
        match r {
            Ok(cmds) => commands_of(
                holder@,
                match holder@.children {
                    Some(inner) => inner.nodes.len() as int,
                    None => 0,
                },
            ) == Ok::<Seq<CommandInfoView>, ParseErrorView>(commands_view(cmds@)),
            Err(e) => commands_of(
                holder@,
                match holder@.children {
                    Some(inner) => inner.nodes.len() as int,
                    None => 0,
                },
            ) == Err::<Seq<CommandInfoView>, ParseErrorView>(e@),
        },
    decreases holder, 0nat,
{
    proof {
        lemma_node_view(*holder);
    }
    let mut subcommands: Vec<CommandInfo> = Vec::new();
    assert(commands_view(subcommands@) =~= Seq::<CommandInfoView>::empty());
    match &holder.children {
        Some(inner) => {
            let mut k: usize = 0;
            while k < inner.nodes.len()
                invariant
                    k <= inner.nodes.len(),
                    holder.children == Some(*inner),
                    holder@.children == Some(
                        ChildrenView { span: inner.span, nodes: nodes_view(inner.nodes@) },
                    ),
                    commands_of(holder@, k as int) == Ok::<Seq<CommandInfoView>, ParseErrorView>(
                        commands_view(subcommands@),
                    ),
                decreases inner.nodes.len() - k,
            {
                let ghost before = commands_view(subcommands@);
                assert(holder.children->0 == *inner);
                match kdl_to_cmd_info(&inner.nodes[k]) {
                    Err(e) => {
                        proof {
                            lemma_commands_stay(holder@, k + 1, inner.nodes.len() as int);
                        }
                        return Err(e);
                    },
                    Ok(cmd) => {
                        subcommands.push(cmd);
                        assert(commands_view(subcommands@) =~= before.push(cmd@));
                    },
                }
                k += 1;
            }
        },
        None => {},
    }
    Ok(subcommands)
}

/// Convert a KDL node representing a command to a [`CommandInfo`]
///
/// Returns the first error encountered along the way, if it failed
pub fn kdl_to_cmd_info(node: &Node) -> (r: Result<CommandInfo, ParseError>)
    ensures
        command_result_view(r) == command_of(node@),
    decreases node, 1nat,
{
    proof {
        lemma_node_view(*node);
    }
    let name = node.name.clone();
    let mut flags: Vec<Flag> = Vec::new();
    let mut args: Vec<ArgType> = Vec::new();
    let mut desc: Option<String> = None;
    let mut subcommands: Vec<CommandInfo> = Vec::new();
    assert(flags_view(flags@) =~= Seq::<FlagView>::empty());
    assert(types_view(args@) =~= Seq::<ArgTypeView>::empty());
    assert(commands_view(subcommands@) =~= Seq::<CommandInfoView>::empty());

    match &node.children {
        Some(children) => {
            let names = vec![
                String::from_str("flags"),
                String::from_str("args"),
                String::from_str("desc"),
                String::from_str("subcommands"),
            ];
            assert(strs_view(names@) =~= command_children());
            match get_nodes(&children.nodes, &names) {
                Err(e) => {
                    return Err(e);
                },
                Ok(_) => {},
            }
            match child_named(&children.nodes, "flags") {
                Some(flags_node) => {
                    proof {
                        lemma_node_view(*flags_node);
                    }
                    match &flags_node.children {
                        Some(inner) => {
                            match parse_flags(&inner.nodes) {
                                Err(e) => {
                                    return Err(e);
                                },
                                Ok(parsed) => {
                                    flags = parsed;
                                },
                            }
                        },
                        None => {},
                    }
                },
                None => {},
            }
            match child_named(&children.nodes, "args") {
                Some(args_node) => {
                    proof {
                        lemma_node_view(*args_node);
                    }
                    match &args_node.children {
                        Some(inner) => {
                            match parse_types(&inner.nodes) {
                                Err(e) => {
                                    return Err(e);
                                },
                                Ok(parsed) => {
                                    args = parsed;
                                },
                            }
                        },
                        None => {},
                    }
                },
                None => {},
            }
            match child_named(&children.nodes, "desc") {
                Some(desc_node) => {
                    proof {
                        lemma_node_view(*desc_node);
                    }
                    if desc_node.entries.len() == 0 {
                        return Err(
                            ParseError::Generic {
                                error: String::from_str("Expected command description"),
                                span: desc_node.name_span,
                                label: String::from_str("No entry for node"),
                                help: None,
                            },
                        );
                    }
                    desc = Some(strip_quotes(desc_node.entries[0].text.as_str()));
                },
                None => {},
            }
            match child_named(&children.nodes, "subcommands") {
                Some(holder) => {
                    assert(node.children->0 == *children);
                    match parse_commands(holder) {
                        Err(e) => {
                            return Err(e);
                        },
                        Ok(parsed) => {
                            subcommands = parsed;
                        },
                    }
                },
                None => {},
            }
        },
        None => {},
    }

    let cmd = CommandInfo { name, desc, flags, args, subcommands };
    proof {
        lemma_command_view(cmd);
    }
    Ok(cmd)
}

/// The command that a text describes, given what the parser made of the
/// text
pub fn from_document(text: &str, document: Result<Vec<Node>, SyntaxError>) -> (r: Result<
    CommandInfo,
    KdlDeserError,
>)
    ensures
        deser_result_view(r) == command_from(text@, document_view(document)),
{
    match document {
        Err(e) => Err(KdlDeserError::SyntaxError(e)),
        Ok(nodes) => {
            if nodes.len() == 0 {
                Err(KdlDeserError::EmptyFile)
            } else if nodes.len() > 1 {
                Err(KdlDeserError::TooManyNodes(nodes.len()))
            } else {
                match kdl_to_cmd_info(&nodes[0]) {
                    Ok(cmd) => Ok(cmd),
                    Err(error) => Err(
                        KdlDeserError::ParseError { source_code: String::from_str(text), error },
                    ),
                }
            }
        },
    }
}

/// Parse a string as KDL and convert it to a [`CommandInfo`]
///
/// # Errors
///
/// Possible reasons for failure:
/// - The document isn't valid KDL
/// - The document doesn't have exactly one node
/// - The format of the document doesn't match the shape of a [`CommandInfo`]
pub fn parse_from_str(text: &str) -> (r: Result<CommandInfo, KdlDeserError>)
    ensures
        deser_result_view(r) == command_from(text@, kdl_document(text@)),
{
    from_document(text, parse_document(text))
}

} // verus!
