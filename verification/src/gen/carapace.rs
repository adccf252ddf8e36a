//! The parsed options as Carapace reads them: a command file in YAML.

use vstd::prelude::*;
use vstd::string::StringExecFns;
use crate::gen::util::{pair_forms, paired, trim_dashes, undashed};
use crate::gen::yaml::{
    docs_view, lemma_list_view, lemma_table_view, table_view, to_yaml, yaml_text, Doc, DocView,
};
use crate::parse_man::name_le;
use crate::text::{cat, chars_of};
use crate::{
    lemma_any_view, lemma_command_view, strs_view, ArgType, ArgTypeView, CommandInfo,
    CommandInfoView, Flag, FlagView,
};

verus! {

/// The first line of a command file, which names its schema.
pub const HEADER: &'static str =
    "# yaml-language-server: $schema=https://carapace.sh/schemas/command.json";

/// How the arguments of a command are completed.
#[derive(Debug, PartialEq, Eq)]
pub struct Completion {
    /// The values of each positional argument
    pub positional: Vec<Vec<String>>,
    /// The values of each flag that takes one, one entry for each key, in
    /// the order of the keys
    pub flag: Vec<(String, Vec<String>)>,
}

/// A command as Carapace describes it.
#[derive(Debug, PartialEq, Eq)]
pub struct CarapaceCmd {
    pub name: String,
    pub description: Option<String>,
    /// The flags with their descriptions, one entry for each key, in the
    /// order of the keys
    pub flags: Vec<(String, String)>,
    pub completion: Completion,
    pub commands: Vec<CarapaceCmd>,
}

/// The mathematical value of a [`Completion`].
pub struct CompletionView {
    pub positional: Seq<Seq<Seq<char>>>,
    pub flag: Seq<(Seq<char>, Seq<Seq<char>>)>,
}

/// The mathematical value of a [`CarapaceCmd`].
pub struct CarapaceCmdView {
    pub name: Seq<char>,
    pub description: Option<Seq<char>>,
    pub flags: Seq<(Seq<char>, Seq<char>)>,
    pub completion: CompletionView,
    pub commands: Seq<CarapaceCmdView>,
}

/// The lists of values, as characters.
pub open spec fn lists_view(v: Seq<Vec<String>>) -> Seq<Seq<Seq<char>>> {
    Seq::new(v.len(), |i: int| strs_view(v[i]@))
}

/// A table of strings, as characters.
pub open spec fn strings_table_view(v: Seq<(String, String)>) -> Seq<(Seq<char>, Seq<char>)> {
    Seq::new(v.len(), |i: int| (v[i].0@, v[i].1@))
}

/// A table of lists, as characters.
pub open spec fn lists_table_view(v: Seq<(String, Vec<String>)>) -> Seq<(Seq<char>, Seq<Seq<char>>)> {
    Seq::new(v.len(), |i: int| (v[i].0@, strs_view(v[i].1@)))
}

impl View for Completion {
    type V = CompletionView;

    open spec fn view(&self) -> CompletionView {
        CompletionView {
            positional: lists_view(self.positional@),
            flag: lists_table_view(self.flag@),
        }
    }
}

impl CarapaceCmd {
    /// The mathematical value of this command.
    pub open spec fn model(self) -> CarapaceCmdView
        decreases self,
    {
        CarapaceCmdView {
            name: self.name@,
            description: crate::opt_view(self.description),
            flags: strings_table_view(self.flags@),
            completion: self.completion@,
            commands: Seq::new(
                self.commands@.len(),
                |i: int|
                    if 0 <= i < self.commands@.len() {
                        self.commands@[i].model()
                    } else {
                        arbitrary()
                    },
            ),
        }
    }
}

impl View for CarapaceCmd {
    type V = CarapaceCmdView;

    open spec fn view(&self) -> CarapaceCmdView {
        self.model()
    }
}

/// The values of a list of commands.
pub open spec fn carapace_cmds_view(v: Seq<CarapaceCmd>) -> Seq<CarapaceCmdView> {
    Seq::new(v.len(), |i: int| v[i]@)
}

/// The view of a command holds the views of its subcommands.
pub proof fn lemma_carapace_view(cmd: CarapaceCmd)
    ensures
        cmd@.commands == carapace_cmds_view(cmd.commands@),
        cmd@.name == cmd.name@,
        cmd@.description == crate::opt_view(cmd.description),
        cmd@.flags == strings_table_view(cmd.flags@),
        cmd@.completion == cmd.completion@,
{
    assert(cmd@.commands =~= carapace_cmds_view(cmd.commands@));
}

/// The table `m`, which is ordered by its keys, with `v` under the key `k`:
/// in place of what stood under `k`, or where `k` belongs in the order.
pub open spec fn put<V>(m: Seq<(Seq<char>, V)>, k: Seq<char>, v: V) -> Seq<(Seq<char>, V)>
    decreases m.len(),
{
    if m.len() == 0 {
        seq![(k, v)]
    } else if m.last().0 == k {
        m.drop_last().push((k, v))
    } else if name_le(m.last().0, k) {
        m.push((k, v))
    } else {
        put(m.drop_last(), k, v).push(m.last())
    }
}

/// One allowed value as Carapace takes it: the value, then a tab and the
/// description if it has one.
pub open spec fn described_value(value: (Seq<char>, Option<Seq<char>>)) -> Seq<char> {
    match value.1 {
        Some(desc) => value.0 + "\t"@ + desc,
        None => value.0,
    }
}

/// The values of the first `n` types of `typ`, which is one of several.
pub open spec fn any_values(typ: ArgTypeView, n: int) -> Seq<Seq<char>>
    decreases typ, 0nat, n,
{
    match typ {
        ArgTypeView::Any(types) => if n <= 0 || n > types.len() {
            Seq::empty()
        } else {
            any_values(typ, n - 1) + values(types[n - 1])
        },
        _ => Seq::empty(),
    }
}

/// The values that complete an argument of the type `typ`: the allowed
/// strings, the macro for files or for directories, or the values of each
/// of several types. Of the other types no value is known.
pub open spec fn values(typ: ArgTypeView) -> Seq<Seq<char>>
    decreases typ, 1nat, 0int,
{
    match typ {
        ArgTypeView::Strings(strs) => Seq::new(strs.len(), |i: int| described_value(strs[i])),
        ArgTypeView::Path => seq!["$files"@],
        ArgTypeView::Dir => seq!["$directories"@],
        ArgTypeView::Any(types) => any_values(typ, types.len() as int),
        _ => Seq::empty(),
    }
}

/// The form that names a pair of forms: the long one, if there is one.
pub open spec fn main_form(pair: (Option<Seq<char>>, Option<Seq<char>>)) -> Seq<char> {
    match pair {
        (_, Some(long)) => long,
        (Some(short), None) => short,
        (None, None) => Seq::empty(),
    }
}

/// Both forms of a pair, with a comma between them, or the one there is.
pub open spec fn combined(pair: (Option<Seq<char>>, Option<Seq<char>>)) -> Seq<char> {
    match pair {
        (Some(short), Some(long)) => short + ","@ + long,
        (Some(short), None) => short,
        (None, Some(long)) => long,
        (None, None) => Seq::empty(),
    }
}

/// The tables of flags and of their values.
pub type Tables = (Seq<(Seq<char>, Seq<char>)>, Seq<(Seq<char>, Seq<Seq<char>>)>);

/// The tables with the first `n` pairs of forms of `flag`. A flag with a
/// type has `=` after its forms, and its values stand under its main form
/// without the hyphens.
pub open spec fn with_pairs(tables: Tables, flag: FlagView, n: int) -> Tables
    decreases n,
{
    if n <= 0 || n > paired(flag.forms).len() {
        tables
    } else {
        let (flags, completions) = with_pairs(tables, flag, n - 1);
        let pair = paired(flag.forms)[n - 1];
        let desc = match flag.desc {
            Some(d) => d,
            None => Seq::empty(),
        };
        match flag.typ {
            Some(typ) => (
                put(flags, combined(pair) + "="@, desc),
                put(completions, undashed(main_form(pair)), values(typ)),
            ),
            None => (put(flags, combined(pair), desc), completions),
        }
    }
}

/// The tables of the first `n` of `flags`.
pub open spec fn with_flags(flags: Seq<FlagView>, n: int) -> Tables
    decreases n,
{
    if n <= 0 || n > flags.len() {
        (Seq::empty(), Seq::empty())
    } else {
        with_pairs(with_flags(flags, n - 1), flags[n - 1], paired(flags[n - 1].forms).len() as int)
    }
}

/// The values of the first `n` positional arguments.
pub open spec fn positional(args: Seq<ArgTypeView>, n: int) -> Seq<Seq<Seq<char>>>
    decreases n,
{
    if n <= 0 || n > args.len() {
        Seq::empty()
    } else {
        positional(args, n - 1).push(values(args[n - 1]))
    }
}

/// The first `n` subcommands of `cmd` as Carapace describes them.
pub open spec fn sub_commands(cmd: CommandInfoView, n: int) -> Seq<CarapaceCmdView>
    decreases cmd, 0nat, n,
{
    if n <= 0 || n > cmd.subcommands.len() {
        Seq::empty()
    } else {
        sub_commands(cmd, n - 1).push(described(cmd.subcommands[n - 1]))
    }
}

/// The command `cmd` as Carapace describes it.
pub open spec fn described(cmd: CommandInfoView) -> CarapaceCmdView
    decreases cmd, 1nat, 0int,
{
    let tables = with_flags(cmd.flags, cmd.flags.len() as int);
    CarapaceCmdView {
        name: cmd.name,
        description: cmd.desc,
        flags: tables.0,
        completion: CompletionView {
            positional: positional(cmd.args, cmd.args.len() as int),
            flag: tables.1,
        },
        commands: sub_commands(cmd, cmd.subcommands.len() as int),
    }
}

fn name_le_str(a: &str, b: &str) -> (r: bool)
    ensures
        r == name_le(a@, b@),
{
    crate::parse_man::name_le_chars(&chars_of(a), &chars_of(b))
}

fn put_string(m: &mut Vec<(String, String)>, key: String, value: String)
    ensures
        strings_table_view(final(m)@) == put(strings_table_view(old(m)@), key@, value@),
{
    let ghost all = strings_table_view(m@);
    let mut i: usize = m.len();
    assert(all.take(i as int) =~= all);
    assert(put(all, key@, value@) + all.skip(i as int) =~= put(all, key@, value@));
    loop
        invariant_except_break
            i <= m.len(),
            all == strings_table_view(m@),
            put(all, key@, value@) == put(all.take(i as int), key@, value@) + all.skip(i as int),
        ensures
            i <= m.len(),
            all == strings_table_view(m@),
            put(all, key@, value@) == (if i > 0 && all[i - 1].0 == key@ {
                all.take(i - 1).push((key@, value@)) + all.skip(i as int)
            } else {
                all.take(i as int).push((key@, value@)) + all.skip(i as int)
            }),
        decreases i,
    {
        if i == 0 {
            assert(all.take(0) =~= Seq::empty());
            break ;
        }
        assert(all.take(i as int).last() == all[i - 1]);
        assert(all.take(i as int).drop_last() =~= all.take(i - 1));
        if m[i - 1].0 == key {
            break ;
        }
        if name_le_str(m[i - 1].0.as_str(), key.as_str()) {
            break ;
        }
        assert(put(all.take(i - 1), key@, value@).push(all[i - 1]) + all.skip(i as int) =~= put(
            all.take(i - 1),
            key@,
            value@,
        ) + all.skip(i - 1));
        i -= 1;
    }
    if i > 0 && m[i - 1].0 == key {
        let ghost k = key@;
        let ghost v = value@;
        m.remove(i - 1);
        m.insert(i - 1, (key, value));
        assert(strings_table_view(m@) =~= all.take(i - 1).push((k, v)) + all.skip(i as int));
    } else {
        let ghost k = key@;
        let ghost v = value@;
        m.insert(i, (key, value));
        assert(strings_table_view(m@) =~= all.take(i as int).push((k, v)) + all.skip(i as int));
    }
}

fn put_list(m: &mut Vec<(String, Vec<String>)>, key: String, value: Vec<String>)
    ensures
        lists_table_view(final(m)@) == put(lists_table_view(old(m)@), key@, strs_view(value@)),
{
    let ghost all = lists_table_view(m@);
    let ghost k = key@;
    let ghost v = strs_view(value@);
    let mut i: usize = m.len();
    assert(all.take(i as int) =~= all);
    assert(put(all, k, v) + all.skip(i as int) =~= put(all, k, v));
    loop
        invariant_except_break
            i <= m.len(),
            all == lists_table_view(m@),
            k == key@,
            put(all, k, v) == put(all.take(i as int), k, v) + all.skip(i as int),
        ensures
            i <= m.len(),
            all == lists_table_view(m@),
            k == key@,
            put(all, k, v) == (if i > 0 && all[i - 1].0 == k {
                all.take(i - 1).push((k, v)) + all.skip(i as int)
            } else {
                all.take(i as int).push((k, v)) + all.skip(i as int)
            }),
        decreases i,
    {
        if i == 0 {
            assert(all.take(0) =~= Seq::empty());
            break ;
        }
        assert(all.take(i as int).last() == all[i - 1]);
        assert(all.take(i as int).drop_last() =~= all.take(i - 1));
        if m[i - 1].0 == key {
            break ;
        }
        if name_le_str(m[i - 1].0.as_str(), key.as_str()) {
            break ;
        }
        assert(put(all.take(i - 1), k, v).push(all[i - 1]) + all.skip(i as int) =~= put(
            all.take(i - 1),
            k,
            v,
        ) + all.skip(i - 1));
        i -= 1;
    }
    if i > 0 && m[i - 1].0 == key {
        m.remove(i - 1);
        m.insert(i - 1, (key, value));
        assert(lists_table_view(m@) =~= all.take(i - 1).push((k, v)) + all.skip(i as int));
    } else {
        m.insert(i, (key, value));
        assert(lists_table_view(m@) =~= all.take(i as int).push((k, v)) + all.skip(i as int));
    }
}

/// Turn a type into something Carapace understands
fn carapace_type(typ: &ArgType) -> (r: Vec<String>)
    ensures
        strs_view(r@) == values(typ@),
    decreases typ,
{
    match typ {
        ArgType::Strings(strs) => {
            let ghost all = crate::choices_view(strs@);
            let mut r: Vec<String> = Vec::new();
            let mut i: usize = 0;
            while i < strs.len()
                invariant
                    i <= strs.len(),
                    all == crate::choices_view(strs@),
                    r@.len() == i,
                    forall|k: int| 0 <= k < i ==> r@[k]@ == described_value(all[k]),
                decreases strs.len() - i,
            {
                let value = match &strs[i].1 {
                    Some(desc) => cat(cat(strs[i].0.as_str(), "\t").as_str(), desc.as_str()),
                    None => strs[i].0.clone(),
                };
                r.push(value);
                i += 1;
            }
            assert(strs_view(r@) =~= values(typ@));
            r
        },
        ArgType::Path => {
            let r = vec![String::from_str("$files")];
            assert(strs_view(r@) =~= seq!["$files"@]);
            r
        },
        ArgType::Dir => {
            let r = vec![String::from_str("$directories")];
            assert(strs_view(r@) =~= seq!["$directories"@]);
            r
        },
        ArgType::Any(types) => {
            proof {
                lemma_any_view(*types);
            }
            let mut r: Vec<String> = Vec::new();
            let mut i: usize = 0;
            assert(strs_view(r@) =~= any_values(typ@, 0));
            while i < types.len()
                invariant
                    i <= types.len(),
                    *typ == ArgType::Any(*types),
                    typ@ == ArgTypeView::Any(crate::types_view(types@)),
                    strs_view(r@) == any_values(typ@, i as int),
                decreases types.len() - i,
            {
                let ghost before = strs_view(r@);
                let mut more = carapace_type(&types[i]);
                let ghost added = strs_view(more@);
                r.append(&mut more);
                assert(strs_view(r@) =~= before + added);
                i += 1;
            }
            r
        },
        _ => {
            let r: Vec<String> = Vec::new();
            assert(strs_view(r@) =~= Seq::<Seq<char>>::empty());
            r
        },
    }
}

/// Puts the forms of one flag, and its values if it has a type, into the
/// tables.
fn put_flag(
    flag: &Flag,
    flags: &mut Vec<(String, String)>,
    flag_completions: &mut Vec<(String, Vec<String>)>,
)
    ensures
        (strings_table_view(final(flags)@), lists_table_view(final(flag_completions)@))
            == with_pairs(
            (strings_table_view(old(flags)@), lists_table_view(old(flag_completions)@)),
            flag@,
            paired(flag@.forms).len() as int,
        ),
{
    let ghost start = (strings_table_view(flags@), lists_table_view(flag_completions@));
    let desc = match &flag.desc {
        Some(d) => d.clone(),
        None => String::new(),
    };
    let typ = match &flag.typ {
        Some(t) => Some(carapace_type(t)),
        None => None,
    };
    let pairs = pair_forms(&flag.forms);
    let mut i: usize = 0;
    while i < pairs.len()
        invariant
            i <= pairs.len(),
            crate::gen::util::pairs_view(pairs@) == paired(flag@.forms),
            desc@ == (match flag@.desc {
                Some(d) => d,
                None => Seq::empty(),
            }),
            match typ {
                Some(t) => flag@.typ is Some && strs_view(t@) == values(flag@.typ->0),
                None => flag@.typ is None,
            },
            (strings_table_view(flags@), lists_table_view(flag_completions@)) == with_pairs(
                start,
                flag@,
                i as int,
            ),
        decreases pairs.len() - i,
    {
        assert(crate::gen::util::pairs_view(pairs@)[i as int] == paired(flag@.forms)[i as int]);
        let (main_form, combined): (String, String) = match pairs[i] {
            (Some(short), Some(long)) => (
                long.clone(),
                cat(cat(short.as_str(), ",").as_str(), long.as_str()),
            ),
            (Some(short), None) => (short.clone(), short.clone()),
            (None, Some(long)) => (long.clone(), long.clone()),
            (None, None) => (String::new(), String::new()),
        };
        match &typ {
            Some(t) => {
                // If there's an argument, the flag name needs a `=` after it
                put_string(flags, cat(combined.as_str(), "="), desc.clone());
                put_list(flag_completions, trim_dashes(main_form.as_str()), crate::copy_strs(t));
            },
            None => {
                put_string(flags, combined, desc.clone());
            },
        }
        i += 1;
    }
}

/// Turn a [`CommandInfo`] into a command as Carapace describes it
pub fn to_carapace(cmd: &CommandInfo) -> (r: CarapaceCmd)
    ensures
        r@ == described(cmd@),
        keys_ordered(r@.flags),
        keys_ordered(r@.completion.flag),
    decreases cmd,
{
    proof {
        lemma_command_view(*cmd);
        lemma_tables_ordered(cmd@);
    }
    let mut flags: Vec<(String, String)> = Vec::new();
    let mut flag_completions: Vec<(String, Vec<String>)> = Vec::new();
    let mut i: usize = 0;
    assert(strings_table_view(flags@) =~= with_flags(cmd@.flags, 0).0);
    assert(lists_table_view(flag_completions@) =~= with_flags(cmd@.flags, 0).1);
    while i < cmd.flags.len()
        invariant
            i <= cmd.flags.len(),
            cmd@.flags == crate::flags_view(cmd.flags@),
            (strings_table_view(flags@), lists_table_view(flag_completions@)) == with_flags(
                cmd@.flags,
                i as int,
            ),
        decreases cmd.flags.len() - i,
    {
        put_flag(&cmd.flags[i], &mut flags, &mut flag_completions);
        i += 1;
    }

    let mut args: Vec<Vec<String>> = Vec::new();
    let mut i: usize = 0;
    assert(lists_view(args@) =~= positional(cmd@.args, 0));
    while i < cmd.args.len()
        invariant
            i <= cmd.args.len(),
            cmd@.args == crate::types_view(cmd.args@),
            lists_view(args@) == positional(cmd@.args, i as int),
        decreases cmd.args.len() - i,
    {
        let ghost before = lists_view(args@);
        let values = carapace_type(&cmd.args[i]);
        args.push(values);
        assert(lists_view(args@) =~= before.push(strs_view(values@)));
        i += 1;
    }

    let mut commands: Vec<CarapaceCmd> = Vec::new();
    let mut k: usize = 0;
    assert(carapace_cmds_view(commands@) =~= sub_commands(cmd@, 0));
    while k < cmd.subcommands.len()
        invariant
            k <= cmd.subcommands.len(),
            cmd@.subcommands == crate::commands_view(cmd.subcommands@),
            carapace_cmds_view(commands@) == sub_commands(cmd@, k as int),
        decreases cmd.subcommands.len() - k,
    {
        let ghost before = carapace_cmds_view(commands@);
        let sub = to_carapace(&cmd.subcommands[k]);
        commands.push(sub);
        assert(carapace_cmds_view(commands@) =~= before.push(sub@));
        k += 1;
    }

    let description = match &cmd.desc {
        Some(d) => Some(d.clone()),
        None => None,
    };
    let r = CarapaceCmd {
        name: cmd.name.clone(),
        description,
        flags,
        completion: Completion { positional: args, flag: flag_completions },
        commands,
    };
    proof {
        lemma_carapace_view(r);
    }
    r
}

/// The first `n` of `values`, each as a document.
pub open spec fn text_docs(values: Seq<Seq<char>>, n: int) -> Seq<DocView>
    decreases n,
{
    if n <= 0 || n > values.len() {
        Seq::empty()
    } else {
        text_docs(values, n - 1).push(DocView::Text(values[n - 1]))
    }
}

/// A list of strings as a document.
pub open spec fn list_doc(values: Seq<Seq<char>>) -> DocView {
    DocView::List(text_docs(values, values.len() as int))
}

/// The first `n` of `lists`, each as a document.
pub open spec fn list_docs(lists: Seq<Seq<Seq<char>>>, n: int) -> Seq<DocView>
    decreases n,
{
    if n <= 0 || n > lists.len() {
        Seq::empty()
    } else {
        list_docs(lists, n - 1).push(list_doc(lists[n - 1]))
    }
}

/// The first `n` entries of a table of strings, as the entries of a document.
pub open spec fn string_entries(table: Seq<(Seq<char>, Seq<char>)>, n: int) -> Seq<(Seq<char>, DocView)>
    decreases n,
{
    if n <= 0 || n > table.len() {
        Seq::empty()
    } else {
        string_entries(table, n - 1).push((table[n - 1].0, DocView::Text(table[n - 1].1)))
    }
}

/// The first `n` entries of a table of lists, as the entries of a document.
pub open spec fn list_entries(table: Seq<(Seq<char>, Seq<Seq<char>>)>, n: int) -> Seq<
    (Seq<char>, DocView),
>
    decreases n,
{
    if n <= 0 || n > table.len() {
        Seq::empty()
    } else {
        list_entries(table, n - 1).push((table[n - 1].0, list_doc(table[n - 1].1)))
    }
}

/// The entry `completion` of a command, if it has something to complete:
/// the positional arguments and the flags that have values.
pub open spec fn completion_entries(c: CompletionView) -> Seq<(Seq<char>, DocView)> {
    if c.positional.len() == 0 && c.flag.len() == 0 {
        Seq::empty()
    } else {
        seq![
            (
                "completion"@,
                DocView::Table(
                    (if c.positional.len() == 0 {
                        Seq::empty()
                    } else {
                        seq![
                            (
                                "positional"@,
                                DocView::List(list_docs(c.positional, c.positional.len() as int)),
                            ),
                        ]
                    }) + (if c.flag.len() == 0 {
                        Seq::empty()
                    } else {
                        seq![("flag"@, DocView::Table(list_entries(c.flag, c.flag.len() as int)))]
                    }),
                ),
            ),
        ]
    }
}

/// The documents of the first `n` subcommands of `cmd`.
pub open spec fn sub_docs(cmd: CarapaceCmdView, n: int) -> Seq<DocView>
    decreases cmd, 0nat, n,
{
    if n <= 0 || n > cmd.commands.len() {
        Seq::empty()
    } else {
        sub_docs(cmd, n - 1).push(doc_of(cmd.commands[n - 1]))
    }
}

/// The document of a command: its name, and each of its description, flags,
/// completion and subcommands that is not empty.
pub open spec fn doc_of(cmd: CarapaceCmdView) -> DocView
    decreases cmd, 1nat, 0int,
{
    DocView::Table(
        seq![("name"@, DocView::Text(cmd.name))] + (match cmd.description {
            Some(d) => seq![("description"@, DocView::Text(d))],
            None => Seq::empty(),
        }) + (if cmd.flags.len() == 0 {
            Seq::empty()
        } else {
            seq![("flags"@, DocView::Table(string_entries(cmd.flags, cmd.flags.len() as int)))]
        }) + completion_entries(cmd.completion) + (if cmd.commands.len() == 0 {
            Seq::empty()
        } else {
            seq![("commands"@, DocView::List(sub_docs(cmd, cmd.commands.len() as int)))]
        }),
    )
}

/// The text of a command file whose document is written as `yaml`: the header on
/// a line of its own, and the document.
pub open spec fn headed(yaml: Seq<char>) -> Seq<char> {
    HEADER@ + "\n"@ + yaml
}

/// The text of the command file of `cmd`: the header, and the document of
/// the command as YAML.
pub open spec fn file_text(cmd: CommandInfoView) -> Option<Seq<char>> {
    match yaml_text(doc_of(described(cmd))) {
        Some(yaml) => Some(headed(yaml)),
        None => None,
    }
}

impl Completion {
    fn is_empty(&self) -> (r: bool)
        ensures
            r == (self@.positional.len() == 0 && self@.flag.len() == 0),
    {
        self.positional.len() == 0 && self.flag.len() == 0
    }
}

fn list_to_doc(values: &Vec<String>) -> (r: Doc)
    ensures
        r@ == list_doc(strs_view(values@)),
{
    let ghost all = strs_view(values@);
    let mut items: Vec<Doc> = Vec::new();
    let mut i: usize = 0;
    assert(docs_view(items@) =~= text_docs(all, 0));
    while i < values.len()
        invariant
            i <= values.len(),
            all == strs_view(values@),
            docs_view(items@) == text_docs(all, i as int),
        decreases values.len() - i,
    {
        let ghost before = docs_view(items@);
        let item = Doc::Text(values[i].clone());
        items.push(item);
        assert(docs_view(items@) =~= before.push(item@));
        i += 1;
    }
    proof {
        lemma_list_view(items);
    }
    Doc::List(items)
}

fn entry(key: &str, doc: Doc) -> (r: (String, Doc))
    ensures
        r.0@ == key@,
        r.1 == doc,
{
    (String::from_str(key), doc)
}

fn completion_to_entries(c: &Completion, entries: &mut Vec<(String, Doc)>)
    ensures
        table_view(final(entries)@) == table_view(old(entries)@) + completion_entries(c@),
{
    let ghost base = table_view(entries@);
    if c.is_empty() {
        assert(base + Seq::<(Seq<char>, DocView)>::empty() =~= base);
        return ;
    }
    let mut inner: Vec<(String, Doc)> = Vec::new();
    if c.positional.len() != 0 {
        let ghost all = lists_view(c.positional@);
        let mut lists: Vec<Doc> = Vec::new();
        let mut i: usize = 0;
        assert(docs_view(lists@) =~= list_docs(all, 0));
        while i < c.positional.len()
            invariant
                i <= c.positional.len(),
                all == lists_view(c.positional@),
                docs_view(lists@) == list_docs(all, i as int),
            decreases c.positional.len() - i,
        {
            let ghost before = docs_view(lists@);
            let item = list_to_doc(&c.positional[i]);
            lists.push(item);
            assert(docs_view(lists@) =~= before.push(item@));
            i += 1;
        }
        proof {
            lemma_list_view(lists);
        }
        inner.push(entry("positional", Doc::List(lists)));
    }
    let ghost first = table_view(inner@);
    assert(first =~= (if c@.positional.len() == 0 {
        Seq::empty()
    } else {
        seq![("positional"@, DocView::List(list_docs(c@.positional, c@.positional.len() as int)))]
    }));
    if c.flag.len() != 0 {
        let ghost all = lists_table_view(c.flag@);
        let mut flags: Vec<(String, Doc)> = Vec::new();
        let mut i: usize = 0;
        assert(table_view(flags@) =~= list_entries(all, 0));
        while i < c.flag.len()
            invariant
                i <= c.flag.len(),
                all == lists_table_view(c.flag@),
                table_view(flags@) == list_entries(all, i as int),
            decreases c.flag.len() - i,
        {
            let ghost before = table_view(flags@);
            let item = (c.flag[i].0.clone(), list_to_doc(&c.flag[i].1));
            flags.push(item);
            assert(table_view(flags@) =~= before.push((item.0@, item.1@)));
            i += 1;
        }
        proof {
            lemma_table_view(flags);
        }
        let item = entry("flag", Doc::Table(flags));
        inner.push(item);
        assert(table_view(inner@) =~= first + seq![(item.0@, item.1@)]);
    } else {
        assert(table_view(inner@) =~= first + Seq::empty());
    }
    proof {
        lemma_table_view(inner);
    }
    let item = entry("completion", Doc::Table(inner));
    entries.push(item);
    assert(table_view(entries@) =~= base + seq![(item.0@, item.1@)]);
}

/// The document of a command
pub fn to_doc(cmd: &CarapaceCmd) -> (r: Doc)
    ensures
        r@ == doc_of(cmd@),
    decreases cmd,
{
    proof {
        lemma_carapace_view(*cmd);
    }
    let mut entries: Vec<(String, Doc)> = Vec::new();
    entries.push(entry("name", Doc::Text(cmd.name.clone())));
    let ghost e1 = table_view(entries@);
    assert(e1 =~= seq![("name"@, DocView::Text(cmd@.name))]);
    match &cmd.description {
        Some(d) => {
            let item = entry("description", Doc::Text(d.clone()));
            entries.push(item);
            assert(table_view(entries@) =~= e1 + seq![(item.0@, item.1@)]);
        },
        None => {
            assert(table_view(entries@) =~= e1 + Seq::empty());
        },
    }
    let ghost e2 = table_view(entries@);
    if cmd.flags.len() != 0 {
        let ghost all = strings_table_view(cmd.flags@);
        let mut flags: Vec<(String, Doc)> = Vec::new();
        let mut i: usize = 0;
        assert(table_view(flags@) =~= string_entries(all, 0));
        while i < cmd.flags.len()
            invariant
                i <= cmd.flags.len(),
                all == strings_table_view(cmd.flags@),
                table_view(flags@) == string_entries(all, i as int),
            decreases cmd.flags.len() - i,
        {
            let ghost before = table_view(flags@);
            let item = (cmd.flags[i].0.clone(), Doc::Text(cmd.flags[i].1.clone()));
            flags.push(item);
            assert(table_view(flags@) =~= before.push((item.0@, item.1@)));
            i += 1;
        }
        proof {
            lemma_table_view(flags);
        }
        let item = entry("flags", Doc::Table(flags));
        entries.push(item);
        assert(table_view(entries@) =~= e2 + seq![(item.0@, item.1@)]);
    } else {
        assert(table_view(entries@) =~= e2 + Seq::empty());
    }
    completion_to_entries(&cmd.completion, &mut entries);
    let ghost e4 = table_view(entries@);
    if cmd.commands.len() != 0 {
        let mut docs: Vec<Doc> = Vec::new();
        let mut k: usize = 0;
        assert(docs_view(docs@) =~= sub_docs(cmd@, 0));
        while k < cmd.commands.len()
            invariant
                k <= cmd.commands.len(),
                cmd@.commands == carapace_cmds_view(cmd.commands@),
                docs_view(docs@) == sub_docs(cmd@, k as int),
            decreases cmd.commands.len() - k,
        {
            let ghost before = docs_view(docs@);
            let doc = to_doc(&cmd.commands[k]);
            docs.push(doc);
            assert(docs_view(docs@) =~= before.push(doc@));
            k += 1;
        }
        proof {
            lemma_list_view(docs);
        }
        let item = entry("commands", Doc::List(docs));
        entries.push(item);
        assert(table_view(entries@) =~= e4 + seq![(item.0@, item.1@)]);
    } else {
        assert(table_view(entries@) =~= e4 + Seq::empty());
    }
    proof {
        lemma_table_view(entries);
    }
    Doc::Table(entries)
}

/// The text of a command file, given its document as YAML
pub fn with_header(yaml: &str) -> (r: String)
    ensures
        r@ == headed(yaml@),
{
    cat(cat(HEADER, "\n").as_str(), yaml)
}

/// Generate a command file for Carapace from a [`CommandInfo`]
///
/// Returns nothing where the document cannot be written as YAML.
pub fn generate(cmd: &CommandInfo) -> (r: Option<String>)
    ensures
        crate::opt_view(r) == file_text(cmd@),
{
    match to_yaml(&to_doc(&to_carapace(cmd))) {
        Some(yaml) => Some(with_header(yaml.as_str())),
        None => None,
    }
}

/// Whether the keys of `table` stand in the order of the dictionary, and
/// no key stands twice.
pub open spec fn keys_ordered<V>(table: Seq<(Seq<char>, V)>) -> bool {
    forall|i: int, j: int|
        0 <= i < j < table.len() ==> name_le(table[i].0, table[j].0) && table[i].0 != table[j].0
}

/// A name is not after itself.
pub proof fn lemma_name_le_same(a: Seq<char>)
    ensures
        name_le(a, a),
    decreases a.len(),
{
    if a.len() > 0 {
        lemma_name_le_same(a.skip(1));
    }
}

/// Two names of which neither is after the other are one name.
pub proof fn lemma_name_le_both(a: Seq<char>, b: Seq<char>)
    requires
        name_le(a, b),
        name_le(b, a),
    ensures
        a == b,
    decreases a.len(),
{
    if a.len() > 0 {
        lemma_name_le_both(a.skip(1), b.skip(1));
        assert(a =~= seq![a[0]] + a.skip(1));
        assert(b =~= seq![b[0]] + b.skip(1));
    } else {
        assert(a =~= b);
    }
}

/// A name that is not after a second, which is not after a third, is not
/// after the third.
pub proof fn lemma_name_le_chain(a: Seq<char>, b: Seq<char>, c: Seq<char>)
    requires
        name_le(a, b),
        name_le(b, c),
    ensures
        name_le(a, c),
    decreases a.len(),
{
    if a.len() > 0 && a[0] == b[0] && b[0] == c[0] {
        lemma_name_le_chain(a.skip(1), b.skip(1), c.skip(1));
    }
}

/// Each key of a table with one more entry is the key of that entry or a
/// key of the table.
proof fn lemma_put_keys<V>(m: Seq<(Seq<char>, V)>, k: Seq<char>, v: V)
    ensures
        forall|i: int|
            0 <= i < put(m, k, v).len() ==> (#[trigger] put(m, k, v)[i]).0 == k || exists|j: int|
                0 <= j < m.len() && put(m, k, v)[i].0 == m[j].0,
    decreases m.len(),
{
    let r = put(m, k, v);
    if m.len() == 0 {
    } else if m.last().0 == k {
        assert forall|i: int| 0 <= i < r.len() implies (#[trigger] r[i]).0 == k || exists|j: int|
            0 <= j < m.len() && r[i].0 == m[j].0 by {
            if i < m.len() - 1 {
                assert(r[i] == m[i]);
            }
        }
    } else if name_le(m.last().0, k) {
        assert forall|i: int| 0 <= i < r.len() implies (#[trigger] r[i]).0 == k || exists|j: int|
            0 <= j < m.len() && r[i].0 == m[j].0 by {
            if i < m.len() {
                assert(r[i] == m[i]);
            }
        }
    } else {
        let rest = m.drop_last();
        lemma_put_keys(rest, k, v);
        let inner = put(rest, k, v);
        assert forall|i: int| 0 <= i < r.len() implies (#[trigger] r[i]).0 == k || exists|j: int|
            0 <= j < m.len() && r[i].0 == m[j].0 by {
            if i < inner.len() {
                assert(r[i] == inner[i]);
                if inner[i].0 != k {
                    let j = choose|j: int| 0 <= j < rest.len() && inner[i].0 == rest[j].0;
                    assert(rest[j] == m[j]);
                }
            } else {
                assert(r[i] == m[m.len() - 1]);
            }
        }
    }
}

/// A table whose keys are ordered, with no key twice, stays so when an
/// entry is put in.
pub proof fn lemma_put_ordered<V>(m: Seq<(Seq<char>, V)>, k: Seq<char>, v: V)
    requires
        keys_ordered(m),
    ensures
        keys_ordered(put(m, k, v)),
    decreases m.len(),
{
    let r = put(m, k, v);
    if m.len() == 0 {
    } else if m.last().0 == k {
        assert forall|i: int, j: int| 0 <= i < j < r.len() implies name_le(r[i].0, r[j].0)
            && r[i].0 != r[j].0 by {
            assert(r[i] == m[i]);
            if j < m.len() - 1 {
                assert(r[j] == m[j]);
            } else {
                assert(r[j].0 == m[m.len() - 1].0);
            }
        }
    } else if name_le(m.last().0, k) {
        assert forall|i: int, j: int| 0 <= i < j < r.len() implies name_le(r[i].0, r[j].0)
            && r[i].0 != r[j].0 by {
            assert(r[i] == m[i]);
            if j < m.len() {
                assert(r[j] == m[j]);
            } else {
                let last = m[m.len() - 1].0;
                if i < m.len() - 1 {
                    lemma_name_le_chain(m[i].0, last, k);
                    if m[i].0 == k {
                        lemma_name_le_both(last, k);
                    }
                }
            }
        }
    } else {
        let rest = m.drop_last();
        let last = m[m.len() - 1].0;
        assert forall|i: int, j: int| 0 <= i < j < rest.len() implies name_le(rest[i].0, rest[j].0)
            && rest[i].0 != rest[j].0 by {
            assert(rest[i] == m[i] && rest[j] == m[j]);
        }
        lemma_put_ordered(rest, k, v);
        lemma_put_keys(rest, k, v);
        crate::parse_man::lemma_name_le_total(last, k);
        lemma_name_le_same(last);
        let inner = put(rest, k, v);
        assert forall|i: int, j: int| 0 <= i < j < r.len() implies name_le(r[i].0, r[j].0)
            && r[i].0 != r[j].0 by {
            assert(r[i] == inner[i]);
            if j < inner.len() {
                assert(r[j] == inner[j]);
            } else {
                assert(r[j] == m[m.len() - 1]);
                if inner[i].0 != k {
                    let t = choose|t: int| 0 <= t < rest.len() && inner[i].0 == rest[t].0;
                    assert(rest[t] == m[t]);
                }
            }
        }
    }
}

/// The tables stay ordered by their keys when the forms of a flag are put in.
proof fn lemma_pairs_ordered(tables: Tables, flag: FlagView, n: int)
    requires
        keys_ordered(tables.0),
        keys_ordered(tables.1),
    ensures
        keys_ordered(with_pairs(tables, flag, n).0),
        keys_ordered(with_pairs(tables, flag, n).1),
    decreases n,
{
    if 0 < n <= paired(flag.forms).len() {
        lemma_pairs_ordered(tables, flag, n - 1);
        let (flags, completions) = with_pairs(tables, flag, n - 1);
        let pair = paired(flag.forms)[n - 1];
        let desc = match flag.desc {
            Some(d) => d,
            None => Seq::empty(),
        };
        match flag.typ {
            Some(typ) => {
                lemma_put_ordered(flags, combined(pair) + "="@, desc);
                lemma_put_ordered(completions, undashed(main_form(pair)), values(typ));
            },
            None => {
                lemma_put_ordered(flags, combined(pair), desc);
            },
        }
    }
}

proof fn lemma_flags_ordered(flags: Seq<FlagView>, n: int)
    ensures
        keys_ordered(with_flags(flags, n).0),
        keys_ordered(with_flags(flags, n).1),
    decreases n,
{
    if 0 < n <= flags.len() {
        lemma_flags_ordered(flags, n - 1);
        lemma_pairs_ordered(
            with_flags(flags, n - 1),
            flags[n - 1],
            paired(flags[n - 1].forms).len() as int,
        );
    }
}

/// The tables of a command as Carapace describes it are what a map ordered
/// by its keys gives: the flags, and the flags that have values, stand in
/// the order of their keys, and no key stands twice.
pub proof fn lemma_tables_ordered(cmd: CommandInfoView)
    ensures
        keys_ordered(described(cmd).flags),
        keys_ordered(described(cmd).completion.flag),
{
    lemma_flags_ordered(cmd.flags, cmd.flags.len() as int);
}

} // verus!
