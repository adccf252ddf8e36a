//! The generators, held against the same scripts written line by line, on a
//! family of commands.

use gen_completions::gen::{bash, json, nu, zsh};
use gen_completions::{ArgType, CommandInfo, Flag};

/// A writer that indents line by line
struct Lines {
    text: String,
    indent_str: String,
    indent_level: usize,
    line_ended: bool,
}

impl Lines {
    fn new(indent_str: &str) -> Lines {
        Lines { text: String::new(), indent_str: indent_str.to_string(), indent_level: 0, line_ended: false }
    }

    fn indent(&mut self) {
        self.indent_level += 1;
    }

    fn dedent(&mut self) {
        self.indent_level -= 1;
    }

    fn write_indent(&mut self) {
        for _ in 0..self.indent_level {
            self.text.push_str(&self.indent_str);
        }
    }

    fn write(&mut self, s: impl AsRef<str>) {
        if self.line_ended {
            self.write_indent();
            self.line_ended = false;
        }
        let mut lines = s.as_ref().split('\n');
        if let Some(mut line) = lines.next() {
            loop {
                self.text.push_str(line);
                if let Some(next) = lines.next() {
                    self.text.push('\n');
                    self.write_indent();
                    line = next;
                } else {
                    break;
                }
            }
        }
    }

    fn writeln(&mut self, s: impl AsRef<str>) {
        self.write(s.as_ref());
        self.text.push('\n');
        self.line_ended = true;
    }
}

fn quote_bash(s: &str) -> String {
    format!("'{}'", s.replace('\'', r#"'"'"'"#))
}

fn zsh_fn(cmd: &CommandInfo, out: &mut Lines, fn_name: &str) {
    out.writeln("");
    out.writeln(format!("function {fn_name} {{"));
    out.indent();
    if cmd.subcommands.is_empty() {
        out.write("_arguments");
    } else {
        out.writeln("local line");
        out.write("_arguments -C");
    }
    out.indent();
    for flag in &cmd.flags {
        let desc = if let Some(desc) = &flag.desc {
            desc.replace('[', "\\[").replace(']', "\\]")
        } else {
            String::new()
        };
        for form in &flag.forms {
            let text = quote_bash(&format!("{form}[{desc}]"));
            out.writeln(" \\");
            out.write(text);
        }
    }
    if cmd.subcommands.is_empty() {
        out.dedent();
        out.write("\n");
    } else {
        let sub_cmds =
            cmd.subcommands.iter().map(|c| c.name.to_string()).collect::<Vec<_>>().join(" ");
        out.writeln(" \\");
        out.writeln(format!("': :({sub_cmds})' \\"));
        out.writeln("'*::arg:->args'");
        out.dedent();
        out.writeln("case $line[1] in");
        out.indent();
        for sub_cmd in &cmd.subcommands {
            out.writeln(format!("{}) {fn_name}_{};;", sub_cmd.name, sub_cmd.name));
        }
        out.dedent();
        out.writeln("esac");
    }
    out.dedent();
    out.writeln("}");
    for sub_cmd in &cmd.subcommands {
        zsh_fn(sub_cmd, out, &format!("{fn_name}_{}", sub_cmd.name));
    }
}

fn zsh_script(cmd: &CommandInfo) -> (String, String) {
    let comp_name = format!("_{}", cmd.name);
    let mut res = Lines::new("\t");
    res.writeln(format!("#compdef {}", cmd.name));
    zsh_fn(cmd, &mut res, &comp_name);
    res.writeln("");
    res.writeln(format!(r#"{comp_name} "$@""#));
    (format!("{comp_name}.zsh"), res.text)
}

fn bash_cmd(cmd: &CommandInfo, pos: usize, out: &mut Lines) {
    out.writeln("case $COMP_CWORD in");
    out.indent();
    let flags = cmd.flags.iter().map(|f| f.forms.join(" ")).collect::<Vec<_>>().join(" ");
    let subcmds = cmd.subcommands.iter().map(|c| c.name.to_string()).collect::<Vec<_>>().join(" ");
    let completions = if flags.is_empty() {
        subcmds
    } else if subcmds.is_empty() {
        flags
    } else {
        format!("{flags} {subcmds}")
    };
    out.writeln(format!("{pos}) COMPREPLY=($(compgen -W '{completions}' -- $2)) ;;"));
    if !cmd.subcommands.is_empty() {
        out.writeln("*)");
        out.indent();
        out.writeln(format!("case ${{COMP_WORDS[{pos}]}} in"));
        out.indent();
        for sub_cmd in &cmd.subcommands {
            out.writeln(format!("{})", sub_cmd.name));
            out.indent();
            bash_cmd(sub_cmd, pos + 1, out);
            out.writeln(";;");
            out.dedent();
        }
        out.dedent();
        out.writeln("esac");
        out.writeln(";;");
        out.dedent();
    }
    out.dedent();
    out.writeln("esac");
}

fn bash_script(cmd: &CommandInfo) -> (String, String) {
    let comp_name = format!("_comp_cmd_{}", cmd.name);
    let mut out = Lines::new("\t");
    out.writeln("#!/usr/bin/env bash\n");
    out.writeln(format!("function {comp_name} {{"));
    out.indent();
    out.writeln("COMPREPLY=()");
    bash_cmd(cmd, 1, &mut out);
    out.writeln("return 0");
    out.dedent();
    out.writeln("}");
    out.writeln("");
    out.writeln(format!("complete -F _comp_cmd_{} {}", cmd.name, cmd.name));
    out.writeln("");
    (format!("_{}.bash", cmd.name), out.text)
}

fn nu_type(typ: &ArgType) -> String {
    match typ {
        ArgType::Unknown => nu_type(&ArgType::Path),
        ArgType::Run { cmd, sep: desc_sep } => {
            if let Some(sep) = desc_sep {
                format!(
                    r#"(({}) | each {{ |it| $it | split row -n 2 '{}' | {{value: $in.0, description: $in.1}} }})"#,
                    cmd, sep
                )
            } else {
                format!("(({}) | each {{ |it| {{value: $it}} }})", cmd)
            }
        }
        ArgType::Strings(strs) => {
            format!(
                "[{}]",
                strs.iter()
                    .map(|(s, desc)| {
                        if let Some(desc) = desc {
                            format!("{{value: '{}', description: '{}'}}", s, desc)
                        } else {
                            format!("{{value: '{}'}}", s)
                        }
                    })
                    .collect::<Vec<_>>()
                    .join(", ")
            )
        }
        ArgType::Any(types) => format!(
            "[{}]",
            types.iter().map(|typ| format!("...{}", nu_type(typ))).collect::<Vec<_>>().join(" ")
        ),
        _ => "[]".to_owned(),
    }
}

fn nu_cmd(cmd_name: &str, cmd: &CommandInfo, out: &mut Lines) {
    let mut flags_strs = vec![];
    let mut complicated_flags = Vec::new();
    for flag in &cmd.flags {
        let forms = flag
            .forms
            .iter()
            .filter(|form| form.starts_with("--") || form.chars().count() == 2)
            .map(|form| form.to_owned())
            .collect::<Vec<_>>();
        let (short_forms, long_forms): (Vec<_>, Vec<_>) =
            forms.iter().partition(|f| f.chars().count() == 2);
        let desc_str =
            if let Some(desc) = &flag.desc { format!(" # {desc}") } else { String::new() };
        let type_str = if let Some(typ) = flag.typ.as_ref() {
            match typ {
                ArgType::Unknown => ": string".to_owned(),
                _ if forms.is_empty() => String::new(),
                _ => {
                    let first_form = if forms[0].starts_with("--") {
                        &forms[0][2..]
                    } else if forms[0].starts_with('-') {
                        &forms[0][1..]
                    } else {
                        &forms[0]
                    };
                    let first_form = first_form.replace('-', "_");
                    let res = format!(r#": string@"nu-complete {} {}""#, cmd_name, &first_form);
                    complicated_flags.push((first_form, typ));
                    res
                }
            }
        } else {
            String::new()
        };
        let mut short_forms = short_forms.into_iter();
        let mut long_forms = long_forms.into_iter();
        while short_forms.len() > 0 && long_forms.len() > 0 {
            flags_strs.push(format!(
                "{}({}){}{}",
                long_forms.next().unwrap(),
                short_forms.next().unwrap(),
                type_str,
                desc_str
            ));
        }
        for form in long_forms.into_iter().chain(short_forms) {
            flags_strs.push(format!("{form}{type_str}{desc_str}"));
        }
    }
    for (flag, typ) in complicated_flags {
        out.writeln(format!(r#"def "nu-complete {} {}" [] {{"#, cmd_name, flag));
        out.indent();
        out.writeln(nu_type(typ));
        out.dedent();
        out.writeln("}");
        out.writeln("");
    }
    if let Some(desc) = cmd.desc.as_ref() {
        for line in desc.lines() {
            out.writeln(format!("# {}", line));
        }
    }
    out.writeln(format!("export extern \"{cmd_name}\" ["));
    out.indent();
    out.writeln(flags_strs.join("\n"));
    out.dedent();
    out.writeln("]");
    out.writeln("");
    for sub_cmd in &cmd.subcommands {
        nu_cmd(&format!("{cmd_name} {}", sub_cmd.name), sub_cmd, out);
    }
}

fn nu_script(cmd: &CommandInfo) -> (String, String) {
    let mut res = Lines::new("  ");
    nu_cmd(&cmd.name, cmd, &mut res);
    (format!("{}-completions.nu", cmd.name), res.text)
}

fn json_quote(s: &str) -> String {
    format!("\"{}\"", s.replace('\\', r"\\").replace('"', "\\\""))
}

fn json_cmd(cmd: &CommandInfo, last: bool, out: &mut Lines) {
    let cmd_name = json_quote(&cmd.name);
    let end = if last { "}" } else { "}," };
    let mut flags = cmd.flags.iter();
    if let Some(mut flag) = flags.next() {
        out.writeln(format!("{cmd_name}: {{"));
        out.indent();
        out.writeln("\"flags\": [");
        out.indent();
        loop {
            out.writeln("{");
            out.indent();
            let forms = flag.forms.iter().map(|a| json_quote(a)).collect::<Vec<_>>().join(", ");
            out.write(format!("\"forms\": [{forms}]"));
            if let Some(desc) = &flag.desc {
                out.writeln(",");
                out.writeln(format!("\"description\": {}", json_quote(desc)));
            } else {
                out.writeln("");
            }
            out.dedent();
            if let Some(next) = flags.next() {
                out.writeln("},");
                flag = next;
            } else {
                out.writeln("}");
                break;
            }
        }
        out.dedent();
        out.writeln("],");
        let mut subcmds = cmd.subcommands.iter();
        if let Some(mut sub_cmd) = subcmds.next() {
            out.writeln("\"subcommands\": {");
            out.indent();
            for next in subcmds {
                json_cmd(sub_cmd, false, out);
                sub_cmd = next;
            }
            json_cmd(sub_cmd, true, out);
            out.dedent();
            out.writeln("}");
        } else {
            out.writeln("\"subcommands\": {}");
        }
        out.dedent();
        out.writeln(end);
    } else {
        out.writeln(format!("{cmd_name}: {{{end}"));
    }
}

fn json_script(cmd: &CommandInfo) -> (String, String) {
    let mut res = Lines::new("  ");
    res.writeln("{");
    res.indent();
    json_cmd(cmd, true, &mut res);
    res.dedent();
    res.writeln("}");
    (format!("{}.json", cmd.name), res.text)
}

fn flag(forms: &[&str], desc: Option<&str>, typ: Option<ArgType>) -> Flag {
    Flag { forms: forms.iter().map(|f| f.to_string()).collect(), desc: desc.map(String::from), typ }
}

/// Some flags of many shapes
fn flags() -> Vec<Flag> {
    let strings = ArgType::Strings(vec![
        ("a".to_string(), None),
        ("b c".to_string(), Some("it's [b]".to_string())),
    ]);
    vec![
        flag(&["-h", "--help"], Some("Show help"), None),
        flag(&["--all", "-a", "-b", "--both", "-c"], None, Some(ArgType::Unknown)),
        flag(&["-x"], Some("it's [x]\nand \"y\" \\"), Some(strings)),
        flag(&["--long-one", "--long-two"], Some(""), Some(ArgType::Run { cmd: "ls".to_string(), sep: None })),
        flag(&["word", "-abc", "é-"], Some("odd"), Some(ArgType::Path)),
        flag(&[], Some("none"), None),
        flag(
            &["---dashes", "-é"],
            None,
            Some(ArgType::Any(vec![
                ArgType::Dir,
                ArgType::CommandName,
                ArgType::Run { cmd: "a b".to_string(), sep: Some("\t".to_string()) },
                ArgType::Any(vec![ArgType::Strings(vec![])]),
            ])),
        ),
    ]
}

/// Commands with every choice of one, two or three of the flags, with and
/// without subcommands
fn commands() -> Vec<CommandInfo> {
    let cmd = |name: &str, desc: Option<&str>, picked: &[usize], subcommands: Vec<CommandInfo>| {
        let all = flags();
        CommandInfo {
            name: name.to_string(),
            desc: desc.map(String::from),
            flags: picked.iter().map(|&i| all[i].clone()).collect(),
            args: vec![ArgType::Path],
            subcommands,
        }
    };
    let n = flags().len();
    let mut res = vec![cmd("empty", None, &[], vec![])];
    for i in 0..n {
        res.push(cmd("one", Some("One\r\ntwo\n\nfour\n"), &[i], vec![]));
        for j in 0..n {
            let leaf = cmd("le'af", None, &[j], vec![]);
            let inner = cmd("in ner", Some("Inner"), &[i], vec![leaf, cmd("bare", None, &[], vec![])]);
            res.push(cmd("two", Some(""), &[i, j], vec![]));
            res.push(cmd("tree", None, &[j, i, j], vec![inner, cmd("x\"y\\z", Some("\n"), &[i], vec![])]));
        }
    }
    res
}

#[test]
fn zsh_scripts_agree() {
    for cmd in commands() {
        assert_eq!(zsh::generate(&cmd), zsh_script(&cmd), "for {cmd:?}");
    }
}

#[test]
fn bash_scripts_agree() {
    for cmd in commands() {
        assert_eq!(bash::generate(&cmd), bash_script(&cmd), "for {cmd:?}");
    }
}

#[test]
fn nu_scripts_agree() {
    for cmd in commands() {
        assert_eq!(nu::generate(&cmd), nu_script(&cmd), "for {cmd:?}");
    }
}

#[test]
fn json_listings_agree() {
    for cmd in commands() {
        assert_eq!(json::generate(&cmd), json_script(&cmd), "for {cmd:?}");
    }
}
