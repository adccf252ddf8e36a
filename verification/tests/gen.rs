use gen_completions::gen::util::{pair_forms, quote_bash, trim_dashes, Output};
use gen_completions::gen::{bash, generate, generate_to_str, json, nu, preprocess, zsh, OutputFormat};
use gen_completions::{ArgType, CommandInfo, Flag};

fn flag(forms: &[&str], desc: Option<&str>, typ: Option<ArgType>) -> Flag {
    Flag { forms: forms.iter().map(|f| f.to_string()).collect(), desc: desc.map(String::from), typ }
}

fn cmd(name: &str, flags: Vec<Flag>, subcommands: Vec<CommandInfo>) -> CommandInfo {
    CommandInfo { name: name.to_string(), desc: None, flags, args: vec![], subcommands }
}

fn git() -> CommandInfo {
    cmd(
        "git",
        vec![flag(&["-h", "--help"], Some("Show help"), None)],
        vec![
            cmd("commit", vec![flag(&["-m"], Some("Message [text]"), None)], vec![]),
            cmd("log", vec![], vec![]),
        ],
    )
}

#[test]
fn quote_bash_escapes_single_quotes() {
    assert_eq!(quote_bash("plain"), "'plain'");
    assert_eq!(quote_bash("it's"), "'it'\"'\"'s'");
    assert_eq!(quote_bash(""), "''");
}

#[test]
fn trim_dashes_takes_at_most_two() {
    assert_eq!(trim_dashes("--foo"), "foo");
    assert_eq!(trim_dashes("-f"), "f");
    assert_eq!(trim_dashes("---x"), "-x");
    assert_eq!(trim_dashes("foo-bar"), "foo-bar");
    assert_eq!(trim_dashes(""), "");
}

#[test]
fn pair_forms_by_position() {
    let s = |x: &str| x.to_string();
    let forms = vec![s("--all"), s("-a"), s("-b"), s("--both"), s("-c")];
    assert_eq!(
        pair_forms(&forms),
        vec![
            (Some(&s("-a")), Some(&s("--all"))),
            (Some(&s("-b")), Some(&s("--both"))),
            (Some(&s("-c")), None),
        ]
    );
    let forms = vec![s("--one"), s("--two"), s("-o")];
    assert_eq!(
        pair_forms(&forms),
        vec![(Some(&s("-o")), Some(&s("--one"))), (None, Some(&s("--two")))]
    );
    assert_eq!(pair_forms(&vec![]), vec![]);
}

#[test]
fn output_indents_after_newlines() {
    let mut out = Output::new("  ".to_string());
    out.writeln("a {");
    out.indent();
    out.write("b");
    out.writeln(" c\nd");
    out.indent();
    out.indent();
    out.dedent();
    out.writeln("e");
    out.dedent();
    out.dedent();
    out.dedent();
    out.writeln("}");
    assert_eq!(out.text(), "a {\n  b c\n  d\n    e\n}\n");
}

#[test]
fn output_write_of_empty_text_begins_the_line() {
    let mut out = Output::new("\t".to_string());
    out.indent();
    out.writeln("x");
    out.writeln("");
    out.write("\n");
    assert_eq!(out.text(), "x\n\t\n\t\n\t");
}

#[test]
fn zsh_two_levels() {
    let (file_name, text) = zsh::generate(&git());
    assert_eq!(file_name, "_git.zsh");
    let expected = "#compdef git\n\
\n\
function _git {\n\
\tlocal line\n\
\t_arguments -C \\\n\
\t\t'-h[Show help]' \\\n\
\t\t'--help[Show help]' \\\n\
\t\t': :(commit log)' \\\n\
\t\t'*::arg:->args'\n\
\tcase $line[1] in\n\
\t\tcommit) _git_commit;;\n\
\t\tlog) _git_log;;\n\
\tesac\n\
}\n\
\n\
function _git_commit {\n\
\t_arguments \\\n\
\t\t'-m[Message \\[text\\]]'\n\
\t}\n\
\n\
function _git_log {\n\
\t_arguments\n\
\t}\n\
\n\
_git \"$@\"\n";
    assert_eq!(text, expected);
}

#[test]
fn zsh_dispatch_names_exactly_the_subcommands() {
    let (_, text) = zsh::generate(&git());
    let functions: Vec<&str> = text.lines().filter(|l| l.starts_with("function ")).collect();
    assert_eq!(functions, vec!["function _git {", "function _git_commit {", "function _git_log {"]);
    let cases: Vec<&str> = text.lines().filter(|l| l.ends_with(";;")).map(|l| l.trim()).collect();
    assert_eq!(cases, vec!["commit) _git_commit;;", "log) _git_log;;"]);
    assert_eq!(text.matches("case $line[1] in").count(), 1);
    assert_eq!(text.matches("esac").count(), 1);
    let leaves = &text[text.find("function _git_commit").unwrap()..];
    assert!(!leaves.contains("case"));
    assert!(!leaves.contains("local line"));
}

#[test]
fn bash_one_level_of_subcommands() {
    let foo = cmd(
        "foo",
        vec![flag(&["-h", "--help"], None, None), flag(&["-v"], None, None)],
        vec![cmd("bar", vec![flag(&["-x"], None, None)], vec![])],
    );
    let (file_name, text) = bash::generate(&foo);
    assert_eq!(file_name, "_foo.bash");
    let expected = "#!/usr/bin/env bash\n\
\n\
function _comp_cmd_foo {\n\
\tCOMPREPLY=()\n\
\tcase $COMP_CWORD in\n\
\t\t1) COMPREPLY=($(compgen -W '-h --help -v bar' -- $2)) ;;\n\
\t\t*)\n\
\t\t\tcase ${COMP_WORDS[1]} in\n\
\t\t\t\tbar)\n\
\t\t\t\t\tcase $COMP_CWORD in\n\
\t\t\t\t\t\t2) COMPREPLY=($(compgen -W '-x' -- $2)) ;;\n\
\t\t\t\t\tesac\n\
\t\t\t\t\t;;\n\
\t\t\tesac\n\
\t\t\t;;\n\
\tesac\n\
\treturn 0\n\
}\n\
\n\
complete -F _comp_cmd_foo foo\n\
\n";
    assert_eq!(text, expected);
}

#[test]
fn bash_without_flags_or_without_subcommands() {
    let only_subs = cmd("a", vec![], vec![cmd("b", vec![], vec![])]);
    assert!(bash::generate(&only_subs).1.contains("1) COMPREPLY=($(compgen -W 'b' -- $2)) ;;"));
    let only_flags = cmd("a", vec![flag(&["-q"], None, None)], vec![]);
    assert!(bash::generate(&only_flags).1.contains("1) COMPREPLY=($(compgen -W '-q' -- $2)) ;;"));
    let neither = cmd("a", vec![], vec![]);
    assert!(bash::generate(&neither).1.contains("1) COMPREPLY=($(compgen -W '' -- $2)) ;;"));
}

fn nu_sample() -> CommandInfo {
    CommandInfo {
        name: "foo".to_string(),
        desc: Some("Foo tool\nSecond".to_string()),
        flags: vec![
            flag(&["-h", "--help"], Some("Show help"), None),
            flag(
                &["--color"],
                None,
                Some(ArgType::Strings(vec![
                    ("auto".to_string(), None),
                    ("always".to_string(), Some("Always".to_string())),
                ])),
            ),
            flag(&["-x", "-y", "--long-name"], None, Some(ArgType::Unknown)),
            flag(&["bad"], None, Some(ArgType::Path)),
        ],
        args: vec![],
        subcommands: vec![cmd(
            "bar",
            vec![flag(
                &["--baz-qux"],
                None,
                Some(ArgType::Run { cmd: "ls".to_string(), sep: Some(":".to_string()) }),
            )],
            vec![],
        )],
    }
}

#[test]
fn nu_declarations() {
    let (file_name, text) = nu::generate(&nu_sample());
    assert_eq!(file_name, "foo-completions.nu");
    let expected = "def \"nu-complete foo color\" [] {\n\
\x20 [{value: 'auto'}, {value: 'always', description: 'Always'}]\n\
}\n\
\n\
# Foo tool\n\
# Second\n\
export extern \"foo\" [\n\
\x20 --help(-h) # Show help\n\
\x20 --color: string@\"nu-complete foo color\"\n\
\x20 --long-name(-x): string\n\
\x20 -y: string\n\
]\n\
\n\
def \"nu-complete foo bar baz_qux\" [] {\n\
\x20 ((ls) | each { |it| $it | split row -n 2 ':' | {value: $in.0, description: $in.1} })\n\
}\n\
\n\
export extern \"foo bar\" [\n\
\x20 --baz-qux: string@\"nu-complete foo bar baz_qux\"\n\
]\n\
\n";
    assert_eq!(text, expected);
}

#[test]
fn nu_types() {
    let with = |typ: ArgType| {
        let c = cmd("c", vec![flag(&["--f"], None, Some(typ))], vec![]);
        let text = nu::generate(&c).1;
        text.lines().nth(1).unwrap().trim().to_string()
    };
    assert_eq!(with(ArgType::Path), "[]");
    assert_eq!(with(ArgType::Dir), "[]");
    assert_eq!(with(ArgType::CommandName), "[]");
    assert_eq!(
        with(ArgType::Run { cmd: "ls -a".to_string(), sep: None }),
        "((ls -a) | each { |it| {value: $it} })"
    );
    assert_eq!(with(ArgType::Strings(vec![])), "[]");
    assert_eq!(
        with(ArgType::Any(vec![
            ArgType::Strings(vec![("a".to_string(), None)]),
            ArgType::Unknown,
            ArgType::Any(vec![]),
        ])),
        "[...[{value: 'a'}] ...[] ...[]]"
    );
}

/// The spellings in the signature of the `export extern` of a command
fn spellings_in(text: &str, cmd_name: &str) -> Vec<String> {
    let start = text.find(&format!("export extern \"{cmd_name}\" [\n")).unwrap();
    let body = &text[start..];
    let body = &body[body.find('\n').unwrap() + 1..body.find("\n]").unwrap()];
    let mut res = Vec::new();
    for line in body.lines() {
        let entry = line.trim();
        let end = entry.find(|c| c == ':' || c == ' ').unwrap_or(entry.len());
        let forms = &entry[..end];
        match forms.split_once('(') {
            Some((long, short)) => {
                res.push(long.to_string());
                res.push(short.trim_end_matches(')').to_string());
            }
            None if forms.is_empty() => {}
            None => res.push(forms.to_string()),
        }
    }
    res.sort();
    res
}

#[test]
fn nu_signature_holds_the_spellings() {
    let text = nu::generate(&nu_sample()).1;
    assert_eq!(spellings_in(&text, "foo"), vec!["--color", "--help", "--long-name", "-h", "-x", "-y"]);
    assert_eq!(spellings_in(&text, "foo bar"), vec!["--baz-qux"]);
}

#[test]
fn json_listing() {
    let foo = cmd(
        "foo",
        vec![flag(&["-h", "--help"], Some("Show \"help\""), None)],
        vec![cmd("bar", vec![], vec![]), cmd("baz", vec![flag(&["-z"], None, None)], vec![])],
    );
    let (file_name, text) = json::generate(&foo);
    assert_eq!(file_name, "foo.json");
    let expected = "{\n\
\x20 \"foo\": {\n\
\x20   \"flags\": [\n\
\x20     {\n\
\x20       \"forms\": [\"-h\", \"--help\"],\n\
\x20       \"description\": \"Show \\\"help\\\"\"\n\
\x20     }\n\
\x20   ],\n\
\x20   \"subcommands\": {\n\
\x20     \"bar\": {},\n\
\x20     \"baz\": {\n\
\x20       \"flags\": [\n\
\x20         {\n\
\x20           \"forms\": [\"-z\"]\n\
\x20         }\n\
\x20       ],\n\
\x20       \"subcommands\": {}\n\
\x20     }\n\
\x20   }\n\
\x20 }\n\
}\n";
    assert_eq!(text, expected);
}

#[test]
fn json_two_flags_and_backslash() {
    let foo = cmd("a\\b", vec![flag(&["-x"], None, None), flag(&["-y"], Some("Why"), None)], vec![]);
    let text = json::generate(&foo).1;
    assert!(text.starts_with("{\n  \"a\\\\b\": {\n"));
    assert!(text.contains("      {\n        \"forms\": [\"-x\"]\n      },\n      {\n        \"forms\": [\"-y\"],\n"));
}

#[test]
fn preprocess_abbreviates_descriptions() {
    let long = "d".repeat(100);
    let c = CommandInfo {
        name: "foo".to_string(),
        desc: Some(long.clone()),
        flags: vec![flag(&["-a"], Some(&long), Some(ArgType::Any(vec![ArgType::Dir])))],
        args: vec![ArgType::Strings(vec![("x".to_string(), Some(long.clone()))])],
        subcommands: vec![cmd("bar", vec![flag(&["-b"], Some(&long), None), flag(&["-c"], Some("ok"), None)], vec![])],
    };
    let short = format!("{}...", "d".repeat(77));
    let p = preprocess(&c);
    assert_eq!(p.name, "foo");
    assert_eq!(p.desc, Some(long.clone()));
    assert_eq!(p.args, c.args);
    assert_eq!(p.flags, vec![flag(&["-a"], Some(&short), Some(ArgType::Any(vec![ArgType::Dir])))]);
    assert_eq!(
        p.subcommands,
        vec![cmd("bar", vec![flag(&["-b"], Some(&short), None), flag(&["-c"], Some("ok"), None)], vec![])]
    );
    assert_eq!(preprocess(&p), p);
}

#[test]
fn generate_by_format() {
    let c = git();
    assert_eq!(generate(&c, OutputFormat::Zsh), Some(zsh::generate(&c)));
    assert_eq!(generate(&c, OutputFormat::Bash), Some(bash::generate(&c)));
    assert_eq!(generate(&c, OutputFormat::Nu), Some(nu::generate(&c)));
    assert_eq!(generate(&c, OutputFormat::Kdl).unwrap().0, "git.kdl");
    assert_eq!(generate(&c, OutputFormat::Json), None);
    assert_eq!(generate(&c, OutputFormat::Yaml), None);
    assert_eq!(generate_to_str(&c, OutputFormat::Zsh), Some(zsh::generate(&c).1));
    assert_eq!(generate_to_str(&c, OutputFormat::Yaml), None);
}

#[test]
fn generate_abbreviates_first() {
    let long = "e".repeat(90);
    let c = cmd("foo", vec![flag(&["-a"], Some(&long), None)], vec![]);
    let text = generate_to_str(&c, OutputFormat::Zsh).unwrap();
    assert!(text.contains(&format!("'-a[{}...]'", "e".repeat(77))));
}

#[test]
fn zsh_functions_of_a_tree() {
    let mut out = Output::new("\t".to_string());
    zsh::generate_fn(&git(), &mut out, "_git");
    let text = out.text();
    let headers: Vec<&str> = text.lines().filter(|l| l.starts_with("function ")).collect();
    assert_eq!(headers, vec!["function _git {", "function _git_commit {", "function _git_log {"]);
    let block = "\tcase $line[1] in\n\t\tcommit) _git_commit;;\n\t\tlog) _git_log;;\n\tesac\n";
    assert_eq!(text.matches(block).count(), 1);
    assert_eq!(text.matches("case").count(), 1);
    assert_eq!(text.matches("esac").count(), 1);
    assert!(text.contains("\t\t': :(commit log)' \\\n\t\t'*::arg:->args'\n"));
}

#[test]
fn zsh_function_of_a_leaf() {
    let leaf = cmd(
        "commit",
        vec![flag(&["-m", "--message"], Some("The [message]"), None), flag(&["-a"], None, None)],
        vec![],
    );
    let mut out = Output::new("\t".to_string());
    zsh::generate_fn(&leaf, &mut out, "_git_commit");
    let text = out.text();
    assert_eq!(
        text,
        "\nfunction _git_commit {\n\t_arguments \\\n\t\t'-m[The \\[message\\]]' \\\n\t\t'--message[The \\[message\\]]' \\\n\t\t'-a[]'\n\t}\n"
    );
    for word in ["case", "esac", "local line", "': :(", "-C"] {
        assert!(!text.contains(word), "{word:?} in {text:?}");
    }
}
