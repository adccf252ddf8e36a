use gen_completions::gen::carapace::{generate, to_doc, to_carapace, with_header};
use gen_completions::gen::yaml::Doc;
use gen_completions::{ArgType, CommandInfo, Flag};

/// The generated file without its header, trimmed
fn body(cmd: &CommandInfo) -> String {
    generate(cmd)
        .expect("the document should have been written as YAML")
        .trim()
        .lines()
        .skip(1)
        .collect::<Vec<_>>()
        .join("\n")
}

#[test]
fn test_empty() {
    assert_eq!(
        "name: foo",
        body(&CommandInfo {
            name: "foo".to_owned(),
            desc: None,
            args: vec![],
            flags: vec![],
            subcommands: vec![],
        })
    )
}

#[test]
fn test_multiple_forms() {
    let expected = [
        "name: foo",
        "description: |-",
        "  blah blah",
        "  Newline",
        "flags:",
        "  --why=: This flag does nothing",
        "  -b,--bar=: This flag does nothing",
        "completion:",
        "  positional:",
        "  - - $files",
        "  flag:",
        "    bar:",
        "    - \"baz1\\tDescription for baz1\"",
        "    - \"baz2\\tAnother description\"",
        "    why:",
        "    - \"baz1\\tDescription for baz1\"",
        "    - \"baz2\\tAnother description\"",
    ]
    .join("\n");
    assert_eq!(
        expected,
        body(&CommandInfo {
            name: "foo".to_owned(),
            desc: Some("blah blah\nNewline".to_owned()),
            args: vec![ArgType::Any(vec![ArgType::Path])],
            flags: vec![Flag {
                forms: vec!["-b".to_owned(), "--bar".to_owned(), "--why".to_owned()],
                desc: Some("This flag does nothing".to_owned()),
                typ: Some(ArgType::Strings(vec![
                    ("baz1".to_owned(), Some("Description for baz1".to_owned())),
                    ("baz2".to_owned(), Some("Another description".to_owned()))
                ]))
            }],
            subcommands: vec![],
        })
    )
}

#[test]
fn header_comes_first() {
    let text = generate(&CommandInfo {
        name: "foo".to_owned(),
        desc: None,
        args: vec![],
        flags: vec![],
        subcommands: vec![],
    })
    .unwrap();
    assert_eq!(
        text,
        "# yaml-language-server: $schema=https://carapace.sh/schemas/command.json\nname: foo\n"
    );
}

#[test]
fn flag_without_type_has_no_equals_sign() {
    let described = to_carapace(&CommandInfo {
        name: "foo".to_owned(),
        desc: None,
        args: vec![ArgType::Dir, ArgType::Unknown],
        flags: vec![
            Flag { forms: vec!["-v".to_owned()], desc: None, typ: None },
            Flag { forms: vec!["--all".to_owned(), "-a".to_owned()], desc: Some("All".to_owned()), typ: None },
        ],
        subcommands: vec![],
    });
    assert_eq!(
        described.flags,
        vec![
            ("-a,--all".to_owned(), "All".to_owned()),
            ("-v".to_owned(), "".to_owned()),
        ]
    );
    assert!(described.completion.flag.is_empty());
    assert_eq!(
        described.completion.positional,
        vec![vec!["$directories".to_owned()], Vec::<String>::new()]
    );
}

#[test]
fn later_flag_replaces_earlier_of_same_forms() {
    let described = to_carapace(&CommandInfo {
        name: "foo".to_owned(),
        desc: None,
        args: vec![],
        flags: vec![
            Flag { forms: vec!["-v".to_owned()], desc: Some("first".to_owned()), typ: None },
            Flag { forms: vec!["-v".to_owned()], desc: Some("second".to_owned()), typ: None },
        ],
        subcommands: vec![],
    });
    assert_eq!(described.flags, vec![("-v".to_owned(), "second".to_owned())]);
}

#[test]
fn document_of_a_spec() {
    let described = to_carapace(&CommandInfo {
        name: "foo".to_owned(),
        desc: None,
        args: vec![],
        flags: vec![Flag { forms: vec!["-v".to_owned()], desc: None, typ: Some(ArgType::Dir) }],
        subcommands: vec![CommandInfo {
            name: "bar".to_owned(),
            desc: Some("Bar".to_owned()),
            args: vec![],
            flags: vec![],
            subcommands: vec![],
        }],
    });
    let text = |s: &str| Doc::Text(s.to_owned());
    let table = |entries: Vec<(&str, Doc)>| {
        Doc::Table(entries.into_iter().map(|(k, v)| (k.to_owned(), v)).collect())
    };
    let list = Doc::List;
    assert_eq!(
        to_doc(&described),
        table(vec![
            ("name", text("foo")),
            ("flags", table(vec![("-v=", text(""))])),
            ("completion", table(vec![("flag", table(vec![("v", list(vec![text("$directories")]))]))])),
            ("commands", list(vec![table(vec![("name", text("bar")), ("description", text("Bar"))])])),
        ])
    );
    assert_eq!(
        with_header("name: foo\n"),
        "# yaml-language-server: $schema=https://carapace.sh/schemas/command.json\nname: foo\n"
    );
}

#[test]
fn tables_are_ordered_by_key_without_a_key_twice() {
    let flag = |forms: &[&str], typ: Option<ArgType>| Flag {
        forms: forms.iter().map(|f| f.to_string()).collect(),
        desc: None,
        typ,
    };
    let described = to_carapace(&CommandInfo {
        name: "foo".to_owned(),
        desc: None,
        args: vec![],
        flags: vec![
            flag(&["--zeta", "-z"], Some(ArgType::Dir)),
            flag(&["-b"], None),
            flag(&["--alpha"], Some(ArgType::Path)),
            flag(&["-b"], None),
            flag(&["--mid", "--alpha", "-a"], Some(ArgType::Dir)),
            flag(&["-é", "--é"], None),
        ],
        subcommands: vec![],
    });
    let keys: Vec<&str> = described.flags.iter().map(|e| e.0.as_str()).collect();
    let mut sorted = keys.clone();
    sorted.sort();
    sorted.dedup();
    assert_eq!(keys, sorted);
    assert_eq!(keys, vec!["--alpha=", "-a,--mid=", "-b", "-z,--zeta=", "-é,--é"]);
    let keys: Vec<&str> = described.completion.flag.iter().map(|e| e.0.as_str()).collect();
    assert_eq!(keys, vec!["alpha", "mid", "zeta"]);
    assert_eq!(described.completion.flag[0].1, vec!["$directories"]);
}
