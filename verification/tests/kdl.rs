use gen_completions::gen::kdl::{generate, to_kdl_node, Node};
use gen_completions::parse_deser::error::{Error, KdlDeserError, ParseError};
use gen_completions::parse_deser::kdl::parse_from_str;
use gen_completions::parse_deser::{input_format, InputFormat};
use gen_completions::{ArgType, CommandInfo, Flag};

#[test]
fn test1() {
    assert_eq!(
        CommandInfo {
            name: "foo".to_string(),
            desc: Some("foo bar baz".to_owned()),
            flags: vec![Flag {
                forms: vec!["--help".to_string(), "-h".to_string()],
                desc: Some("Show help output".to_string()),
                typ: Some(ArgType::Path),
            }],
            args: vec![ArgType::Dir],
            subcommands: vec![]
        },
        parse_from_str(
            r#"
        foo {
          flags {
            "--help" "-h" {
              desc "Show help output"
              type {
                path
              }
            }
          }
          args {
            dir
          }
          desc "foo bar baz"
        }
      "#
        )
        .unwrap()
    );
}

#[test]
fn parse_types() {
    assert_eq!(
        CommandInfo {
            name: "foo".to_string(),
            desc: None,
            flags: vec![Flag {
                forms: vec!["--some-flag".to_owned()],
                desc: None,
                typ: Some(ArgType::Any(vec![
                    ArgType::Path,
                    ArgType::Dir,
                    ArgType::Strings(vec![("foo".to_owned(), None), ("bar".to_owned(), None)]),
                    ArgType::Run { cmd: "ls -al".to_owned(), sep: None },
                    ArgType::Unknown,
                ])),
            }],
            args: vec![],
            subcommands: vec![]
        },
        parse_from_str(
            r#"
        foo {
          flags {
            "--some-flag" {
              type {
                path
                dir
                strings "foo" "bar"
                run "ls -al"
                unknown
              }
            }
          }
        }
      "#
        )
        .unwrap()
    );
}

#[test]
fn subcommands_are_read() {
    let cmd = parse_from_str(
        "git {\n  subcommands {\n    commit {\n      flags {\n        \"-m\"\n      }\n    }\n    log\n  }\n}\n",
    )
    .unwrap();
    assert_eq!(cmd.name, "git");
    assert_eq!(cmd.subcommands.len(), 2);
    assert_eq!(cmd.subcommands[0].name, "commit");
    assert_eq!(cmd.subcommands[0].flags[0].forms, vec!["-m"]);
    assert_eq!(cmd.subcommands[1].name, "log");
    assert_eq!(cmd.subcommands[1].flags, vec![]);
}

#[test]
fn empty_file() {
    assert_eq!(parse_from_str(""), Err(KdlDeserError::EmptyFile));
    assert_eq!(parse_from_str("// nothing\n"), Err(KdlDeserError::EmptyFile));
}

#[test]
fn too_many_nodes() {
    assert_eq!(parse_from_str("foo\nbar\nbaz\n"), Err(KdlDeserError::TooManyNodes(3)));
}

#[test]
fn syntax_error() {
    assert!(matches!(parse_from_str("foo {"), Err(KdlDeserError::SyntaxError(_))));
}

fn parse_error(text: &str) -> ParseError {
    match parse_from_str(text) {
        Err(KdlDeserError::ParseError { source_code, error }) => {
            assert_eq!(source_code, text);
            error
        }
        other => panic!("expected a parse error, got {:?}", other),
    }
}

#[test]
fn unexpected_child() {
    match parse_error("foo {\n  flagz\n}\n") {
        ParseError::UnexpectedChild { child_name, allowed, .. } => {
            assert_eq!(child_name, "flagz");
            assert_eq!(allowed, "one of [flags, args, desc, subcommands]");
        }
        other => panic!("{:?}", other),
    }
}

#[test]
fn duplicate_child() {
    match parse_error("foo {\n  flags\n  flags\n}\n") {
        ParseError::DuplicateChild { child_name, span, prev_span } => {
            assert_eq!(child_name, "flags");
            assert!(prev_span.offset < span.offset);
        }
        other => panic!("{:?}", other),
    }
}

#[test]
fn duplicate_flag() {
    match parse_error("foo {\n  flags {\n    \"-a\"\n    \"-b\" \"-a\"\n  }\n}\n") {
        ParseError::DuplicateFlag { flag, .. } => assert_eq!(flag, "-a"),
        other => panic!("{:?}", other),
    }
}

#[test]
fn invalid_flag() {
    match parse_error("foo {\n  flags {\n    \"-a\" 5\n  }\n}\n") {
        ParseError::InvalidFlag { msg, .. } => assert_eq!(msg, " 5"),
        other => panic!("{:?}", other),
    }
    match parse_error("foo {\n  flags {\n    \"-a\" x=\"y\"\n  }\n}\n") {
        ParseError::InvalidFlag { msg, .. } => assert_eq!(msg, "entry with name x"),
        other => panic!("{:?}", other),
    }
}

#[test]
fn invalid_description() {
    assert!(matches!(
        parse_error("foo {\n  flags {\n    \"-a\" {\n      desc \"one\" \"two\"\n    }\n  }\n}\n"),
        ParseError::InvalidDescription(_)
    ));
}

#[test]
fn empty_type() {
    assert!(matches!(
        parse_error("foo {\n  flags {\n    \"-a\" {\n      type\n    }\n  }\n}\n"),
        ParseError::EmptyType(_)
    ));
}

#[test]
fn invalid_type() {
    match parse_error("foo {\n  args {\n    size\n  }\n}\n") {
        ParseError::InvalidType(name, _) => assert_eq!(name, "size"),
        other => panic!("{:?}", other),
    }
}

#[test]
fn missing_command() {
    assert!(matches!(parse_error("foo {\n  args {\n    run\n  }\n}\n"), ParseError::MissingCommand(_)));
}

#[test]
fn generic_errors() {
    match parse_error("foo {\n  desc\n}\n") {
        ParseError::Generic { error, label, help, .. } => {
            assert_eq!(error, "Expected command description");
            assert_eq!(label, "No entry for node");
            assert_eq!(help, None);
        }
        other => panic!("{:?}", other),
    }
    match parse_error("foo {\n  args {\n    strings {\n      a\n    }\n  }\n}\n") {
        ParseError::Generic { error, help, .. } => {
            assert_eq!(error, "'strings' type should have no child nodes");
            assert_eq!(
                help,
                Some("Write out the strings like 'strings \"foo\" \"bar\"' instead of 'strings {...}'".to_string())
            );
        }
        other => panic!("{:?}", other),
    }
}

#[test]
fn flags_are_checked_before_subcommands() {
    assert!(matches!(
        parse_error("foo {\n  subcommands {\n    bar {\n      oops\n    }\n  }\n  flags {\n    \"-a\" 1\n  }\n}\n"),
        ParseError::InvalidFlag { .. }
    ));
}

fn sample() -> CommandInfo {
    CommandInfo {
        name: "git".to_string(),
        desc: None,
        flags: vec![
            Flag {
                forms: vec!["-h".to_string(), "--help".to_string()],
                desc: Some("Show help".to_string()),
                typ: None,
            },
            Flag { forms: vec![], desc: Some("no forms".to_string()), typ: None },
            Flag { forms: vec!["-v".to_string()], desc: None, typ: None },
        ],
        args: vec![],
        subcommands: vec![CommandInfo {
            name: "log".to_string(),
            desc: None,
            flags: vec![],
            args: vec![],
            subcommands: vec![],
        }],
    }
}

fn leaf(name: &str, entries: &[&str]) -> Node {
    Node {
        name: name.to_string(),
        entries: entries.iter().map(|e| e.to_string()).collect(),
        children: None,
    }
}

#[test]
fn command_as_node() {
    let flags = Node {
        name: "flags".to_string(),
        entries: vec![],
        children: Some(vec![
            Node {
                name: "-h".to_string(),
                entries: vec!["--help".to_string()],
                children: Some(vec![leaf("desc", &["Show help"])]),
            },
            leaf("-v", &[]),
        ]),
    };
    let log = Node {
        name: "log".to_string(),
        entries: vec![],
        children: Some(vec![Node { name: "flags".to_string(), entries: vec![], children: Some(vec![]) }]),
    };
    let subcommands = Node { name: "subcommands".to_string(), entries: vec![], children: Some(vec![log]) };
    assert_eq!(
        to_kdl_node(&sample()),
        Node { name: "git".to_string(), entries: vec![], children: Some(vec![flags, subcommands]) }
    );
}

#[test]
fn written_command_reads_back() {
    let (file_name, text) = generate(&sample());
    assert_eq!(file_name, "git.kdl");
    assert!(text.contains("--help"));
    let mut expected = sample();
    expected.flags.remove(1);
    assert_eq!(parse_from_str(&text), Ok(expected));
}

#[test]
fn format_by_extension() {
    assert_eq!(input_format("conf/foo.kdl"), Ok(InputFormat::Kdl));
    assert_eq!(input_format("foo.bar.json"), Ok(InputFormat::Json));
    let no_ext = Error::NoExtension { file_path: "dir.d/foo".to_string() };
    assert_eq!(input_format("dir.d/foo"), Err(no_ext));
    assert_eq!(
        input_format(".kdl"),
        Err(Error::NoExtension { file_path: ".kdl".to_string() })
    );
    let unknown = Error::UnrecognizableExtension { file_path: "foo.yaml".to_string() };
    assert_eq!(unknown.message(), "foo.yaml has an unrecognizable extension");
    assert_eq!(input_format("foo.yaml"), Err(unknown));
    assert_eq!(
        Error::NoExtension { file_path: "foo".to_string() }.message(),
        "foo has no extension"
    );
}
