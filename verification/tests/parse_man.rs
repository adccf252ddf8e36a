use gen_completions::parse_man::detect::detect_subcommand;
use gen_completions::parse_man::error::Error;
use gen_completions::parse_man::util::{
    abbreviate, get_section, make_flag, remove_groff_formatting, trim_desc, truncate,
};
use gen_completions::parse_man::{
    darwin, detect_subcommands, get_cmd_name, parse_from, parse_manpage_text, type1, type2, type3,
    type4, CmdPreInfo, ManPage,
};
use gen_completions::{parse_all_manpages, CommandInfo, Flag};

fn flag(forms: &[&str], desc: Option<&str>) -> Flag {
    Flag {
        forms: forms.iter().map(|f| f.to_string()).collect(),
        desc: desc.map(String::from),
        typ: None,
    }
}

fn page(path: &str, text: &str) -> ManPage {
    ManPage { path: path.to_string(), text: Ok(text.to_string()) }
}

const HELP_PAGE: &str = ".SH NAME\nfoo\n.SH \"OPTIONS\"\nThe options.\n.PP\n\\fB\\-h\\fR, \\fB\\-\\-help\\fR\n.RS 4\nShow help.\n.RE\n.SH AUTHOR\n";

#[test]
fn options_section_with_one_entry() {
    assert_eq!(
        parse_manpage_text("foo", HELP_PAGE),
        vec![flag(&["-h", "--help"], Some("Show help"))]
    );
    assert_eq!(type1::parse("foo", HELP_PAGE), vec![flag(&["-h", "--help"], Some("Show help"))]);
}

#[test]
fn quoted_option_line() {
    let text = ".SH \"OPTIONS\"\n.PP\n\"-h\", \"--help\"\n.RS 4\nShow help.\n.RE\n";
    assert_eq!(parse_manpage_text("foo", text), vec![flag(&["-h", "--help"], Some("Show help"))]);
}

#[test]
fn page_without_known_section_has_no_flags() {
    assert_eq!(parse_manpage_text("foo", ".SH NAME\nfoo \\- bar\n"), vec![]);
    assert_eq!(parse_manpage_text("foo", ""), vec![]);
}

#[test]
fn type1_paragraph_without_end_is_skipped() {
    let text = ".SH \"OPTIONS\"\n.PP\n\\-a\n.RS 4\nAll.\n.PP\n\\-b\n.RS 4\nBoth.\n.RE\n";
    assert_eq!(type1::parse("foo", text), vec![flag(&["-b"], Some("Both"))]);
}

#[test]
fn type2_items() {
    let text = ".SH OPTIONS\nIntro\n.TP 8\n\\fB\\-a\\fR, \\fB\\-\\-all\\fR\nShow all.  Really.\n.IP \"\\-r, \\-\\-raw\"\nRaw output\n.SH NOTES\n";
    assert_eq!(
        type2::parse("foo", text),
        vec![
            flag(&["-a", "--all"], Some("Show all. Really")),
            flag(&["-r", "--raw"], Some("Raw output")),
        ]
    );
}

#[test]
fn type2_item_of_one_line_has_no_description() {
    let text = ".SH OPTIONS\n.TP\n\\-x\n";
    assert_eq!(type2::parse("foo", text), vec![flag(&["-x"], None)]);
}

#[test]
fn type3_runs() {
    let text = ".SH DESCRIPTION\nSome text\n.TP\n\\fB\\-n\\fR, \\fB\\-\\-quiet\\fR\nsuppress printing\n.HP\n\\fB\\-e\\fR script\n.IP\nadd the script\n.PP\nEnd\n";
    assert_eq!(
        type3::parse("sed", text),
        vec![flag(&["-n", "--quiet"], Some("suppress printing")), flag(&["-e"], Some("add the script"))]
    );
}

#[test]
fn type4_items() {
    let text = ".SH FUNCTION LETTERS\n.TP\n\\fB\\-c\\fR\ncreate\n.TP\n\\fB\\-x\\fR\n";
    assert_eq!(type4::parse("tar", text), vec![flag(&["-c"], Some("create"))]);
}

#[test]
fn darwin_items() {
    let text = ".Sh NAME\n.Nm bless\n.Sh DESCRIPTION\n.Bl -tag\n.It Fl a Ar dir\nUse .Nm on dir.\n.It Fl -verbose\nPrint more\n.El\n.Sh FILES\n";
    assert_eq!(
        darwin::parse("bless", text),
        vec![flag(&["-a"], Some("Use bless on dir")), flag(&["--verbose"], Some("Print more"))]
    );
}

#[test]
fn two_dialects_find_the_same_flag_twice() {
    let text = ".SH OPTIONS\n.TP\n\\-a\nAll\n.SH DESCRIPTION\n.TP\n\\-a\nAll\n";
    assert_eq!(
        parse_manpage_text("foo", text),
        vec![flag(&["-a"], Some("All")), flag(&["-a"], Some("All"))]
    );
}

#[test]
fn make_flag_without_spelling() {
    assert_eq!(make_flag("foo bar", Some("desc")), None);
    assert_eq!(make_flag("", None), None);
    assert_eq!(make_flag("- --", None), None);
    assert_eq!(make_flag("-{}()", None), None);
}

#[test]
fn make_flag_cleans_tokens() {
    assert_eq!(make_flag("-f[=FILE], --file<path>", None), Some(flag(&["-f", "--file"], None)));
    assert_eq!(make_flag("--color=WHEN", None), Some(flag(&["--color"], None)));
    assert_eq!(make_flag("'-x|-y'", None), Some(flag(&["-x", "-y"], None)));
    assert_eq!(make_flag("(--long).", None), Some(flag(&["--long"], None)));
    assert_eq!(make_flag("--foo-(bar", None), Some(flag(&["--foo"], None)));
}

#[test]
fn make_flag_cleans_description() {
    assert_eq!(
        make_flag("-a", Some("  First line\nsecond.  Third\\'s.\n.SS Heading\nmore")),
        Some(flag(&["-a"], Some("First line second. Thirds")))
    );
    assert_eq!(make_flag("-a", Some(" . ")), Some(flag(&["-a"], None)));
}

#[test]
fn make_flag_abbreviates_description() {
    let long = "x".repeat(81);
    let got = make_flag("-a", Some(&long)).unwrap();
    assert_eq!(got.desc, Some(format!("{}...", "x".repeat(77))));
    let exact = "y".repeat(80);
    assert_eq!(make_flag("-a", Some(&exact)).unwrap().desc, Some(exact));
}

#[test]
fn abbreviate_counts_characters() {
    let long = "é".repeat(90);
    let short = abbreviate(&long);
    assert_eq!(short.chars().count(), 80);
    assert_eq!(short, format!("{}...", "é".repeat(77)));
    assert_eq!(abbreviate(&short), short);
    assert_eq!(abbreviate("short"), "short");
}

#[test]
fn trim_desc_collapses_spaces_after_sentences() {
    assert_eq!(trim_desc("One.   Two.\n\tThree. Four"), "One. Two. Three. Four");
    assert_eq!(trim_desc("a.b"), "a.b");
}

#[test]
fn truncate_trims_and_cuts() {
    assert_eq!(truncate("  hello\nworld  ", 40), "hello world");
    assert_eq!(truncate("hello world", 5), "hello");
    assert_eq!(truncate("", 5), "");
}

#[test]
fn section_ends_at_next_heading() {
    assert_eq!(get_section("OPTIONS", ".SH NAME\nx\n.SH OPTIONS\nabc\n.SH END\n"), Some("\nabc\n".to_string()));
    assert_eq!(get_section("OPTIONS", ".SH OPTIONS\nabc"), Some("\nabc".to_string()));
    assert_eq!(get_section("OPTIONS", ".SH NAME\n"), None);
}

#[test]
fn groff_formatting_is_removed() {
    assert_eq!(remove_groff_formatting("\\fB\\-\\-help\\fR"), "--help");
    assert_eq!(remove_groff_formatting(".PD 0\nfoo\\ bar\\&"), "\nfoo bar");
    assert_eq!(remove_groff_formatting("\\(aqx\\(cq .sp 1.5v\n.sp\n.BR \\-a"), "'x' \n\n -a");
    assert_eq!(remove_groff_formatting(".TP\n.IP \"x\"\n.RS 4\n.RE\n.SH A\n.PP\n.It x"), ".TP\n.IP \"x\"\n.RS 4\n.RE\n.SH A\n.PP\n.It x");
    assert_eq!(remove_groff_formatting("plain text"), "plain text");
}

#[test]
fn cmd_name_is_file_name_up_to_first_stop() {
    assert_eq!(get_cmd_name("/foo/cowsay.1.txt"), "cowsay");
    assert_eq!(get_cmd_name("git-commit.1.gz"), "git-commit");
    assert_eq!(get_cmd_name("/usr/share/man/man1/ls"), "ls");
    assert_eq!(get_cmd_name("a\u{fffd}b.1"), "ab");
}

#[test]
fn detect_escaped_hyphen_keeps_word_whole() {
    let text = "Use git commit\\-tree to make a commit.";
    assert_eq!(detect_subcommand("git-commit-tree", text), vec!["git", "commit-tree"]);
}

#[test]
fn detect_three_words() {
    let text = "git commit tree, or git commit\\-tree";
    assert_eq!(detect_subcommand("git-commit-tree", text), vec!["git", "commit", "tree"]);
}

#[test]
fn detect_needs_evidence() {
    assert_eq!(detect_subcommand("git-commit-tree", "commit\\-tree alone"), vec!["git-commit-tree"]);
    assert_eq!(detect_subcommand("git-log", "nothing here"), vec!["git-log"]);
    assert_eq!(detect_subcommand("git-log", "see git log"), vec!["git", "log"]);
    assert_eq!(detect_subcommand("git-commit-tree", "git\\-commit tree"), vec!["git-commit", "tree"]);
}

#[test]
fn detect_name_without_hyphen() {
    assert_eq!(detect_subcommand("foo", "foo bar foo-bar"), vec!["foo"]);
    assert_eq!(detect_subcommand("foo", ""), vec!["foo"]);
    assert_eq!(detect_subcommand("", "x"), vec![""]);
}

#[test]
fn evidence_comes_from_the_own_page() {
    let tree = detect_subcommands(
        vec![
            page("/man/foo-bar.1", ".SH NAME\nfoo-bar\n"),
            page("/man/foo.1", "foo bar is a subcommand"),
        ],
        vec![],
    );
    let names: Vec<&str> = tree.iter().map(|n| n.name.as_str()).collect();
    assert_eq!(names, vec!["foo-bar", "foo"]);
    assert!(tree.iter().all(|n| n.subcmds.is_empty() && n.page.is_some()));
}

#[test]
fn subcommand_goes_under_its_command() {
    let tree = detect_subcommands(
        vec![
            page("/man/git-log.1", "git log shows"),
            page("/man/git.1", "git"),
            page("/man/git-commit.1.gz", "git commit records"),
        ],
        vec![],
    );
    assert_eq!(tree.len(), 1);
    assert_eq!(tree[0].name, "git");
    assert_eq!(tree[0].page.as_ref().unwrap().path, "/man/git.1");
    let subs: Vec<&str> = tree[0].subcmds.iter().map(|n| n.name.as_str()).collect();
    assert_eq!(subs, vec!["log", "commit"]);
    assert_eq!(tree[0].subcmds[1].page.as_ref().unwrap().path, "/man/git-commit.1.gz");
}

#[test]
fn explicit_words_are_used_once() {
    let unread = ManPage { path: "/man/foobar.1".to_string(), text: Err("denied".to_string()) };
    let tree = detect_subcommands(
        vec![unread, page("/other/foobar.1", "x")],
        vec![
            ("foobar".to_string(), vec!["old".to_string()]),
            ("foobar".to_string(), vec!["foo".to_string(), "bar".to_string()]),
        ],
    );
    let names: Vec<&str> = tree.iter().map(|n| n.name.as_str()).collect();
    assert_eq!(names, vec!["foo", "foobar"]);
    assert!(tree[0].page.is_none());
    assert_eq!(tree[0].subcmds[0].name, "bar");
    assert_eq!(tree[0].subcmds[0].page.as_ref().unwrap().path, "/man/foobar.1");
}

#[test]
fn unreadable_page_is_left_out() {
    let unread = ManPage { path: "/man/foo.1".to_string(), text: Err("denied".to_string()) };
    assert_eq!(detect_subcommands(vec![unread], vec![]), vec![]);
}

#[test]
fn parse_from_orders_and_prunes() {
    let opts = |f: &str| format!(".SH OPTIONS\n.TP\n{f}\nDoes it\n");
    let node = CmdPreInfo {
        name: "git".to_string(),
        page: None,
        subcmds: vec![
            CmdPreInfo { name: "log".to_string(), page: Some(page("/m/git-log.1", &opts("\\-n"))), subcmds: vec![] },
            CmdPreInfo { name: "empty".to_string(), page: Some(page("/m/git-empty.1", "nothing")), subcmds: vec![] },
            CmdPreInfo {
                name: "commit".to_string(),
                page: Some(ManPage { path: "/m/git-commit.1".to_string(), text: Err("broken".to_string()) }),
                subcmds: vec![CmdPreInfo {
                    name: "tree".to_string(),
                    page: Some(page("/m/git-commit-tree.1", &opts("\\-p"))),
                    subcmds: vec![],
                }],
            },
        ],
    };
    let (cmd, errors) = parse_from("git", &node);
    let leaf = |name: &str, f: &str| CommandInfo {
        name: name.to_string(),
        desc: None,
        flags: vec![flag(&[f], Some("Does it"))],
        args: vec![],
        subcommands: vec![],
    };
    assert_eq!(
        cmd,
        Some(CommandInfo {
            name: "git".to_string(),
            desc: None,
            flags: vec![],
            args: vec![],
            subcommands: vec![
                CommandInfo {
                    name: "commit".to_string(),
                    desc: None,
                    flags: vec![],
                    args: vec![],
                    subcommands: vec![leaf("tree", "-p")],
                },
                leaf("log", "-n"),
            ],
        })
    );
    assert_eq!(
        errors,
        vec![
            Error::ManpageNotFound { cmd_name: "git".to_string() },
            Error::UnsupportedFormat { path: "/m/git-empty.1".to_string() },
            Error::Io { path: "/m/git-commit.1".to_string(), message: "broken".to_string() },
        ]
    );
    assert_eq!(errors[0].message(), "Could not find manpage for git");
    assert_eq!(errors[1].message(), "Unsupported manpage format for /m/git-empty.1");
    assert_eq!(errors[2].message(), "broken");
}

#[test]
fn parse_from_without_content_gives_no_command() {
    let node = CmdPreInfo { name: "foo".to_string(), page: Some(page("/m/foo.1", "x")), subcmds: vec![] };
    let (cmd, errors) = parse_from("foo", &node);
    assert_eq!(cmd, None);
    assert_eq!(errors, vec![Error::UnsupportedFormat { path: "/m/foo.1".to_string() }]);
}

#[test]
fn flags_of_a_page_begin_with_hyphens() {
    let text = ".SH OPTIONS\n.TP\nfoo, \\-a, b\\-c, (\\-\\-dd)\nAll\n.TP\nnothing here\nNone\n.SH \"OPTIONS\"\n.PP\n\\-x, y\n.RS 4\nX\n.RE\n";
    let flags = parse_manpage_text("foo", text);
    assert_eq!(flags, vec![flag(&["-x"], Some("X")), flag(&["-a", "--dd"], Some("All"))]);
    for f in &flags {
        assert!(!f.forms.is_empty());
        assert!(f.forms.iter().all(|form| form.starts_with('-')));
    }
}

#[test]
fn line_without_hyphen_makes_no_flag() {
    for options in ["", "foo", "a b c", "[x] <y> (z)", "\"quoted words\"", "=|,"] {
        assert_eq!(make_flag(options, Some("desc")), None);
    }
    assert!(make_flag("(-a)", None).is_some());
}

#[test]
fn text_without_markup_stays() {
    for text in ["plain words", "--help, -h", ".SH NAME\n.TP\n.IP x\n.RS 4\n.RE\n.It Fl a"] {
        assert_eq!(remove_groff_formatting(text), text);
        assert_eq!(remove_groff_formatting(&remove_groff_formatting(text)), text);
    }
}

#[test]
fn siblings_have_different_names() {
    let tree = detect_subcommands(
        vec![
            page("/a/git-log.1", "git log"),
            page("/b/git-log.1", "git log"),
            page("/a/git.1", ""),
            page("/b/git.1", ""),
        ],
        vec![],
    );
    assert_eq!(tree.len(), 1);
    assert_eq!(tree[0].page.as_ref().unwrap().path, "/b/git.1");
    assert_eq!(tree[0].subcmds.len(), 1);
    assert_eq!(tree[0].subcmds[0].page.as_ref().unwrap().path, "/b/git-log.1");
}

#[test]
fn explicit_words_may_be_none() {
    let tree = detect_subcommands(vec![page("/a/foo.1", "x")], vec![("foo".to_string(), vec![])]);
    assert_eq!(tree, vec![]);
}

#[test]
fn subcommands_of_one_command_have_different_names() {
    let opts = ".SH OPTIONS\n.TP\n\\-a\nAll\n";
    let leaf = |name: &str| CmdPreInfo {
        name: name.to_string(),
        page: Some(page(&format!("/m/{name}.1"), opts)),
        subcmds: vec![],
    };
    let node = CmdPreInfo {
        name: "git".to_string(),
        page: None,
        subcmds: vec![leaf("log"), leaf("add"), leaf("commit"), leaf("bisect")],
    };
    let cmd = parse_from("git", &node).0.unwrap();
    let names: Vec<&str> = cmd.subcommands.iter().map(|c| c.name.as_str()).collect();
    assert_eq!(names, vec!["add", "bisect", "commit", "log"]);

    let node = CmdPreInfo { name: "x".to_string(), page: None, subcmds: vec![leaf("a b"), leaf("c b")] };
    let cmd = parse_from("x", &node).0.unwrap();
    let names: Vec<&str> = cmd.subcommands.iter().map(|c| c.name.as_str()).collect();
    assert_eq!(names, vec!["b", "b"]);
}

const VERBOSE_PAGE: &str = ".SH NAME\nfoo\n.SH \"OPTIONS\"\nThe options.\n.PP\n\\fB\\-v\\fR\n.RS 4\nSay more.\n.RE\n.SH AUTHOR\n";

fn leaf(name: &str, flags: Vec<Flag>) -> CommandInfo {
    CommandInfo { name: name.to_string(), desc: None, flags, args: vec![], subcommands: vec![] }
}

#[test]
fn all_pages_give_one_command_for_each_name() {
    assert_eq!(parse_all_manpages(&vec![]), vec![]);
    let pages = vec![
        page("/man/man1/foo.1", HELP_PAGE),
        page("/man/man1/bar.1.gz", VERBOSE_PAGE),
        ManPage { path: "/man/man1/baz.1".to_string(), text: Err("denied".to_string()) },
        page("/man/man8/foo.8", VERBOSE_PAGE),
        ManPage { path: "/man/man6/bar.6".to_string(), text: Err("denied".to_string()) },
        page("/man/man1/none.1", "no options here"),
    ];
    assert_eq!(
        parse_all_manpages(&pages),
        vec![
            leaf("foo", vec![flag(&["-v"], Some("Say more"))]),
            leaf("bar", vec![flag(&["-v"], Some("Say more"))]),
            leaf("none", vec![]),
        ]
    );
}

#[test]
fn a_repeated_spelling_is_kept_once() {
    assert_eq!(make_flag("-v, -v", None), Some(flag(&["-v"], None)));
    assert_eq!(make_flag("-v, -v", Some("Say more")), Some(flag(&["-v"], Some("Say more"))));
    assert_eq!(make_flag("--all -a --all", None), Some(flag(&["--all", "-a"], None)));
}
