use gen_completions::args::{
    enumerate_manpages, pick_pages, section_num_parser, select, split_paths, subcmd_map_parser,
    Selection,
};
use gen_completions::gen::zsh::ZshCompletions;
use gen_completions::gen::{zsh, Completions};
use gen_completions::text::{cat, chars_of, string_of};
use gen_completions::{copy_type, find_manpage, ArgType, CommandInfo, Flag};

#[test]
fn section_numbers() {
    assert_eq!(section_num_parser("1"), Ok(1));
    assert_eq!(section_num_parser("8"), Ok(8));
    assert_eq!(section_num_parser("+3"), Ok(3));
    assert_eq!(section_num_parser("007"), Ok(7));
}

#[test]
fn section_numbers_out_of_range() {
    let range = Err("must be between 1 and 8".to_string());
    assert_eq!(section_num_parser("0"), range);
    assert_eq!(section_num_parser("9"), range);
    assert_eq!(section_num_parser("255"), range);
}

#[test]
fn section_numbers_that_are_none() {
    let none = Err("should be an int between 1 and 8".to_string());
    assert_eq!(section_num_parser(""), none);
    assert_eq!(section_num_parser("+"), none);
    assert_eq!(section_num_parser("-1"), none);
    assert_eq!(section_num_parser("1a"), none);
    assert_eq!(section_num_parser(" 1"), none);
    assert_eq!(section_num_parser("256"), none);
    assert_eq!(section_num_parser("25x"), none);
    assert_eq!(section_num_parser("99999999999999999999999"), none);
    assert_eq!(section_num_parser("2561x"), none);
}

#[test]
fn subcommand_mappings() {
    assert_eq!(
        subcmd_map_parser("git-commit=git commit"),
        Ok(("git-commit".to_string(), vec!["git".to_string(), "commit".to_string()]))
    );
    assert_eq!(
        subcmd_map_parser("a=b=c  d"),
        Ok(("a".to_string(), vec!["b=c".to_string(), "".to_string(), "d".to_string()]))
    );
    assert_eq!(subcmd_map_parser("x="), Ok(("x".to_string(), vec!["".to_string()])));
    assert_eq!(
        subcmd_map_parser("git commit"),
        Err("subcommand mapping should be in the form 'manpage-name=sub command'".to_string())
    );
}

#[test]
fn paths_between_colons() {
    assert_eq!(split_paths("/usr/share/man:/usr/local/man"), vec!["/usr/share/man", "/usr/local/man"]);
    assert_eq!(split_paths("a::b:"), vec!["a", "", "b", ""]);
    assert_eq!(split_paths(""), vec![""]);
}

#[test]
fn selection_of_pages() {
    assert_eq!(select(None, None), Selection::Keep);
    assert_eq!(select(Some(true), None), Selection::Keep);
    assert_eq!(select(Some(true), Some(false)), Selection::Keep);
    assert_eq!(select(None, Some(false)), Selection::Keep);
    assert_eq!(select(Some(false), None), Selection::Skip);
    assert_eq!(select(Some(false), Some(true)), Selection::Skip);
    assert_eq!(select(None, Some(true)), Selection::Skip);
    assert_eq!(select(Some(true), Some(true)), Selection::Conflict);
}

#[test]
fn first_page_of_the_command() {
    let pages = vec![
        "/man/man1/gitk.1".to_string(),
        "/man/man1/git.1.gz".to_string(),
        "/man/man7/git.7".to_string(),
    ];
    assert_eq!(find_manpage("git", &pages), Some("/man/man1/git.1.gz".to_string()));
    assert_eq!(find_manpage("gi", &pages), None);
    assert_eq!(find_manpage("git", &vec![]), None);
}

#[test]
fn zsh_completions_of_each_command() {
    let cmd = |name: &str| CommandInfo {
        name: name.to_string(),
        desc: None,
        flags: vec![Flag { forms: vec!["-v".to_string()], desc: None, typ: None }],
        args: vec![],
        subcommands: vec![],
    };
    let cmds = vec![cmd("foo"), cmd("bar")];
    assert_eq!(ZshCompletions::generate(&cmds[0]), zsh::generate(&cmds[0]));
    let files = ZshCompletions::generate_all(&cmds);
    assert_eq!(files, vec![zsh::generate(&cmds[0]), zsh::generate(&cmds[1])]);
    assert_eq!(files[1].0, "_bar.zsh");
}

#[test]
fn copies_are_equal() {
    let typ = ArgType::Any(vec![
        ArgType::Path,
        ArgType::Run { cmd: "ls".to_string(), sep: Some("\t".to_string()) },
        ArgType::Strings(vec![("a".to_string(), None), ("b".to_string(), Some("B".to_string()))]),
        ArgType::Any(vec![ArgType::CommandName, ArgType::Unknown, ArgType::Dir]),
    ]);
    assert_eq!(copy_type(&typ), typ);
    assert_eq!(typ.clone(), typ);
    let flag = Flag { forms: vec!["-a".to_string()], desc: Some("A".to_string()), typ: Some(typ) };
    assert_eq!(flag.clone(), flag);
    let cmd = CommandInfo {
        name: "foo".to_string(),
        desc: Some("Foo".to_string()),
        flags: vec![flag.clone()],
        args: vec![ArgType::Dir],
        subcommands: vec![CommandInfo {
            name: "bar".to_string(),
            desc: None,
            flags: vec![flag],
            args: vec![],
            subcommands: vec![],
        }],
    };
    assert_eq!(cmd.clone(), cmd);
}

#[test]
fn strings_and_characters() {
    assert_eq!(string_of(&chars_of("héllo\n")), "héllo\n");
    assert_eq!(chars_of("a😀"), vec!['a', '😀']);
    assert_eq!(cat("ab", "cd"), "abcd");
}

#[test]
fn pages_of_the_commands_asked_for() {
    let paths: Vec<String> = ["/m/git.1", "/m/git-log.1.gz", "/m/gitk.1", "/m/ls.1", "/m/lsof.8"]
        .iter()
        .map(|p| p.to_string())
        .collect();
    let pages = enumerate_manpages(&paths, None, None).unwrap();
    assert_eq!(pages.taken, paths);
    assert!(pages.conflicts.is_empty());

    let pages = enumerate_manpages(&paths, Some("^git"), None).unwrap();
    assert_eq!(pages.taken, vec!["/m/git.1", "/m/git-log.1.gz", "/m/gitk.1"]);
    assert!(pages.conflicts.is_empty());

    let pages = enumerate_manpages(&paths, Some("^git"), Some("k$|^ls")).unwrap();
    assert_eq!(pages.taken, vec!["/m/git.1", "/m/git-log.1.gz"]);
    assert_eq!(pages.conflicts, vec!["gitk"]);

    let pages = enumerate_manpages(&paths, None, Some("^ls$")).unwrap();
    assert_eq!(pages.taken, vec!["/m/git.1", "/m/git-log.1.gz", "/m/gitk.1", "/m/lsof.8"]);
    assert!(pages.conflicts.is_empty());

    let pages = enumerate_manpages(&paths, Some("m"), None).unwrap();
    assert!(pages.taken.is_empty());
}

#[test]
fn filter_that_is_no_regular_expression() {
    let paths = vec!["/m/git.1".to_string()];
    assert!(enumerate_manpages(&paths, Some("(git"), None).is_none());
    assert!(enumerate_manpages(&paths, None, Some("[a-")).is_none());
    assert!(enumerate_manpages(&vec![], Some("(git"), None).is_none());
    assert!(enumerate_manpages(&paths, Some("git"), Some("x")).is_some());
}

#[test]
fn pages_picked_from_what_the_filters_say() {
    let paths: Vec<String> = ["/m/a.1", "/m/b.1", "/m/c.1", "/m/d.1"].iter().map(|p| p.to_string()).collect();
    let pages = pick_pages(
        &paths,
        &vec![Some(true), Some(true), Some(false)],
        &vec![Some(false), Some(true), Some(true), Some(true)],
    );
    assert_eq!(pages.taken, vec!["/m/a.1"]);
    assert_eq!(pages.conflicts, vec!["b"]);
    let pages = pick_pages(&paths, &vec![], &vec![]);
    assert_eq!(pages.taken, paths);
}
