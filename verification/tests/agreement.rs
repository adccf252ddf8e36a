//! The writer and the detection of subcommands, held against other ways to
//! work out the same results.

use std::path::Path;

use gen_completions::gen::util::Output;
use gen_completions::parse_man::detect::detect_subcommand;
use gen_completions::parse_man::get_cmd_name;

/// Every text of at most `max` pieces out of `alphabet`
fn texts(alphabet: &[&str], max: usize) -> Vec<String> {
    let mut all = vec![String::new()];
    let mut last = vec![String::new()];
    for _ in 0..max {
        let mut next = Vec::new();
        for text in &last {
            for piece in alphabet {
                next.push(format!("{text}{piece}"));
            }
        }
        all.extend(next.iter().cloned());
        last = next;
    }
    all
}

/// A writer that indents line by line
struct Lines {
    text: String,
    indent_str: String,
    indent_level: usize,
    line_ended: bool,
}

impl Lines {
    fn write_indent(&mut self) {
        for _ in 0..self.indent_level {
            self.text.push_str(&self.indent_str);
        }
    }

    fn write(&mut self, s: &str) {
        if self.line_ended {
            self.write_indent();
            self.line_ended = false;
        }
        let mut lines = s.split('\n');
        if let Some(mut line) = lines.next() {
            loop {
                self.text.push_str(line);
                if let Some(next) = lines.next() {
                    self.text.push('\n');
                    self.write_indent();
                    line = next;
                } else {
                    break;
                }
            }
        }
    }

    fn writeln(&mut self, s: &str) {
        self.write(s);
        self.text.push('\n');
        self.line_ended = true;
    }
}

#[test]
fn writer_indents_line_by_line() {
    let pieces = texts(&["a", "\n"], 3);
    for steps in texts(&["w", "l", "i", "d"], 5) {
        for (n, piece) in pieces.iter().enumerate() {
            let other = &pieces[(n * 7 + 3) % pieces.len()];
            let mut out = Output::new("  ".to_string());
            let mut lines = Lines {
                text: String::new(),
                indent_str: "  ".to_string(),
                indent_level: 0,
                line_ended: false,
            };
            for (k, step) in steps.chars().enumerate() {
                let s = if k % 2 == 0 { piece } else { other };
                match step {
                    'w' => {
                        out.write(s);
                        lines.write(s);
                    }
                    'l' => {
                        out.writeln(s);
                        lines.writeln(s);
                    }
                    'i' => {
                        out.indent();
                        lines.indent_level += 1;
                    }
                    _ => {
                        out.dedent();
                        lines.indent_level = lines.indent_level.saturating_sub(1);
                    }
                }
            }
            assert_eq!(out.text(), lines.text, "after {steps:?} with {piece:?} and {other:?}");
        }
    }
}

/// The ways to take `cmd` apart, where `hyphens` holds the start of the
/// part, the index after each hyphen in it, and the index after its end
/// and one more
fn ways<'a>(hyphens: &[usize], cmd: &'a str) -> Vec<Vec<&'a str>> {
    if hyphens.len() == 2 {
        Vec::new()
    } else {
        let mut res = Vec::new();
        for i in 1..hyphens.len() - 1 {
            let mid = hyphens[i];
            let mut all_right = ways(&hyphens[i..], cmd);
            all_right.push(vec![&cmd[mid..hyphens[hyphens.len() - 1] - 1]]);
            for right in all_right {
                let mut all_left = ways(&hyphens[..=i], cmd);
                all_left.push(vec![&cmd[hyphens[0]..mid - 1]]);
                for mut left in all_left {
                    left.extend_from_slice(&right);
                    res.push(left);
                }
            }
        }
        res
    }
}

fn all_ways(cmd_name: &str) -> Vec<Vec<&str>> {
    let mut hyphens = vec![0];
    for (i, c) in cmd_name.chars().enumerate() {
        if c == '-' {
            hyphens.push(i + 1);
        }
    }
    hyphens.push(cmd_name.len() + 1);
    ways(&hyphens, cmd_name)
}

fn first_way(cmd_name: &str, text: &str) -> Vec<String> {
    for poss in all_ways(cmd_name) {
        let as_sub_cmd = poss.join(" ").replace('-', r"\-");
        if text.contains(&as_sub_cmd) {
            return poss.into_iter().map(String::from).collect();
        }
    }
    vec![cmd_name.to_string()]
}

#[test]
fn subcommands_are_tried_in_the_same_order() {
    for name in texts(&["a", "bc", "-"], 5) {
        let candidates = all_ways(&name);
        for candidate in &candidates {
            let evidence = candidate.join(" ").replace('-', r"\-");
            let text = format!("see {evidence} for more");
            assert_eq!(detect_subcommand(&name, &text), first_way(&name, &text), "{name:?} in {text:?}");
        }
        for text in ["", "a bc", "bc a a", "a\\-bc a", " "] {
            assert_eq!(detect_subcommand(&name, text), first_way(&name, text), "{name:?} in {text:?}");
        }
    }
}

#[test]
fn number_of_ways() {
    assert_eq!(all_ways("a").len(), 0);
    assert_eq!(all_ways("a-b").len(), 1);
    assert_eq!(all_ways("a-b-c").len(), 4);
    assert_eq!(detect_subcommand("a-b-c", "a\\-b c"), vec!["a-b", "c"]);
    assert_eq!(detect_subcommand("a-b-c", "a b\\-c"), vec!["a", "b-c"]);
    assert_eq!(detect_subcommand("a-b-c", "a b c"), vec!["a", "b", "c"]);
}

#[test]
fn command_names_of_paths() {
    let paths = [
        "/usr/share/man/man1/ls.1.gz",
        "/usr/share/man/man1/git-commit.1",
        "man1/x.y.z",
        "plain",
        "/a.b/c",
        "/a/.hidden.1",
        "rel/ative/tar.1.bz2",
        "a\u{fffd}b.c",
    ];
    for path in paths {
        let file_name = Path::new(path)
            .file_name()
            .unwrap()
            .to_string_lossy()
            .replace(std::char::REPLACEMENT_CHARACTER, "");
        let expected = match file_name.find('.') {
            Some(ind) => file_name[..ind].to_string(),
            None => file_name.to_string(),
        };
        assert_eq!(get_cmd_name(path), expected, "for {path:?}");
    }
}
