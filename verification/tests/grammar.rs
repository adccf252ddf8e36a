//! The markers of the parsers, held against the same grammar written as
//! regular expressions, on every text that a small alphabet gives.

use gen_completions::parse_man::util::{get_section, make_flag, remove_groff_formatting, trim_desc};
use gen_completions::parse_man::{darwin, type1, type2, type3, type4};
use gen_completions::pattern::{replace_all_chars, replace_first_chars, split_chars, Pattern};
use gen_completions::text::{chars_of, string_of};
use gen_completions::Flag;
use regex::{Regex, RegexBuilder};

/// Every text of at most `max` pieces out of `alphabet`
fn texts(alphabet: &[&str], max: usize) -> Vec<String> {
    let mut all = vec![String::new()];
    let mut last = vec![String::new()];
    for _ in 0..max {
        let mut next = Vec::new();
        for text in &last {
            for piece in alphabet {
                next.push(format!("{text}{piece}"));
            }
        }
        all.extend(next.iter().cloned());
        last = next;
    }
    all
}

fn dot_all(pattern: &str) -> Regex {
    RegexBuilder::new(pattern).dot_matches_new_line(true).build().unwrap()
}

fn agree_on_replace_all(p: &Pattern, pattern: &str, to: &str, alphabet: &[&str], max: usize) {
    let re = Regex::new(pattern).unwrap();
    for text in texts(alphabet, max) {
        let got = string_of(&replace_all_chars(p, &chars_of(&text), &chars_of(to)));
        assert_eq!(got, re.replace_all(&text, to), "in {text:?}");
    }
}

fn agree_on_replace_first(p: &Pattern, re: &Regex, alphabet: &[&str], max: usize) {
    for text in texts(alphabet, max) {
        let got = string_of(&replace_first_chars(p, &chars_of(&text), &chars_of("")));
        assert_eq!(got, re.replace(&text, ""), "in {text:?}");
    }
}

fn agree_on_split(p: &Pattern, pattern: &str, alphabet: &[&str], max: usize) {
    let re = Regex::new(pattern).unwrap();
    for text in texts(alphabet, max) {
        let got: Vec<String> = split_chars(p, &chars_of(&text)).iter().map(string_of).collect();
        assert_eq!(got, re.split(&text).collect::<Vec<_>>(), "in {text:?}");
    }
}

#[test]
fn paragraph_distance_agrees() {
    agree_on_replace_all(&Pattern::ParagraphDistance, r"\.PD \d+", "", &[".", "P", "D", " ", "1", "x"], 6);
    agree_on_replace_all(&Pattern::ParagraphDistance, r"\.PD \d+", "", &[".PD", " ", "1", "٣", "৪", "x", "Ⅳ"], 5);
}

#[test]
fn quote_glyph_agrees() {
    agree_on_replace_all(&Pattern::QuoteGlyph, r"\\\([ocadlr]q", "'", &["\\", "(", "a", "q", "r", "x"], 6);
}

#[test]
fn line_space_agrees() {
    agree_on_replace_all(
        &Pattern::LineSpace,
        r"\.sp( (\d+(\.\d)?)v?)?",
        "",
        &[".sp", " ", "1", ".", "v", "x"],
        6,
    );
    agree_on_replace_all(
        &Pattern::LineSpace,
        r"\.sp( (\d+(\.\d)?)v?)?",
        "",
        &[".sp", " ", "٣", ".", "v", "７", "²"],
        5,
    );
}

#[test]
fn sentence_gap_agrees() {
    agree_on_replace_all(&Pattern::SentenceGap, r"\.\s+", ". ", &[".", " ", "\n", "\t", "a"], 7);
}

#[test]
fn list_item_agrees() {
    agree_on_split(&Pattern::ListItem, r"\.[IT]P( (\d+(\.\d)?)i?)?", &[".IP", ".TP", ".PP", " ", "4", ".", "i"], 5);
    agree_on_split(&Pattern::ListItem, r"\.[IT]P( (\d+(\.\d)?)i?)?", &[".IP", " ", "४", ".", "i", "x"], 5);
}

#[test]
fn delimiters_agree() {
    agree_on_split(&Pattern::OneOf(chars_of(" ,=\"|")), r#"[ ,="|]"#, &[" ", ",", "=", "\"", "|", "a"], 6);
}

#[test]
fn paragraph_end_agrees() {
    let re = Regex::new(r"\.(IP|TP|UNINDENT|UN|SH)").unwrap();
    for text in texts(&[".", "IP", "TP", "UN", "INDENT", "SH", "x"], 5) {
        let got = gen_completions::pattern::find_at(&Pattern::ParagraphEnd, &chars_of(&text), 0);
        let expected = re.find(&text).map(|m| (m.start(), m.end() - m.start()));
        assert_eq!(got, expected, "in {text:?}");
    }
}

#[test]
fn bracketed_agrees() {
    agree_on_replace_first(&Pattern::Bracketed, &Regex::new(r"\[.*\]").unwrap(), &["[", "]", "a", "\n"], 8);
}

#[test]
fn placeholder_agrees() {
    agree_on_replace_first(&Pattern::Placeholder, &Regex::new(r"<.*").unwrap(), &["<", ">", "a", "\n"], 7);
}

#[test]
fn hyphen_group_agrees() {
    agree_on_replace_first(
        &Pattern::HyphenGroup,
        &Regex::new(r"-[()\[\]].*$").unwrap(),
        &["-", "(", ")", "[", "]", "a", "\n"],
        6,
    );
}

#[test]
fn rest_agrees() {
    agree_on_replace_first(&Pattern::Rest(chars_of(".SS")), &dot_all(r"\.SS.*"), &[".", "S", "a", "\n"], 8);
    agree_on_replace_first(&Pattern::Rest(chars_of("\n.El")), &dot_all(r"\n\.El.*+"), &["\n", ".El", "a"], 7);
}

/// The grammar of the pages as regular expressions
struct Grammar {
    options: Regex,
    quoted_options: Regex,
    description: Regex,
    function_letters: Regex,
    name: Regex,
    distance: Regex,
    glyph: Regex,
    space: Regex,
    delimiter: Regex,
    bracketed: Regex,
    placeholder: Regex,
    hyphen_group: Regex,
    shell_syntax: Regex,
    subsection: Regex,
    gap: Regex,
    item: Regex,
    item_end: Regex,
    run: Regex,
    flag_macro: Regex,
    list_end: Regex,
}

fn section_regex(title: &str) -> Regex {
    RegexBuilder::new(&format!(r#"\.SH {title}(.*?)(\.SH|\z)"#))
        .multi_line(true)
        .dot_matches_new_line(true)
        .build()
        .unwrap()
}

impl Grammar {
    fn new() -> Grammar {
        Grammar {
            options: section_regex("OPTIONS"),
            quoted_options: section_regex(r#""OPTIONS""#),
            description: section_regex("DESCRIPTION"),
            function_letters: section_regex("FUNCTION LETTERS"),
            name: section_regex("NAME"),
            distance: Regex::new(r"\.PD \d+").unwrap(),
            glyph: Regex::new(r"\\\([ocadlr]q").unwrap(),
            space: Regex::new(r"\.sp( (\d+(\.\d)?)v?)?").unwrap(),
            delimiter: Regex::new(r#"[ ,="|]"#).unwrap(),
            bracketed: Regex::new(r"\[.*\]").unwrap(),
            placeholder: Regex::new(r"<.*").unwrap(),
            hyphen_group: Regex::new(r"-[()\[\]].*$").unwrap(),
            shell_syntax: Regex::new(r"\{\}\(\)").unwrap(),
            subsection: dot_all("\\.SS.*"),
            gap: Regex::new(r"\.\s+").unwrap(),
            item: Regex::new(r"\.[IT]P( (\d+(\.\d)?)i?)?").unwrap(),
            item_end: Regex::new(r"\.(IP|TP|UNINDENT|UN|SH)").unwrap(),
            run: dot_all(r"\.[HT]P(.*?)(\.[HPT]P|\z)"),
            flag_macro: Regex::new(r"(\...) Fl ").unwrap(),
            list_end: dot_all(r"\n\.El.*+"),
        }
    }

    /// The section that `re` finds
    fn section(&self, re: &Regex, text: &str) -> Option<String> {
        re.captures(text).map(|captures| captures.get(1).unwrap().as_str().to_string())
    }

    /// The markup taken out, again and again until none is left
    fn plain(&self, data: &str) -> String {
        let mut data = data.to_string();
        loop {
            let next = self.once(&data);
            if next.len() < data.len() {
                data = next;
            } else {
                return next;
            }
        }
    }

    /// The replacements of the markup, made once
    fn once(&self, data: &str) -> String {
        let data = data
            .replace(r"\fI", "")
            .replace(r"\fP", "")
            .replace(r"\f1", "")
            .replace(r"\fB", "")
            .replace(r"\fR", "")
            .replace(r"\e", "");
        let data = self.distance.replace_all(&data, "");
        let data = data
            .replace(".BI", "")
            .replace(".BR", "")
            .replace(".B", "")
            .replace("0.5i", "")
            .replace(".rb", "")
            .replace(r"\^", "")
            .replace("{ ", "")
            .replace(" }", "")
            .replace(r"\ ", " ")
            .replace(r"\-", "-")
            .replace(r"\&", "")
            .replace('\u{C}', "");
        let data = self.glyph.replace_all(&data, "'");
        let data = data.replace(".Pp", "");
        self.space.replace_all(&data, "").to_string()
    }

    /// The forms of an option line
    fn forms(&self, options: &str) -> Vec<String> {
        let options = options.trim();
        let options = if options.chars().count() < 2 {
            options
        } else if (options.starts_with('"') && options.ends_with('"'))
            || (options.starts_with('\'') && options.ends_with('\''))
        {
            &options[1..options.len() - 1]
        } else {
            options
        };
        let punctuation = " \t\r\n[](){}.:!".chars().collect::<Vec<_>>();
        let mut forms = Vec::new();
        for option in self.delimiter.split(options) {
            let option = self.bracketed.replace(option, "");
            let option = self.placeholder.replace(&option, "");
            let option = self.hyphen_group.replace(&option, "");
            let option = option.trim_matches(punctuation.as_slice());
            if !option.starts_with('-') || option == "-" || option == "--" {
                continue;
            }
            if self.shell_syntax.is_match(option) {
                continue;
            }
            if forms.iter().any(|form| form == option) {
                continue;
            }
            forms.push(option.to_string());
        }
        forms
    }

    /// The description of a flag, cleaned
    fn desc(&self, desc: &str) -> Option<String> {
        let desc = self.subsection.replace(desc, "");
        let desc = desc.trim().replace('\n', " ");
        let desc = desc.trim_end_matches('.');
        let desc = desc.replace(r"\'", "").replace(r"\.", "");
        let desc = self.gap.replace_all(&desc, ". ").to_string();
        let desc = if desc.chars().count() > 80 {
            format!("{}...", desc.chars().take(77).collect::<String>())
        } else {
            desc
        };
        if desc.is_empty() {
            None
        } else {
            Some(desc)
        }
    }

    fn flag(&self, options: &str, desc: Option<&str>) -> Option<Flag> {
        let forms = self.forms(options);
        if forms.is_empty() {
            None
        } else {
            Some(Flag { forms, desc: desc.and_then(|d| self.desc(d)), typ: None })
        }
    }

    fn type1(&self, page_text: &str) -> Vec<Flag> {
        let mut flags = Vec::new();
        if let Some(content) = self.section(&self.quoted_options, page_text) {
            for para in content.split(".PP").skip(1) {
                if let Some(end) = para.find(".RE") {
                    let data = self.plain(&para[0..end]);
                    let mut data = data.split(".RS 4");
                    let options = data.next().unwrap();
                    flags.extend(self.flag(options, data.next()));
                }
            }
        }
        flags
    }

    fn type2(&self, page_text: &str) -> Vec<Flag> {
        let mut flags = Vec::new();
        if let Some(content) = self.section(&self.options, page_text) {
            for para in self.item.split(&content).skip(1) {
                let data = match self.item_end.find(para) {
                    Some(mat) => &para[0..mat.start()],
                    None => para,
                };
                let data = self.plain(data);
                let data = data.trim();
                match data.split_once('\n') {
                    Some((options, desc)) => flags.extend(self.flag(options, Some(desc))),
                    None => flags.extend(self.flag(data, None)),
                }
            }
        }
        flags
    }

    fn type3(&self, page_text: &str) -> Vec<Flag> {
        let mut flags = Vec::new();
        if let Some(content) = self.section(&self.description, page_text) {
            let mut last_end = 0;
            while let Some(mat) = self.run.find_at(&content, last_end) {
                let data = &content[mat.start() + 3..mat.end()];
                let end_offset =
                    if data.ends_with(".HP") || data.ends_with(".TP") || data.ends_with(".PP") {
                        3
                    } else {
                        0
                    };
                let data = &data[..data.len() - end_offset];
                last_end = mat.end() - end_offset;
                if let Some((options, desc)) = data.split_once(".IP") {
                    let options = self.plain(options);
                    let desc = self.plain(desc);
                    flags.extend(self.flag(&options, Some(&desc)));
                } else {
                    let data = self.plain(data);
                    if let Some((options, desc)) = data.trim().split_once('\n') {
                        flags.extend(self.flag(options, Some(desc)));
                    }
                }
            }
        }
        flags
    }

    fn type4(&self, page_text: &str) -> Vec<Flag> {
        let mut flags = Vec::new();
        if let Some(content) = self.section(&self.function_letters, page_text) {
            for para in content.split(".TP").skip(1) {
                let data = self.plain(para);
                if let Some((options, desc)) = data.trim().split_once('\n') {
                    flags.extend(self.flag(options, Some(desc)));
                }
            }
        }
        flags
    }

    fn darwin(&self, cmd_name: &str, page_text: &str) -> Vec<Flag> {
        let Some(start_ind) = page_text.find(".Sh DESCRIPTION") else {
            return Vec::new();
        };
        let mut flags = Vec::new();
        let content = &page_text[start_ind..];
        let content = self.flag_macro.replace_all(content, "$1 -").replace(".Fl ", "-");
        for para in content.split(".It").skip(1) {
            let mut pieces = para.splitn(2, '\n');
            if let Some(options) = pieces.next() {
                let desc = pieces.next().map(|desc| {
                    let desc = desc.replace(".Nm", cmd_name);
                    self.list_end.replace(&desc, "").to_string()
                });
                flags.extend(self.flag(options, desc.as_deref()));
            }
        }
        flags
    }
}

#[test]
fn sections_agree() {
    let grammar = Grammar::new();
    for text in texts(&[".SH ", "OPTIONS", "\"OPTIONS\"", ".SH", "x\n", "NAME"], 6) {
        assert_eq!(get_section("OPTIONS", &text), grammar.section(&grammar.options, &text), "in {text:?}");
        assert_eq!(
            get_section("\"OPTIONS\"", &text),
            grammar.section(&grammar.quoted_options, &text),
            "in {text:?}"
        );
        assert_eq!(get_section("NAME", &text), grammar.section(&grammar.name, &text), "in {text:?}");
    }
}

#[test]
fn markup_agrees() {
    let grammar = Grammar::new();
    let alphabets: [&[&str]; 5] = [
        &["\\", "f", "I", "B", "e", "-", "&"],
        &[".", "B", "R", "I", "P", "p", "r", "b"],
        &[".PD", " ", "0", ".", "5", "i", ".sp", "v"],
        &["{", "}", " ", "\\", "^", "\u{c}", "a"],
        &["\\(", "\\", "(", "a", "c", "q", "'"],
    ];
    for alphabet in alphabets {
        for text in texts(alphabet, 5) {
            assert_eq!(remove_groff_formatting(&text), grammar.plain(&text), "in {text:?}");
        }
    }
}

#[test]
fn option_lines_agree() {
    let grammar = Grammar::new();
    let alphabets: [&[&str]; 5] = [
        &["-", "a", " ", ",", "[", "]"],
        &["-", "a", "<", "(", ")", "\n"],
        &["-", "\"", "'", "a", ".", "="],
        &["-", "{", "}", "(", ")", "|"],
        &["--", "-x", "é", ":", "!", "\t"],
    ];
    for alphabet in alphabets {
        for options in texts(alphabet, 6) {
            assert_eq!(make_flag(&options, None), grammar.flag(&options, None), "in {options:?}");
        }
    }
    for options in texts(&["-", "a", " ", "[", "]", "(", "\n"], 6) {
        assert_eq!(make_flag(&options, None), grammar.flag(&options, None), "in {options:?}");
    }
}

#[test]
fn descriptions_agree() {
    let grammar = Grammar::new();
    let alphabets: [&[&str]; 3] = [
        &[".", " ", "S", "a", "\n"],
        &["\\", "'", ".", "a", " "],
        &["Word. ", "\n", ".SS", "  ", "x", "\\'"],
    ];
    for alphabet in alphabets {
        for desc in texts(alphabet, 6) {
            assert_eq!(make_flag("-a", Some(&desc)), grammar.flag("-a", Some(&desc)), "in {desc:?}");
        }
    }
    let long = "many words. ".repeat(9);
    assert_eq!(make_flag("-a", Some(&long)), grammar.flag("-a", Some(&long)));
}

#[test]
fn type1_pages_agree() {
    let grammar = Grammar::new();
    let pieces = [".SH \"OPTIONS\"\n", ".PP\n", "\\fB\\-a\\fR, \\-\\-all\n", ".RS 4\n", "All of it.\n", ".RE\n", ".SH SEE\n"];
    for page in texts(&pieces, 6) {
        assert_eq!(type1::parse("cmd", &page), grammar.type1(&page), "in {page:?}");
    }
}

#[test]
fn type2_pages_agree() {
    let grammar = Grammar::new();
    let pieces = [".SH OPTIONS\n", ".TP\n", ".IP 4\n", "\\-a, \\-\\-all\n", "All of it.\n", ".UN", ".SH SEE\n", ".PP\n"];
    for page in texts(&pieces, 5) {
        assert_eq!(type2::parse("cmd", &page), grammar.type2(&page), "in {page:?}");
    }
}

#[test]
fn type3_pages_agree() {
    let grammar = Grammar::new();
    let pieces = [".SH DESCRIPTION\n", ".TP\n", ".HP\n", ".IP\n", ".PP\n", "\\-a, \\-\\-all\n", "All of it.\n", ".SH SEE\n"];
    for page in texts(&pieces, 5) {
        assert_eq!(type3::parse("cmd", &page), grammar.type3(&page), "in {page:?}");
    }
    let pieces = [".TP", ".HP", ".PP", ".IP", "\n", "-a", "x"];
    for text in texts(&pieces, 5) {
        let page = format!(".SH DESCRIPTION{text}");
        assert_eq!(type3::parse("cmd", &page), grammar.type3(&page), "in {page:?}");
    }
}

#[test]
fn type4_pages_agree() {
    let grammar = Grammar::new();
    let pieces = [".SH FUNCTION LETTERS\n", ".TP\n", "\\-c\n", "Create.\n", ".SH SEE\n", "x"];
    for page in texts(&pieces, 6) {
        assert_eq!(type4::parse("cmd", &page), grammar.type4(&page), "in {page:?}");
    }
}

#[test]
fn darwin_pages_agree() {
    let grammar = Grammar::new();
    let pieces = [".Sh DESCRIPTION\n", ".It Fl a Ar dir\n", ".It Fl -long\n", "Use .Nm on it.\n", ".Fl b ", ".El\n", "\n", ".Sh FILES\n"];
    for page in texts(&pieces, 5) {
        assert_eq!(darwin::parse("cmd", &page), grammar.darwin("cmd", &page), "in {page:?}");
    }
    for text in texts(&[".", "I", "t", " Fl ", "\n", "a"], 5) {
        let page = format!(".Sh DESCRIPTION{text}");
        assert_eq!(darwin::parse("cmd", &page), grammar.darwin("cmd", &page), "in {page:?}");
    }
}

#[test]
fn directives_stay_where_markup_goes() {
    let parts = texts(&["\\fB", ".B", "0.5i", ".sp 1", ".PD 2", "\\(aq", " }", "x", "."], 3);
    for (n, a) in parts.iter().enumerate() {
        let b = &parts[(n * 31 + 7) % parts.len()];
        for d in [".SH", ".PP", ".TP", ".IP", ".RS", ".RE", ".It"] {
            assert_eq!(
                remove_groff_formatting(&format!("{a}{d}{b}")),
                format!("{}{d}{}", remove_groff_formatting(a), remove_groff_formatting(b)),
                "around {d:?} in {a:?} and {b:?}"
            );
        }
    }
}

#[test]
fn markup_is_taken_out_until_none_is_left() {
    assert_eq!(remove_groff_formatting("..spsp"), "");
    assert_eq!(remove_groff_formatting("\\f\\fII"), "");
    assert_eq!(remove_groff_formatting("\\\\--"), "--");
    assert_eq!(remove_groff_formatting(".P.Ppp"), "");
    let grammar = Grammar::new();
    let alphabets: [&[&str]; 3] = [
        &[".", "s", "p", ".sp", " ", "1"],
        &["\\", "f", "I", "-", "e", "&"],
        &[".", "B", "R", "P", "p", "0.5i"],
    ];
    for alphabet in alphabets {
        for text in texts(alphabet, 5) {
            let plain = remove_groff_formatting(&text);
            assert_eq!(plain, grammar.plain(&text), "in {text:?}");
            assert_eq!(remove_groff_formatting(&plain), plain, "in {text:?}");
            assert_eq!(grammar.once(&plain), plain, "in {text:?}");
        }
    }
}

#[test]
fn forms_do_not_end_in_punctuation() {
    assert_eq!(make_flag("--a.-(b", None).unwrap().forms, vec!["--a"]);
    assert_eq!(make_flag("--x:-[y]", None).unwrap().forms, vec!["--x:-"]);
    assert_eq!(make_flag("--x:-)y", None).unwrap().forms, vec!["--x"]);
    for alphabet in [["-", "a", ".", "(", ":", "!"], ["-", "b", "]", "[", "{", "}"]] {
        for options in texts(&alphabet, 6) {
            if let Some(flag) = make_flag(&options, None) {
                assert_eq!(flag.typ, None);
                for form in &flag.forms {
                    assert!(form.starts_with('-') && form != "-" && form != "--", "{form:?} of {options:?}");
                    assert!(!form.contains([' ', ',', '=', '"', '|']), "{form:?} of {options:?}");
                    assert!(
                        !form.ends_with([' ', '\t', '\r', '\n', '[', ']', '(', ')', '{', '}', '.', ':', '!']),
                        "{form:?} of {options:?}"
                    );
                }
            }
        }
    }
}

#[test]
fn forms_are_not_repeated() {
    assert_eq!(make_flag("-v, -v", None).unwrap().forms, vec!["-v"]);
    assert_eq!(make_flag("-v, --verbose, -v", None).unwrap().forms, vec!["-v", "--verbose"]);
    assert_eq!(make_flag("--all|-a|--all=<x>|-a.", None).unwrap().forms, vec!["--all", "-a"]);
    assert_eq!(make_flag("-a -b -a -c -b", None).unwrap().forms, vec!["-a", "-b", "-c"]);
    for alphabet in [["-", "v", ",", " ", "=", "."], ["-", "a", "|", "b", "[", "]"]] {
        for options in texts(&alphabet, 6) {
            if let Some(flag) = make_flag(&options, None) {
                for (i, form) in flag.forms.iter().enumerate() {
                    assert!(!flag.forms[..i].contains(form), "{form:?} twice of {options:?}");
                }
            }
        }
    }
}

#[test]
fn a_trimmed_description_stays() {
    let long = format!("First.   Second.\t\nThird. {}", "x".repeat(90));
    for desc in ["", "a.  b", "One.\n\nTwo.   Three.", ". . .", "end.   ", ".\t.\t.", long.as_str()] {
        let once = trim_desc(desc);
        assert_eq!(trim_desc(&once), once, "{desc:?}");
    }
    for desc in texts(&[".", " ", "\t", "a", "\n"], 6) {
        let once = trim_desc(&desc);
        assert_eq!(trim_desc(&once), once, "{desc:?}");
    }
    assert_eq!(trim_desc("One. Two. Three."), "One. Two. Three.");
    assert_eq!(trim_desc("a.  b"), "a. b");
}
