use gen_completions::pattern::{
    contains_pattern, find_at, lines_chars, lit, replace_all_chars, replace_first_chars, split_chars,
    split_once_chars, Pattern,
};
use gen_completions::text::{
    chars_of, decimal_string, holds, in_set, join_strings, same_chars, string_of, trim_chars,
    trim_end_chars, trim_set_chars,
};
use regex::{Regex, RegexBuilder};

fn all(p: &Pattern, text: &str, to: &str) -> String {
    string_of(&replace_all_chars(p, &chars_of(text), &chars_of(to)))
}

fn first(p: &Pattern, text: &str, to: &str) -> String {
    string_of(&replace_first_chars(p, &chars_of(text), &chars_of(to)))
}

fn pieces(p: &Pattern, text: &str) -> Vec<String> {
    split_chars(p, &chars_of(text)).iter().map(string_of).collect()
}

#[test]
fn literal_matches_do_not_overlap() {
    assert_eq!(all(&lit("aa"), "aaaaa", "b"), "bba");
    assert_eq!(all(&lit("ab"), "abab", ""), "");
    assert_eq!(all(&lit("x"), "abc", "y"), "abc");
    assert_eq!(all(&lit("é"), "café é", "e"), "cafe e");
}

#[test]
fn empty_literal_matches_nothing() {
    assert_eq!(all(&lit(""), "abc", "-"), "abc");
    assert_eq!(pieces(&lit(""), "abc"), vec!["abc"]);
    assert!(!contains_pattern(&lit(""), &chars_of("abc")));
}

#[test]
fn first_match_only() {
    assert_eq!(first(&lit("a"), "banana", "A"), "bAnana");
    assert_eq!(first(&lit("z"), "banana", "A"), "banana");
}

#[test]
fn split_gives_one_piece_more_than_matches() {
    assert_eq!(pieces(&lit(","), "a,b,,c,"), vec!["a", "b", "", "c", ""]);
    assert_eq!(pieces(&lit(","), ""), vec![""]);
    assert_eq!(pieces(&lit(".PP"), "x.PPy.PP"), vec!["x", "y", ""]);
    assert_eq!(pieces(&Pattern::OneOf(chars_of(" ,=\"|")), "-a, --all=X|y"), vec!["-a", "", "--all", "X", "y"]);
}

#[test]
fn split_once_at_first_match() {
    let (a, b) = split_once_chars(&lit("\n"), &chars_of("one\ntwo\nthree")).unwrap();
    assert_eq!((string_of(&a), string_of(&b)), ("one".to_string(), "two\nthree".to_string()));
    assert_eq!(split_once_chars(&lit("\n"), &chars_of("one")), None);
}

#[test]
fn find_gives_index_and_length() {
    let text = chars_of("ab.TP 4i\ncd");
    assert_eq!(find_at(&Pattern::ListItem, &text, 0), Some((2, 6)));
    assert_eq!(find_at(&Pattern::ListItem, &text, 3), None);
    assert_eq!(find_at(&lit("cd"), &text, 0), Some((9, 2)));
    assert_eq!(find_at(&lit("cd"), &text, 50), None);
}

#[test]
fn paragraph_distance() {
    assert_eq!(all(&Pattern::ParagraphDistance, "a.PD 0b.PD 12c", ""), "abc");
    assert_eq!(all(&Pattern::ParagraphDistance, ".PD\n.PD x.PD", ""), ".PD\n.PD x.PD");
}

#[test]
fn quote_glyphs() {
    assert_eq!(all(&Pattern::QuoteGlyph, "\\(oqa\\(cq \\(aq\\(dq\\(lq\\(rq", "'"), "'a' ''''");
    assert_eq!(all(&Pattern::QuoteGlyph, "\\(xq \\(o", "'"), "\\(xq \\(o");
}

#[test]
fn line_space_with_amount() {
    let p = Pattern::LineSpace;
    assert_eq!(all(&p, "a.spb", ""), "ab");
    assert_eq!(all(&p, ".sp 1\n", ""), "\n");
    assert_eq!(all(&p, ".sp 1.5v;", ""), ";");
    assert_eq!(all(&p, ".sp 10v.sp 2.5", ""), "");
    assert_eq!(all(&p, ".sp 1.", ""), ".");
    assert_eq!(all(&p, ".sp x", ""), " x");
    assert_eq!(all(&p, ".sp  1", ""), "  1");
    assert_eq!(all(&p, ".sp 12.34v", ""), "4v");
    assert_eq!(all(&p, ".sp 1i", ""), "i");
}

#[test]
fn list_items_with_amount() {
    let p = Pattern::ListItem;
    assert_eq!(pieces(&p, "x.IP 4\ny.TP\nz.TP 0.5i w"), vec!["x", "\ny", "\nz", " w"]);
    assert_eq!(pieces(&p, ".HP\n.PP"), vec![".HP\n.PP"]);
}

#[test]
fn sentence_gaps() {
    let p = Pattern::SentenceGap;
    assert_eq!(all(&p, "a. b.\n\n c.d. ", ". "), "a. b. c.d. ");
    assert_eq!(all(&p, "a.\u{a0}\u{2003}b", ". "), "a. b");
    assert_eq!(all(&p, ".", ". "), ".");
}

#[test]
fn paragraph_ends() {
    let find = |t: &str| find_at(&Pattern::ParagraphEnd, &chars_of(t), 0);
    assert_eq!(find("ab.IPc"), Some((2, 3)));
    assert_eq!(find("ab.TP"), Some((2, 3)));
    assert_eq!(find("ab.SH"), Some((2, 3)));
    assert_eq!(find(".UNINDENT"), Some((0, 9)));
    assert_eq!(find(".UNIX"), Some((0, 3)));
    assert_eq!(find(".PP .RE .U"), None);
}

#[test]
fn hanging_paragraphs() {
    let start = |t: &str| find_at(&Pattern::HangingStart, &chars_of(t), 0);
    let end = |t: &str| find_at(&Pattern::HangingEnd, &chars_of(t), 0);
    assert_eq!(start(".PP.HP"), Some((3, 3)));
    assert_eq!(start(".TP"), Some((0, 3)));
    assert_eq!(start(".PP.IP"), None);
    assert_eq!(end(".IP.PP"), Some((3, 3)));
    assert_eq!(end("x.HP"), Some((1, 3)));
}

#[test]
fn bracketed_text_is_greedy_within_the_line() {
    let p = Pattern::Bracketed;
    assert_eq!(first(&p, "a[b]c[d]e", ""), "ae");
    assert_eq!(first(&p, "-f[=FILE]", ""), "-f");
    assert_eq!(first(&p, "a[b\nc]d", ""), "a[b\nc]d");
    assert_eq!(first(&p, "a[b\nc[d]e", ""), "a[b\nce");
    assert_eq!(first(&p, "a]b[c", ""), "a]b[c");
    assert_eq!(first(&p, "[]", ""), "");
    assert_eq!(first(&p, "[[]]x]\n]", ""), "\n]");
}

#[test]
fn placeholder_goes_to_the_end_of_the_line() {
    let p = Pattern::Placeholder;
    assert_eq!(first(&p, "--file<path> x\ny<z", ""), "--file\ny<z");
    assert_eq!(first(&p, "<", ""), "");
    assert_eq!(first(&p, "a>b", ""), "a>b");
}

#[test]
fn hyphen_group_needs_the_last_line() {
    let p = Pattern::HyphenGroup;
    assert_eq!(first(&p, "--foo=(+|-)x", ""), "--foo=(+|");
    assert_eq!(first(&p, "--foo-[bar]", ""), "--foo");
    assert_eq!(first(&p, "a-(b\nc", ""), "a-(b\nc");
    assert_eq!(first(&p, "a-(b\nc-]d", ""), "a-(b\nc");
    assert_eq!(first(&p, "a-b", ""), "a-b");
    assert_eq!(first(&p, "a-", ""), "a-");
}

#[test]
fn rest_of_the_text() {
    let p = Pattern::Rest(chars_of(".SS"));
    assert_eq!(first(&p, "desc\n.SS heading\nmore", ""), "desc\n");
    assert_eq!(first(&p, "desc", ""), "desc");
}

#[test]
fn lines_of_a_text() {
    let lines = |t: &str| -> Vec<String> { lines_chars(&chars_of(t)).iter().map(string_of).collect() };
    assert_eq!(lines(""), Vec::<String>::new());
    assert_eq!(lines("a"), vec!["a"]);
    assert_eq!(lines("a\n"), vec!["a"]);
    assert_eq!(lines("a\n\n"), vec!["a", ""]);
    assert_eq!(lines("a\r\nb\r"), vec!["a", "b\r"]);
    assert_eq!(lines("\n"), vec![""]);
    for t in ["", "a", "a\n", "a\n\nb", "a\r\nb\r", "\n", "\r\n\r\n", "x\ry\n"] {
        assert_eq!(lines(t), t.lines().collect::<Vec<_>>());
    }
}

#[test]
fn trimming() {
    let trim = |t: &str| string_of(&trim_chars(&chars_of(t)));
    assert_eq!(trim("  a b \n\t"), "a b");
    assert_eq!(trim("\u{a0}\u{3000}x\u{2028}\u{85}"), "x");
    assert_eq!(trim(" \n "), "");
    assert_eq!(trim("\u{200b}x"), "\u{200b}x");
    for t in ["  a b \n\t", "\u{a0}\u{3000}x\u{2028}\u{85}\u{1680}", "", "\u{b}\u{c}\r x\u{205f}\u{202f}\u{2029}"] {
        assert_eq!(trim(t), t.trim());
    }
    let set = chars_of(".,");
    assert_eq!(string_of(&trim_set_chars(&chars_of(",.a.,b,."), &set)), "a.,b");
    assert_eq!(string_of(&trim_end_chars(&chars_of(",.a.,b,."), &set)), ",.a.,b");
    assert_eq!(string_of(&trim_end_chars(&chars_of("..."), &set)), "");
}

#[test]
fn small_helpers() {
    assert!(in_set(&chars_of("abc"), 'b'));
    assert!(!in_set(&chars_of("abc"), 'd'));
    assert!(same_chars(&chars_of("abc"), &chars_of("abc")));
    assert!(!same_chars(&chars_of("abc"), &chars_of("abd")));
    assert!(!same_chars(&chars_of("abc"), &chars_of("ab")));
    assert!(holds(&vec!["a".to_string(), "b".to_string()], &"b".to_string()));
    assert!(!holds(&vec!["a".to_string()], &"b".to_string()));
    assert_eq!(join_strings(&vec!["a".to_string(), "".to_string(), "c".to_string()], ", "), "a, , c");
    assert_eq!(join_strings(&vec![], ", "), "");
    assert_eq!(join_strings(&vec!["x".to_string()], ", "), "x");
    assert_eq!(decimal_string(0), "0");
    assert_eq!(decimal_string(7), "7");
    assert_eq!(decimal_string(10), "10");
    assert_eq!(decimal_string(12345), "12345");
    assert_eq!(decimal_string(usize::MAX), usize::MAX.to_string());
}

/// Every text of at most `max` pieces out of `alphabet`
fn texts_of(alphabet: &[&str], max: usize) -> Vec<String> {
    let mut found = vec![String::new()];
    let mut longest = vec![String::new()];
    for _ in 0..max {
        let mut next = Vec::new();
        for text in &longest {
            for piece in alphabet {
                next.push(format!("{text}{piece}"));
            }
        }
        found.extend(next.iter().cloned());
        longest = next;
    }
    found
}

/// The matches of `p` in `text` from left to right, none over another: the
/// index and the length of each, in characters
fn marker_matches(p: &Pattern, text: &str) -> Vec<(usize, usize)> {
    let chars = chars_of(text);
    let mut found = Vec::new();
    let mut from = 0;
    while let Some((at, len)) = find_at(p, &chars, from) {
        found.push((at, len));
        from = at + len;
    }
    found
}

/// The matches of `re` in `text`, counted in characters
fn expression_matches(re: &Regex, text: &str) -> Vec<(usize, usize)> {
    re.find_iter(text)
        .map(|m| (text[..m.start()].chars().count(), m.as_str().chars().count()))
        .collect()
}

/// Holds the marker `p` against the expression `re` on every text of at
/// most `max` pieces out of `alphabet`: where they find, what they replace
/// by `to` and where they split.
fn same_as_expression(p: &Pattern, re: &Regex, to: &str, alphabet: &[&str], max: usize) {
    for text in texts_of(alphabet, max) {
        let chars = chars_of(&text);
        assert_eq!(marker_matches(p, &text), expression_matches(re, &text), "matches in {text:?}");
        assert_eq!(contains_pattern(p, &chars), re.is_match(&text), "a match in {text:?}");
        assert_eq!(all(p, &text, to), re.replace_all(&text, regex::NoExpand(to)), "all replaced in {text:?}");
        assert_eq!(first(p, &text, to), re.replace(&text, regex::NoExpand(to)), "first replaced in {text:?}");
        assert_eq!(pieces(p, &text), re.split(&text).collect::<Vec<_>>(), "split of {text:?}");
        let halves = split_once_chars(p, &chars).map(|(a, b)| vec![string_of(&a), string_of(&b)]);
        let expected: Vec<&str> = re.splitn(&text, 2).collect();
        match halves {
            Some(halves) => assert_eq!(halves, expected, "split once of {text:?}"),
            None => assert_eq!(vec![text.as_str()], expected, "split once of {text:?}"),
        }
    }
}

fn expression(pattern: &str) -> Regex {
    Regex::new(pattern).unwrap()
}

fn expression_over_lines(pattern: &str) -> Regex {
    RegexBuilder::new(pattern).dot_matches_new_line(true).build().unwrap()
}

#[test]
fn literal_as_the_expression() {
    same_as_expression(&lit("ab"), &expression("ab"), "-", &["a", "b", "c"], 8);
    same_as_expression(&lit("aa"), &expression("aa"), "x", &["a", "b"], 10);
    same_as_expression(&lit("\n.SH"), &expression(r"\n\.SH"), "", &["\n", ".", "S", "H", ".SH"], 6);
    same_as_expression(&lit(".It Fl"), &expression(r"\.It Fl"), "", &[".It", " ", "Fl", "x"], 6);
    same_as_expression(&lit("é"), &expression("é"), "e", &["é", "e", "ü"], 7);
    same_as_expression(&lit("{}()"), &expression(r"\{\}\(\)"), "", &["{", "}", "(", ")", "{}", "()"], 6);
}

#[test]
fn one_of_as_the_expression() {
    let delimiters = Pattern::OneOf(chars_of(" ,=\"|"));
    same_as_expression(&delimiters, &expression(r#"[ ,="|]"#), "/", &[" ", ",", "=", "\"", "|", "a"], 6);
    same_as_expression(&Pattern::OneOf(chars_of("é-")), &expression("[é-]"), "", &["é", "-", "e", "a"], 7);
}

#[test]
fn rest_as_the_expression() {
    let section = Pattern::Rest(chars_of(".SS"));
    same_as_expression(&section, &expression_over_lines(r"\.SS.*"), "", &[".", "S", "a", "\n"], 8);
    same_as_expression(&section, &expression_over_lines(r"\.SS.*"), "!", &[".SS", "é", "\n"], 7);
    let list_end = Pattern::Rest(chars_of("\n.El"));
    same_as_expression(&list_end, &expression_over_lines(r"\n\.El.*+"), "", &["\n", ".El", "a"], 7);
}

#[test]
fn paragraph_distance_as_the_expression() {
    let re = expression(r"\.PD \d+");
    same_as_expression(&Pattern::ParagraphDistance, &re, "", &[".", "P", "D", " ", "1", "x"], 6);
    same_as_expression(&Pattern::ParagraphDistance, &re, "#", &[".PD", " ", "0", "42", "x"], 7);
    same_as_expression(&Pattern::ParagraphDistance, &re, "", &[".PD", " ", "1", "٣", "৪", "x", "Ⅳ"], 5);
}

#[test]
fn quote_glyph_as_the_expression() {
    let re = expression(r"\\\([ocadlr]q");
    same_as_expression(&Pattern::QuoteGlyph, &re, "'", &["\\", "(", "a", "q", "r", "x"], 6);
    same_as_expression(&Pattern::QuoteGlyph, &re, "'", &["\\(", "o", "c", "d", "l", "q", "b"], 5);
}

#[test]
fn line_space_as_the_expression() {
    let re = expression(r"\.sp( (\d+(\.\d)?)v?)?");
    same_as_expression(&Pattern::LineSpace, &re, "", &[".sp", " ", "1", ".", "v", "x"], 6);
    same_as_expression(&Pattern::LineSpace, &re, "\n", &[".", "s", "p", " ", "7", "v"], 6);
    same_as_expression(&Pattern::LineSpace, &re, "", &[".sp", " ", "२", ".", "v", "٣"], 6);
}

#[test]
fn sentence_gap_as_the_expression() {
    let re = expression(r"\.\s+");
    same_as_expression(&Pattern::SentenceGap, &re, ". ", &[".", " ", "\n", "\t", "a"], 7);
    same_as_expression(&Pattern::SentenceGap, &re, ". ", &[".", "\u{a0}", "\u{2003}", "\r", "\u{b}", "é"], 6);
}

#[test]
fn list_item_as_the_expression() {
    let re = expression(r"\.[IT]P( (\d+(\.\d)?)i?)?");
    same_as_expression(&Pattern::ListItem, &re, "", &[".IP", ".TP", ".PP", " ", "4", ".", "i"], 5);
    same_as_expression(&Pattern::ListItem, &re, "|", &[".", "I", "T", "P", " ", "1"], 6);
    same_as_expression(&Pattern::ListItem, &re, "", &[".IP", " ", "४", ".", "i", "x"], 6);
}

#[test]
fn paragraph_end_as_the_expression() {
    let re = expression(r"\.(IP|TP|UNINDENT|UN|SH)");
    same_as_expression(&Pattern::ParagraphEnd, &re, "", &[".", "IP", "TP", "UN", "INDENT", "SH", "x"], 5);
    same_as_expression(&Pattern::ParagraphEnd, &re, "#", &[".UN", "IND", "ENT", ".S", "H", "P"], 6);
}

#[test]
fn hanging_paragraph_as_the_expression() {
    let start = expression(r"\.[HT]P");
    same_as_expression(&Pattern::HangingStart, &start, "", &[".", "H", "T", "P", "x"], 7);
    let end = expression(r"\.[HPT]P");
    same_as_expression(&Pattern::HangingEnd, &end, "", &[".", "H", "T", "P", "x"], 7);
    same_as_expression(&Pattern::HangingEnd, &end, "\n", &[".HP", ".PP", ".TP", ".IP", "P"], 6);
}

#[test]
fn bracketed_as_the_expression() {
    let re = expression(r"\[.*\]");
    same_as_expression(&Pattern::Bracketed, &re, "", &["[", "]", "a", "\n"], 8);
    same_as_expression(&Pattern::Bracketed, &re, "()", &["[", "]", "é", "\r", "\n"], 6);
}

#[test]
fn placeholder_as_the_expression() {
    let re = expression(r"<.*");
    same_as_expression(&Pattern::Placeholder, &re, "", &["<", ">", "a", "\n"], 8);
    same_as_expression(&Pattern::Placeholder, &re, "x", &["<", "é", "\n", "\r"], 7);
}

#[test]
fn hyphen_group_as_the_expression() {
    let re = expression(r"-[()\[\]].*$");
    same_as_expression(&Pattern::HyphenGroup, &re, "", &["-", "(", ")", "[", "]", "a", "\n"], 6);
    same_as_expression(&Pattern::HyphenGroup, &re, "!", &["-(", "-]", "é", "\n", "-"], 6);
}
