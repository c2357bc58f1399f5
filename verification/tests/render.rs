use gitjournal::config::Config;
use gitjournal::document::{Date, Oid, ParsedCommit, ParsedTag};
use gitjournal::footers::{join_strings, wrap};
use gitjournal::output::{Color, Output, Piece, Sink};
use gitjournal::parser::Parser;
use gitjournal::render::{print_entry, replace_pairs, Palette, Print, Printed};
use gitjournal::template::Value;

const MESSAGE: &str = "JIRA-12 [Added] feature :ui: :v1.x:\n\nA paragraph\nsecond line :doc:\n\n- \
                       [Fixed] item one :ui:\n- plain item\n\nReviewed-by: Bob\nSigned-off-by: Al";

fn parse(message: &str, oid: Option<Oid>) -> ParsedCommit {
    let parser = Parser {
        config: Config::new(),
        result: vec![],
    };
    parser.parse_commit_message(message, oid).unwrap()
}

fn release(commits: Vec<ParsedCommit>) -> ParsedTag {
    ParsedTag {
        name: "v2".to_owned(),
        date: Date {
            year: 2016,
            month: 10,
            day: 5,
        },
        commits,
        message_ids: vec![],
    }
}

fn string(s: &str) -> Value {
    Value::String(s.to_owned())
}

fn table(entries: Vec<(&str, Value)>) -> Value {
    Value::Table(
        entries
            .into_iter()
            .map(|(k, v)| (k.to_owned(), v))
            .collect(),
    )
}

fn template(once: bool) -> Value {
    table(vec![
        (
            "header",
            table(vec![("once", Value::Boolean(once)), ("text", string("HEAD"))]),
        ),
        (
            "footer",
            table(vec![("once", Value::Boolean(once)), ("text", string("FOOT"))]),
        ),
        (
            "tags",
            Value::Array(vec![
                table(vec![("tag", string("default")), ("name", string("Default"))]),
                Value::Integer(3),
                table(vec![
                    ("tag", string("ui")),
                    ("name", string("User interface")),
                    ("footers", Value::Array(vec![string("Reviewed-by"), Value::Other])),
                    ("subtags", Value::Array(vec![table(vec![("tag", string("doc"))])])),
                ]),
            ]),
        ),
    ])
}

fn text_of(pieces: &[Piece]) -> String {
    pieces
        .iter()
        .filter_map(|p| match p {
            Piece::Char(c) => Some(*c),
            _ => None,
        })
        .collect()
}

fn printed(commit: &ParsedCommit, config: &Config, tag: Option<&str>) -> String {
    let mut out = Output::buffered();
    commit.print_default(&mut out, config, tag);
    out.to_text()
}

#[test]
fn commit_in_a_flat_listing() {
    let commit = parse(MESSAGE, None);
    assert_eq!(
        printed(&commit, &Config::new(), None),
        "\n- [Added] feature\n    A paragraph\n    second line\n    - [Fixed] item one\n    - plain item"
    );
}

#[test]
fn commit_in_a_section() {
    let commit = parse(MESSAGE, None);
    let config = Config::new();
    assert_eq!(
        printed(&commit, &config, Some("ui")),
        "\n- [Added] feature\n- [Fixed] item one"
    );
    assert_eq!(printed(&commit, &config, Some("default")), "\n- plain item");
    assert_eq!(
        printed(&commit, &config, Some("doc")),
        "\n- A paragraph\n  second line"
    );
    assert_eq!(printed(&commit, &config, Some("other")), "");
}

#[test]
fn paragraph_becomes_a_list_item_in_a_section() {
    let commit = parse("Added x\n\nwith  two spaces :t:\nnext  line", None);
    assert_eq!(
        printed(&commit, &Config::new(), Some("t")),
        "\n- with- two spaces\n  next  line"
    );
    let chars: Vec<char> = "   a    b ".chars().collect();
    let expected: Vec<char> = "-  a- - b ".chars().collect();
    assert_eq!(replace_pairs(&chars), expected);
    assert_eq!(
        replace_pairs(&chars).into_iter().collect::<String>(),
        "   a    b ".replace("  ", "- ")
    );
}

#[test]
fn prefix_and_hash_are_shown_on_demand() {
    let oid = Oid { bytes: [7; 20] };
    let commit = parse(MESSAGE, Some(oid));
    let mut config = Config::new();
    config.show_prefix = true;
    config.show_commit_hash = true;
    assert_eq!(
        printed(&commit, &config, None),
        "\n- JIRA-12 [Added] feature (0707070)\n    A paragraph\n    second line\n    - [Fixed] \
         item one\n    - plain item"
    );
    assert_eq!(
        printed(&commit, &config, Some("ui")),
        "\n- JIRA-12 [Added] feature (0707070)\n- [Fixed] item one (0707070)"
    );
    assert_eq!(
        printed(&commit, &config, Some("doc")),
        "\n- A paragraph (0707070)\n  second line (0707070)"
    );
    let commit = parse(MESSAGE, None);
    assert_eq!(
        printed(&commit, &config, Some("ui")),
        "\n- JIRA-12 [Added] feature\n- [Fixed] item one"
    );
}

#[test]
fn other_delimiters() {
    let mut config = Config::new();
    config.category_delimiters = vec!["<<".to_owned(), ">".to_owned()];
    let parser = Parser {
        config: config.clone(),
        result: vec![],
    };
    let commit = parser
        .parse_commit_message("<<Fixed> it\n\n- <<Added> that", None)
        .unwrap();
    assert_eq!(printed(&commit, &config, None), "\n- <<Fixed> it\n    - <<Added> that");
}

#[test]
fn excluded_tags_leave_elements_out() {
    let commit = parse(MESSAGE, None);
    let mut config = Config::new();
    config.excluded_commit_tags = vec!["ui".to_owned()];
    let mut out = Output::buffered();
    assert_eq!(
        commit.print(&mut out, &config, None, Palette { first: Color::Green, second: Color::Yellow }),
        Printed::Nothing
    );
    assert_eq!(out.to_text(), "");
    config.excluded_commit_tags = vec!["doc".to_owned()];
    let mut out = Output::buffered();
    assert_eq!(
        commit.print(&mut out, &config, None, Palette { first: Color::Green, second: Color::Yellow }),
        Printed::Something
    );
    assert_eq!(
        out.to_text(),
        "\n- [Added] feature\n    - [Fixed] item one\n    - plain item"
    );
    let mut out = Output::buffered();
    assert_eq!(
        commit.body[0].print(&mut out, &config, None, Palette { first: Color::Green, second: Color::Yellow }),
        Printed::Something
    );
    assert_eq!(out.to_text(), "");
}

#[test]
fn colors_go_to_a_terminal_only() {
    let commit = parse("Added x", None);
    let config = Config::new();
    let mut out = Output::terminal();
    commit.summary.print_default(&mut out, &config, None);
    assert_eq!(
        out.pieces().clone(),
        vec![
            Piece::Char('\n'),
            Piece::Char('-'),
            Piece::Char(' '),
            Piece::Foreground(Color::BrightBlue),
            Piece::Char('['),
            Piece::Char('A'),
            Piece::Char('d'),
            Piece::Char('d'),
            Piece::Char('e'),
            Piece::Char('d'),
            Piece::Char(']'),
            Piece::Char(' '),
            Piece::Foreground(Color::White),
            Piece::Char('x'),
            Piece::Reset,
        ]
    );
    for sink in [Sink::Buffer, Sink::TerminalFallback] {
        let mut out = Output::new(sink);
        commit.summary.print_default(&mut out, &config, None);
        assert_eq!(text_of(out.pieces()), "\n- [Added] x");
        assert_eq!(out.pieces().len(), 12);
    }
    let mut plain = Config::new();
    plain.colored_output = false;
    let mut out = Output::terminal();
    commit.summary.print_default(&mut out, &plain, None);
    assert_eq!(out.pieces().len(), 12);
}

#[test]
fn list_item_without_category_has_no_colors_but_the_reset() {
    let commit = parse("Added x\n\n- item", None);
    let mut out = Output::terminal();
    commit.body[0].print_default(&mut out, &Config::new(), None);
    let mut expected: Vec<Piece> = "\n    - item".chars().map(Piece::Char).collect();
    expected.push(Piece::Reset);
    assert_eq!(out.pieces().clone(), expected);
}

#[test]
fn heading_of_a_release() {
    let tag = release(vec![]);
    let mut out = Output::buffered();
    tag.print_default(&mut out, &Config::new());
    assert_eq!(out.to_text(), "\n# v2 (2016-10-05):");
    let mut out = Output::terminal();
    tag.print_default(&mut out, &Config::new());
    let mut expected = vec![Piece::Foreground(Color::Green)];
    expected.extend("\n# v2 ".chars().map(Piece::Char));
    expected.push(Piece::Foreground(Color::Yellow));
    expected.extend("(2016-10-05):".chars().map(Piece::Char));
    expected.push(Piece::Reset);
    assert_eq!(out.pieces().clone(), expected);
}

#[test]
fn compact_and_detailed_agree_without_a_body() {
    let commit = parse("Added x :a:\n\n# only a comment\n\nKey: value", None);
    assert_eq!(commit.body.len(), 0);
    for tag in [None, Some("a"), Some("default"), Some("b")] {
        let mut compact = Output::terminal();
        print_entry(&commit, &mut compact, &Config::new(), tag, true);
        let mut detailed = Output::terminal();
        print_entry(&commit, &mut detailed, &Config::new(), tag, false);
        assert_eq!(compact.pieces(), detailed.pieces());
    }
    let commit = parse(MESSAGE, None);
    let mut compact = Output::buffered();
    print_entry(&commit, &mut compact, &Config::new(), None, true);
    assert_eq!(compact.to_text(), "\n- [Added] feature");
}

#[test]
fn default_section_takes_the_elements_without_tags() {
    let tagged = parse("Added x :a:", None);
    let untagged = parse("Added x", None);
    let named = parse("Added x :default:", None);
    assert!(!tagged.summary.matches_default_tag(Some("default")));
    assert!(!tagged.summary.matches_default_tag(Some("a")));
    assert!(!tagged.summary.matches_default_tag(None));
    assert!(!tagged.summary.should_be_printed(Some("default")));
    assert!(tagged.summary.should_be_printed(Some("a")));
    assert!(tagged.summary.should_be_printed(None));
    assert!(untagged.summary.matches_default_tag(Some("default")));
    assert!(!untagged.summary.matches_default_tag(Some("a")));
    assert!(untagged.summary.should_be_printed(Some("default")));
    assert!(!untagged.summary.should_be_printed(Some("a")));
    assert!(untagged.summary.should_be_printed(None));
    assert!(!named.summary.matches_default_tag(Some("default")));
    assert!(named.summary.contains_tag(Some("default")));
    assert!(!named.summary.should_be_printed(Some("default")));
    assert!(named.summary.should_be_printed(None));
    assert!(untagged.summary.contains_untagged_elements());
    assert!(!tagged.summary.contains_untagged_elements());
    let commit = parse(MESSAGE, None);
    assert!(commit.contains_tag(Some("doc")));
    assert!(commit.contains_tag(Some("ui")));
    assert!(!commit.contains_tag(Some("v1.x")));
    assert!(commit.contains_tag(None));
    assert!(commit.contains_untagged_elements());
    assert!(!commit.summary.contains_untagged_elements());
    assert!(!commit.body[0].contains_untagged_elements());
    assert!(commit.body[1].contains_untagged_elements());
    assert!(commit.body[1].contains_tag(Some("ui")));
    assert!(!commit.body[1].contains_tag(Some("doc")));
}

#[test]
fn flat_release() {
    let tag = release(vec![parse(MESSAGE, None), parse("Fixed y\n\nReviewed-by: Al", None)]);
    let mut config = Config::new();
    let mut out = Output::buffered();
    tag.print_to_term_and_write_to_vector(&mut out, false, &config, None, (0, 1));
    assert_eq!(
        out.to_text(),
        "\n# v2 (2016-10-05):\n- [Added] feature\n    A paragraph\n    second line\n    - \
         [Fixed] item one\n    - plain item\n- [Fixed] y\n"
    );
    let mut out = Output::buffered();
    tag.print_to_term_and_write_to_vector(&mut out, true, &config, None, (0, 1));
    assert_eq!(
        out.to_text(),
        "\n# v2 (2016-10-05):\n- [Added] feature\n- [Fixed] y\n"
    );
    config.enable_footers = true;
    let mut out = Output::buffered();
    tag.print_to_term_and_write_to_vector(&mut out, false, &config, None, (0, 1));
    assert_eq!(
        out.to_text(),
        "\n# v2 (2016-10-05):\n- [Added] feature\n    A paragraph\n    second line\n    - \
         [Fixed] item one\n    - plain item\n- [Fixed] y\n\nReviewed-by:\nAl, Bob\n\nSigned-off-by:\nAl\n"
    );
    let mut out = Output::buffered();
    tag.print_to_term_and_write_to_vector(&mut out, true, &config, None, (0, 1));
    assert_eq!(
        out.to_text(),
        "\n# v2 (2016-10-05):\n- [Added] feature\n- [Fixed] y\n"
    );
}

#[test]
fn footers_of_a_release() {
    let oid = Oid { bytes: [0xa1; 20] };
    let tag = release(vec![
        parse("Added x\n\nB: two\nA: one", Some(oid)),
        parse("Added y\n\nB: one\nC: three\nB: one", None),
    ]);
    let mut config = Config::new();
    let mut out = Output::buffered();
    tag.print_footers(&mut out, None, &config);
    assert_eq!(
        out.to_text(),
        "\nA:\none\n\nB:\none, one, two\n\nC:\nthree\n"
    );
    let keys = vec![string("C"), Value::Boolean(true), string("B"), string("D")];
    let mut out = Output::buffered();
    tag.print_footers(&mut out, Some(&keys), &config);
    assert_eq!(out.to_text(), "\nB:\none, one, two\n\nC:\nthree\n");
    let mut out = Output::buffered();
    tag.print_footers(&mut out, Some(&vec![Value::Integer(1)]), &config);
    assert_eq!(
        out.to_text(),
        "\nA:\none\n\nB:\none, one, two\n\nC:\nthree\n"
    );
    config.show_commit_hash = true;
    let mut out = Output::buffered();
    tag.print_footers(&mut out, Some(&vec![string("B")]), &config);
    assert_eq!(out.to_text(), "\nB:\none, one, two (a1a1a1a)\n");
    config.colored_output = false;
    let mut out = Output::terminal();
    tag.print_footers(&mut out, Some(&vec![string("A")]), &config);
    let mut expected: Vec<Piece> = "\nA:\n".chars().map(Piece::Char).collect();
    expected.push(Piece::Reset);
    expected.extend("one (a1a1a1a)\n".chars().map(Piece::Char));
    assert_eq!(out.pieces().clone(), expected);
    config.colored_output = true;
    let mut out = Output::terminal();
    tag.print_footers(&mut out, Some(&vec![string("A")]), &config);
    let mut colored = vec![Piece::Foreground(Color::BrightRed)];
    colored.extend(expected);
    assert_eq!(out.pieces().clone(), colored);
}

#[test]
fn long_lines_of_footers_are_broken_at_spaces() {
    let long: String = "a".repeat(101);
    let line: Vec<char> = format!("{} b c", long).chars().collect();
    let expected: Vec<char> = format!("{}\nb c", long).chars().collect();
    assert_eq!(wrap(&line), expected);
    let short: String = "a".repeat(100);
    let line: Vec<char> = format!("{} b{} c d", short, short).chars().collect();
    let expected: Vec<char> = format!("{} b{}\nc d", short, short).chars().collect();
    assert_eq!(wrap(&line), expected);
    let line: Vec<char> = format!("{}  b", long).chars().collect();
    let expected: Vec<char> = format!("{}\n b", long).chars().collect();
    assert_eq!(wrap(&line), expected);
    let joined = join_strings(&vec!["a".to_owned(), "".to_owned(), "b c".to_owned()], ", ");
    assert_eq!(joined.into_iter().collect::<String>(), "a, , b c");
    assert_eq!(join_strings(&vec![], ", "), Vec::<char>::new());
    assert_eq!(join_strings(&vec!["a".to_owned()], ", "), vec!['a']);
}

#[test]
fn release_through_a_template() {
    let tag = release(vec![parse(MESSAGE, None)]);
    let config = Config::new();
    let root = template(true);
    let mut out = Output::buffered();
    tag.print_to_term_and_write_to_vector(&mut out, false, &config, Some(&root), (0, 1));
    assert_eq!(
        out.to_text(),
        "\nHEAD\n\n# v2 (2016-10-05):\n## Default\n- plain item\n\n### doc\n- A paragraph\n  \
         second line\n\n## User interface\n- [Added] feature\n- [Fixed] item one\n\nReviewed-by:\nBob\n\nFOOT\n"
    );
    let mut out = Output::buffered();
    tag.print_to_term_and_write_to_vector(&mut out, true, &config, Some(&root), (0, 1));
    assert_eq!(
        out.to_text(),
        "\nHEAD\n\n# v2 (2016-10-05):\n## User interface\n- [Added] feature\n\nReviewed-by:\nBob\n\nFOOT\n"
    );
}

#[test]
fn header_and_footer_of_a_template() {
    let tag = release(vec![]);
    let config = Config::new();
    let heading = "\n# v2 (2016-10-05):";
    let once = template(true);
    let each = template(false);
    let cases = [
        (&once, (0, 3), format!("\nHEAD\n{}", heading)),
        (&once, (1, 3), heading.to_owned()),
        (&once, (2, 3), format!("{}\nFOOT\n", heading)),
        (&once, (0, 1), format!("\nHEAD\n{}\nFOOT\n", heading)),
        (&each, (1, 3), format!("\nHEAD\n{}\nFOOT\n", heading)),
    ];
    for (root, index_len, expected) in cases {
        let mut out = Output::buffered();
        tag.print_to_term_and_write_to_vector(&mut out, false, &config, Some(root), index_len);
        assert_eq!(out.to_text(), expected);
    }
    let empty = table(vec![
        ("header", table(vec![("text", string(""))])),
        ("footer", table(vec![("once", string("yes")), ("text", string("F"))])),
    ]);
    let mut out = Output::buffered();
    tag.print_to_term_and_write_to_vector(&mut out, false, &config, Some(&empty), (1, 3));
    assert_eq!(out.to_text(), format!("{}\nF\n", heading));
    let mut out = Output::buffered();
    tag.print_to_term_and_write_to_vector(&mut out, false, &config, Some(&string("x")), (1, 3));
    assert_eq!(out.to_text(), heading);
}

#[test]
fn excluded_section_is_not_printed() {
    let tag = release(vec![parse("Added x :ui:\n\n- item :ui:\n- other", None)]);
    let mut config = Config::new();
    let root = table(vec![(
        "tags",
        Value::Array(vec![table(vec![("tag", string("ui"))]), table(vec![("tag", string("default"))])]),
    )]);
    let mut out = Output::buffered();
    tag.print_commits_in_table(
        &mut out,
        match &root {
            Value::Table(t) => t,
            _ => unreachable!(),
        },
        1,
        &config,
        false,
    );
    assert_eq!(
        out.to_text(),
        "\n## ui\n- [Added] x\n- item\n\n## default\n- other\n"
    );
    config.excluded_commit_tags = vec!["ui".to_owned()];
    let mut out = Output::buffered();
    tag.print_commits_in_table(
        &mut out,
        match &root {
            Value::Table(t) => t,
            _ => unreachable!(),
        },
        1,
        &config,
        false,
    );
    assert_eq!(out.to_text(), "\n## default\n");
}

#[test]
fn section_heading_is_red_and_always_reset() {
    let tag = release(vec![parse("Added x :ui:", None)]);
    let section = vec![("tag".to_owned(), string("ui"))];
    let mut config = Config::new();
    let mut out = Output::terminal();
    tag.print_section(&mut out, &section, 2, &config, true);
    let mut expected = vec![Piece::Foreground(Color::BrightRed)];
    expected.extend("\n## ui".chars().map(Piece::Char));
    expected.push(Piece::Reset);
    expected.extend("\n- ".chars().map(Piece::Char));
    expected.push(Piece::Foreground(Color::BrightBlue));
    expected.extend("[Added] ".chars().map(Piece::Char));
    expected.push(Piece::Foreground(Color::White));
    expected.push(Piece::Char('x'));
    expected.push(Piece::Reset);
    expected.push(Piece::Char('\n'));
    assert_eq!(out.pieces().clone(), expected);
    config.colored_output = false;
    let mut out = Output::terminal();
    tag.print_section(&mut out, &section, 0, &config, true);
    let mut expected: Vec<Piece> = "\n ui".chars().map(Piece::Char).collect();
    expected.push(Piece::Reset);
    expected.extend("\n- [Added] x\n".chars().map(Piece::Char));
    assert_eq!(out.pieces().clone(), expected);
    let no_tag = vec![("name".to_owned(), string("ui"))];
    let mut out = Output::terminal();
    tag.print_section(&mut out, &no_tag, 2, &config, true);
    assert_eq!(out.pieces().len(), 0);
    let odd_tag = vec![("tag".to_owned(), Value::Integer(1))];
    let mut out = Output::terminal();
    tag.print_section(&mut out, &odd_tag, 2, &config, true);
    assert_eq!(out.pieces().len(), 0);
}

#[test]
fn log_ends_with_a_line_feed_on_a_terminal() {
    let parser = Parser {
        config: Config::new(),
        result: vec![release(vec![parse("Added x", None)]), release(vec![parse("Fixed y", None)])],
    };
    let mut out = Output::buffered();
    parser.print(true, None, &mut out);
    assert_eq!(
        out.to_text(),
        "\n# v2 (2016-10-05):\n- [Added] x\n\n# v2 (2016-10-05):\n- [Fixed] y\n"
    );
    assert!(out.is_buffered());
    for sink in [Sink::Terminal, Sink::TerminalFallback] {
        let mut out = Output::new(sink);
        parser.print(true, None, &mut out);
        assert_eq!(
            text_of(out.pieces()),
            "\n# v2 (2016-10-05):\n- [Added] x\n\n# v2 (2016-10-05):\n- [Fixed] y\n\n"
        );
        assert!(!out.is_buffered());
    }
    let root = template(true);
    let mut out = Output::buffered();
    parser.print(true, Some(&root), &mut out);
    assert_eq!(
        out.to_text(),
        "\nHEAD\n\n# v2 (2016-10-05):\n## Default\n- [Added] x\n\n# v2 (2016-10-05):\n## \
         Default\n- [Fixed] y\n\nFOOT\n"
    );
    let mut out = Output::buffered();
    Parser { config: Config::new(), result: vec![] }.print(false, None, &mut out);
    assert_eq!(out.to_text(), "");
}

#[test]
fn output_records_what_is_written() {
    let mut out = Output::terminal();
    out.write_str("ab");
    out.fg(Color::Yellow);
    out.write_char('c');
    out.reset();
    out.write_chars(&vec!['d']);
    assert_eq!(
        out.pieces().clone(),
        vec![
            Piece::Char('a'),
            Piece::Char('b'),
            Piece::Foreground(Color::Yellow),
            Piece::Char('c'),
            Piece::Reset,
            Piece::Char('d'),
        ]
    );
    assert_eq!(out.to_text(), "abcd");
    assert!(out.is_colored());
    let mut out = Output::buffered();
    out.write_str("ab");
    out.fg(Color::Yellow);
    out.reset();
    assert_eq!(out.pieces().clone(), vec![Piece::Char('a'), Piece::Char('b')]);
    assert!(!out.is_colored());
}

#[test]
fn element_tagged_default_is_not_in_the_default_section() {
    let commit = parse(
        "Added x :default:\n\nText :default, a:\n\n- item :default:\n- other item",
        None,
    );
    let config = Config::new();
    assert_eq!(printed(&commit, &config, Some("default")), "\n- other item");
    assert_eq!(printed(&commit, &config, Some("a")), "\n- Text");
    assert!(!commit.body[0].should_be_printed(Some("default")));
    assert!(commit.body[1].should_be_printed(Some("default")));
    assert!(commit.should_be_printed(Some("default")));
    let only_tagged = parse("Added x :default:\n\n- item :default:", None);
    assert!(!only_tagged.should_be_printed(Some("default")));
    assert!(only_tagged.contains_tag(Some("default")));
    assert_eq!(printed(&only_tagged, &config, Some("default")), "");
    let section = vec![("tag".to_owned(), string("default"))];
    for compact in [false, true] {
        let mut out = Output::buffered();
        release(vec![only_tagged.clone()]).print_section(&mut out, &section, 2, &config, compact);
        assert_eq!(out.to_text(), "");
    }
    let mut out = Output::buffered();
    release(vec![commit.clone()]).print_section(&mut out, &section, 2, &config, false);
    assert_eq!(out.to_text(), "\n## default\n- other item\n");
    let mut out = Output::buffered();
    release(vec![commit]).print_section(&mut out, &section, 2, &config, true);
    assert_eq!(out.to_text(), "");
}

#[test]
fn default_section_is_printed_even_if_its_name_is_excluded() {
    let mut config = Config::new();
    config.excluded_commit_tags = vec!["default".to_owned()];
    let section = vec![("tag".to_owned(), string("default"))];
    let mut out = Output::buffered();
    release(vec![parse("Added x", None)]).print_section(&mut out, &section, 2, &config, true);
    assert_eq!(out.to_text(), "\n## default\n- [Added] x\n");
}
