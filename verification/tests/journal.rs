use gitjournal::config::Config;
use gitjournal::correlate::LogEntry;
use gitjournal::document::{Date, Oid};
use gitjournal::correlate::{correlate, Correlation, WorkItem};
use gitjournal::document::ParsedTag;
use gitjournal::journal::{
    choose_template, hook_update, is_fixed, prepare_message, GitJournal, ParseReport,
    TemplateChoice, VerifyError,
};
use gitjournal::output::Output;
use gitjournal::parser::ParseError;
use gitjournal::tags::Tags;
use gitjournal::template::{tags_of_table, Value};

fn oid(n: u8) -> Oid {
    Oid { bytes: [n; 20] }
}

fn today() -> Date {
    Date {
        year: 2017,
        month: 1,
        day: 2,
    }
}

fn string(s: &str) -> Value {
    Value::String(s.to_owned())
}

fn table(entries: Vec<(&str, Value)>) -> Value {
    Value::Table(
        entries
            .into_iter()
            .map(|(k, v)| (k.to_owned(), v))
            .collect(),
    )
}

fn section(tag: &str, name: &str) -> Value {
    table(vec![
        ("tag", string(tag)),
        ("name", string(name)),
        ("footers", Value::Array(vec![])),
    ])
}

/// A template with the sections `default`, `tag1`, `tag2` and, nested in the
/// latter, `tag3`.
fn template() -> Value {
    table(vec![
        (
            "header",
            table(vec![("once", Value::Boolean(false)), ("text", string(""))]),
        ),
        (
            "tags",
            Value::Array(vec![
                section("default", "Default"),
                section("tag1", "Section 1"),
                table(vec![
                    ("tag", string("tag2")),
                    ("subtags", Value::Array(vec![section("tag3", "Subsection 3")])),
                ]),
            ]),
        ),
    ])
}

/// The journal of a repository with the tags `v1` and `v2`.
fn journal() -> GitJournal {
    GitJournal::new(
        "./tests/test_repo".to_owned(),
        Config::new(),
        vec![(oid(2), "v1".to_owned()), (oid(3), "v2".to_owned())],
    )
}

/// Eighteen commits, the newest first: fifteen after `v2`, the commit of
/// `v2`, the commit of `v1` and one before it.
fn history() -> Vec<LogEntry> {
    let mut commits = vec![];
    for n in (1..=18u8).rev() {
        let message = match n % 3 {
            0 => format!("Added thing {} :tag1:\n\nSome text\n\nReviewed-by: R{}", n, n),
            1 => format!("JIRA-{} [Fixed] thing {}\n\n- [Changed] item :tag2:\n- other item", n, n),
            _ => format!("Changed thing {} :tag3:", n),
        };
        commits.push(LogEntry {
            id: oid(n),
            message,
            date: Date {
                year: 2016,
                month: 10,
                day: n as u32,
            },
        });
    }
    commits
}

fn print_all(journal: &GitJournal) -> Vec<String> {
    let root = template();
    let mut texts = vec![];
    for template in [None, Some(&root)] {
        for compact in [false, true] {
            let mut file = Output::buffered();
            journal.print_log(compact, template, &mut file);
            let mut term = Output::terminal();
            journal.print_log(compact, template, &mut term);
            assert_eq!(format!("{}\n", file.to_text()), term.to_text());
            assert!(term.pieces().len() > file.pieces().len());
            texts.push(file.to_text());
        }
    }
    texts
}

#[test]
fn parse_and_print_log_1() {
    let mut journal = journal();
    assert_eq!(journal.tags.len(), 2);
    assert_eq!(journal.parser.result.len(), 0);
    assert_eq!(journal.config.show_prefix, false);
    assert_eq!(journal.config.colored_output, true);
    assert_eq!(journal.config.show_commit_hash, false);
    assert_eq!(journal.config.excluded_commit_tags.len(), 0);
    let report = journal.parse_log(&history(), "rc", 0, true, false, today());
    assert_eq!(report.processed, 18);
    assert_eq!(report.failures.len(), 0);
    assert_eq!(journal.parser.result.len(), journal.tags.len() + 1);
    assert_eq!(journal.parser.result[0].commits.len(), 15);
    assert_eq!(journal.parser.result[1].commits.len(), 1);
    assert_eq!(journal.parser.result[2].commits.len(), 2);
    let texts = print_all(&journal);
    assert!(texts[0].starts_with(
        "\n# Unreleased (2017-01-02):\n- [Added] thing 18\n    Some text\n- [Changed] thing 17\n- \
         [Fixed] thing 16\n    - [Changed] item\n    - other item\n"
    ));
    assert!(texts[0].ends_with(
        "\n# v2 (2016-10-03):\n- [Added] thing 3\n    Some text\n\n# v1 (2016-10-02):\n- \
         [Changed] thing 2\n- [Fixed] thing 1\n    - [Changed] item\n    - other item\n"
    ));
    assert!(texts[1].ends_with(
        "\n# v2 (2016-10-03):\n- [Added] thing 3\n\n# v1 (2016-10-02):\n- [Changed] thing 2\n- \
         [Fixed] thing 1\n"
    ));
    assert!(texts[2].ends_with(
        "\n# v2 (2016-10-03):\n## Default\n- Some text\n\n## Section 1\n- [Added] thing 3\n\n# \
         v1 (2016-10-02):\n## Default\n- [Fixed] thing 1\n- other item\n\n### Subsection 3\n- \
         [Changed] thing 2\n\n## tag2\n- [Changed] item\n"
    ));
    assert!(texts[3].ends_with(
        "\n# v2 (2016-10-03):\n## Section 1\n- [Added] thing 3\n\n# v1 (2016-10-02):\n## \
         Default\n- [Fixed] thing 1\n\n### Subsection 3\n- [Changed] thing 2\n"
    ));
}

#[test]
fn parse_and_print_log_2() {
    let mut journal = journal();
    journal.parse_log(&history(), "rc", 1, false, false, today());
    assert_eq!(journal.parser.result.len(), 2);
    assert_eq!(journal.parser.result[0].name, "Unreleased");
    assert_eq!(journal.parser.result[1].name, "v2");
    print_all(&journal);
}

#[test]
fn parse_and_print_log_3() {
    let mut journal = journal();
    journal.parse_log(&history(), "rc", 1, false, true, today());
    assert_eq!(journal.parser.result.len(), 1);
    assert_eq!(journal.parser.result[0].name, "v2");
    print_all(&journal);
}

#[test]
fn parse_and_print_log_4() {
    let mut journal = journal();
    journal.parse_log(&history(), "rc", 2, false, true, today());
    assert_eq!(journal.parser.result.len(), 2);
    assert_eq!(journal.parser.result[0].name, "v2");
    assert_eq!(journal.parser.result[1].name, "v1");
    print_all(&journal);
}

#[test]
fn parse_and_print_log_5() {
    let mut journal = journal();
    let range: Vec<LogEntry> = history().into_iter().filter(|c| c.id == oid(3)).collect();
    journal.parse_log(&range, "rc", 0, true, false, today());
    assert_eq!(journal.parser.result.len(), 1);
    assert_eq!(journal.parser.result[0].name, "v2");
    print_all(&journal);
}

#[test]
fn parse_and_print_log_6() {
    let mut config = Config::new();
    config.default_template = Some("CHANGELOG.toml".to_owned());
    config.enable_footers = true;
    let mut journal = GitJournal::new("./tests/test_repo2".to_owned(), config, vec![]);
    let report = journal.parse_log(&history(), "rc", 0, true, false, today());
    assert_eq!(report.processed, 18);
    let mut out = Output::buffered();
    journal.print_log(false, None, &mut out);
    assert!(out.to_text().ends_with(
        "\n- [Fixed] thing 1\n    - [Changed] item\n    - other item\n\nReviewed-by:\nR12, R15, \
         R18, R3, R6, R9\n"
    ));
}

#[test]
fn unparsable_commits_are_left_out_and_reported() {
    let mut journal = journal();
    let mut commits = history();
    commits[0].message = "No category".to_owned();
    commits[15].message = "Added x\n\n+ what".to_owned();
    commits[17].message = "".to_owned();
    let report = journal.parse_log(&commits, "rc", 0, true, false, today());
    assert_eq!(
        report,
        ParseReport {
            processed: 18,
            failures: vec![
                (oid(18), ParseError::SummaryGrammar),
                (oid(3), ParseError::UnrecognizedBlock("+ what".to_owned())),
                (oid(1), ParseError::EmptyMessage),
            ],
        }
    );
    assert_eq!(journal.parser.result.len(), 2);
    assert_eq!(journal.parser.result[0].name, "Unreleased");
    assert_eq!(journal.parser.result[0].commits.len(), 14);
    assert_eq!(journal.parser.result[0].commits[0].oid, Some(oid(17)));
    assert_eq!(journal.parser.result[1].name, "v1");
    assert_eq!(journal.parser.result[1].commits.len(), 1);
    assert_eq!(journal.parser.result[1].commits[0].summary.text, "thing 2");
    assert_eq!(journal.parser.result[1].message_ids, vec![16, 17]);
}

#[test]
fn commits_are_sorted_by_category_on_demand() {
    let mut config = Config::new();
    config.sort_by = "name".to_owned();
    let mut journal = GitJournal::new(".".to_owned(), config, vec![]);
    journal.parse_log(&history(), "rc", 0, true, false, today());
    let order: Vec<String> = journal.parser.result[0]
        .commits
        .iter()
        .map(|c| format!("{} {}", c.summary.category, c.summary.text))
        .collect();
    let mut expected = vec![];
    for n in [18, 15, 12, 9, 6, 3] {
        expected.push(format!("Added thing {}", n));
    }
    for n in [17, 14, 11, 8, 5, 2] {
        expected.push(format!("Changed thing {}", n));
    }
    for n in [16, 13, 10, 7, 4, 1] {
        expected.push(format!("Fixed thing {}", n));
    }
    assert_eq!(order, expected);
    let mut journal = GitJournal::new(".".to_owned(), Config::new(), vec![]);
    journal.parse_log(&history(), "rc", 0, true, false, today());
    assert_eq!(journal.parser.result[0].commits[1].summary.text, "thing 17");
}

#[test]
fn verify_commit_msg_summary_success_1() {
    let journal = journal();
    assert!(journal.verify("JIRA-1234 [Added] a feature\n", None).is_ok());
}

#[test]
fn verify_commit_msg_summary_success_2() {
    let journal = journal();
    assert!(journal
        .verify("Changed something :tag1:\n\nWith a paragraph\nof two lines\n", None)
        .is_ok());
}

#[test]
fn verify_commit_msg_summary_success_3() {
    let journal = journal();
    assert!(journal
        .verify(
            "Fixed the thing :tag1:\n\n- [Added] item :tag2:\n- item\n\nReviewed-by: Someone\n",
            None
        )
        .is_ok());
}

#[test]
fn verify_commit_msg_summary_success_4() {
    let journal = journal();
    assert!(journal
        .verify(
            "Removed the old thing\n\n# Please enter the commit message for your changes.\n# \
             Lines starting with '#' will be ignored.\n",
            None
        )
        .is_ok());
}

fn verify_failure(message: &str) {
    let journal = journal();
    let res = journal.verify(message, None);
    assert!(res.is_err());
    if let Err(e) = res {
        println!("{:?}", e);
    }
}

#[test]
fn verify_commit_msg_summary_failure_1() {
    verify_failure("Some summary without a category\n");
}

#[test]
fn verify_commit_msg_summary_failure_2() {
    verify_failure("JIRA+1234 Added wrong prefix\n");
}

#[test]
fn verify_commit_msg_summary_failure_3() {
    verify_failure("Adding is no category\n");
}

#[test]
fn verify_commit_msg_paragraph_failure_1() {
    verify_failure("Added x\n\n+ a block that is nothing\n");
}

#[test]
fn verify_commit_msg_paragraph_failure_2() {
    verify_failure("Added x\n\n- a list\nand no list\n");
}

#[test]
fn verify_commit_msg_paragraph_failure_3() {
    verify_failure("Added x\n\n  an indented block\n");
}

#[test]
fn verify_commit_msg_summary_failure_tag() {
    let journal = journal();
    let root = template();
    assert_eq!(
        journal.verify("Added x :tag4: :tag1:\n\nText :other:", Some(&root)),
        Err(VerifyError::UnknownTags(vec!["other".to_owned(), "tag4".to_owned()]))
    );
    assert!(journal.verify("Added x :tag1:\n\n- item :other:", Some(&root)).is_err());
    assert_eq!(
        journal.verify("Added x :tag3: :tag3:\n\nText :default:", Some(&root)),
        Ok(())
    );
    assert_eq!(journal.verify("Added x :tag4:", None), Ok(()));
    assert_eq!(journal.verify("Added x :tag4:", Some(&string("no table"))), Ok(()));
    assert_eq!(
        journal.verify("Nothing", Some(&root)),
        Err(VerifyError::Parse(ParseError::SummaryGrammar))
    );
}

#[test]
fn commit_msg_summary_success_1() {
    journal().verify("JIRA-1234 [Added] a feature\n", None).unwrap();
}

#[test]
fn commit_msg_summary_success_2() {
    journal()
        .verify("Changed something :tag1:\n\nWith a paragraph\nof two lines\n", None)
        .unwrap();
}

#[test]
fn commit_msg_summary_success_3() {
    journal()
        .verify(
            "Fixed the thing :tag1:\n\n- [Added] item :tag2:\n- item\n\nReviewed-by: Someone\n",
            None,
        )
        .unwrap();
}

#[test]
fn commit_msg_summary_success_4() {
    journal()
        .verify("Removed the old thing\n\n# A comment\n", None)
        .unwrap();
}

#[test]
#[should_panic]
fn commit_msg_summary_failure_1() {
    journal().verify("Some summary without a category\n", None).unwrap();
}

#[test]
#[should_panic]
fn commit_msg_summary_failure_2() {
    journal().verify("JIRA+1234 Added wrong prefix\n", None).unwrap();
}

#[test]
#[should_panic]
fn commit_msg_summary_failure_3() {
    journal().verify("Adding is no category\n", None).unwrap();
}

#[test]
#[should_panic]
fn commit_msg_paragraph_failure_1() {
    journal().verify("Added x\n\n+ a block that is nothing\n", None).unwrap();
}

#[test]
#[should_panic]
fn commit_msg_paragraph_failure_2() {
    journal().verify("Added x\n\n- a list\nand no list\n", None).unwrap();
}

#[test]
#[should_panic]
fn commit_msg_paragraph_failure_3() {
    journal().verify("Added x\n\n  an indented block\n", None).unwrap();
}

#[test]
fn prepare_message_success_1() {
    let journal = journal();
    assert_eq!(
        journal.prepare("", None, None),
        Ok(Some(
            "JIRA-1234 Added ...\n\n# Add a more detailed description if needed\n\n# - Added\n# \
             - Changed\n# - Fixed\n# - Improved\n# - Removed\n\n"
                .to_owned()
        ))
    );
}

#[test]
fn prepare_message_success_2() {
    let journal = journal();
    assert_eq!(
        journal.prepare("Some message\n\n# A comment\nmore text\n", None, None),
        Ok(Some(
            "JIRA-1234 Added ...\n\n# Add a more detailed description if needed\n\n# - Added\n# \
             - Changed\n# - Fixed\n# - Improved\n# - Removed\n\n# The provided commit \
             message:\n# Some message\n# A comment\n# more text"
                .to_owned()
        ))
    );
}

#[test]
fn prepare_message_success_3() {
    let journal = journal();
    assert_eq!(journal.prepare("Added a valid message\n", None, None), Ok(None));
    assert_eq!(
        journal.prepare("Added a valid message\n", Some("message"), None),
        Ok(None)
    );
}

#[test]
fn prepare_message_success_4() {
    let mut config = Config::new();
    config.template_prefix = "".to_owned();
    config.categories = vec!["Only".to_owned()];
    let journal = GitJournal::new(".".to_owned(), config.clone(), vec![]);
    assert_eq!(
        journal.prepare("wrong", Some("template"), None),
        Ok(Some(
            "Only ...\n\n# Add a more detailed description if needed\n\n# - Only\n\n# The \
             provided commit message:\n# wrong"
                .to_owned()
        ))
    );
    assert_eq!(
        prepare_message(&config, "#\n\n\n"),
        "Only ...\n\n# Add a more detailed description if needed\n\n# - Only\n\n# The provided \
         commit message:\n#"
    );
}

#[test]
fn prepare_message_failure_1() {
    let journal = journal();
    assert_eq!(
        journal.prepare("TEST", Some("message"), None),
        Err(VerifyError::Parse(ParseError::SummaryGrammar))
    );
}

#[test]
fn prepare_message_failure_2() {
    let journal = journal();
    let root = template();
    assert_eq!(
        journal.prepare("Added x :unknown:", Some("message"), Some(&root)),
        Err(VerifyError::UnknownTags(vec!["unknown".to_owned()]))
    );
    assert!(journal.prepare("Added x :unknown:", Some("commit"), Some(&root)).unwrap().is_some());
}

#[test]
fn install_git_hook() {
    assert_eq!(
        hook_update(None, "echo 1\n"),
        Some("#!/usr/bin/env sh\necho 1\n".to_owned())
    );
    assert_eq!(hook_update(Some("#!/usr/bin/env sh\necho 1\n"), "echo 1\n"), None);
    assert_eq!(
        hook_update(Some("#!/usr/bin/env sh\necho 1\n"), "echo 2\n"),
        Some("echo 2\n".to_owned())
    );
    assert_eq!(hook_update(Some(""), ""), None);
}

#[test]
fn generate_template_1() {
    let mut journal = journal();
    assert_eq!(
        journal.generate_template(),
        table(vec![
            (
                "footer",
                table(vec![("once", Value::Boolean(false)), ("text", string(""))])
            ),
            (
                "header",
                table(vec![("once", Value::Boolean(false)), ("text", string(""))])
            ),
            (
                "tags",
                Value::Array(vec![table(vec![
                    ("footers", Value::Array(vec![])),
                    ("name", string("default")),
                    ("tag", string("default")),
                ])])
            ),
        ])
    );
    journal.parse_log(&history(), "rc", 0, true, false, today());
    let generated = journal.generate_template();
    let sections = match &generated {
        Value::Table(entries) => tags_of_table(entries, vec![]),
        _ => vec![],
    };
    assert_eq!(sections, vec!["default", "tag1", "tag2", "tag3"]);
    assert_eq!(journal.verify("Added x :tag2: :default:", Some(&generated)), Ok(()));
}

#[test]
fn tags_of_a_template() {
    let journal = journal();
    match &template() {
        Value::Table(entries) => {
            assert_eq!(
                journal.parser.get_tags_from_toml(entries, vec!["first".to_owned()]),
                vec!["first", "default", "tag1", "tag3", "tag2"]
            );
        }
        _ => unreachable!(),
    }
}

#[test]
fn tags_of_commits_and_releases() {
    let mut journal = journal();
    journal.parse_log(&history(), "rc", 0, true, false, today());
    let release = &journal.parser.result[2];
    assert_eq!(release.get_tags(vec![]), vec!["tag3", "tag2"]);
    assert_eq!(
        release.get_tags_unique(vec!["tag3".to_owned(), "a".to_owned()]),
        vec!["a", "tag2", "tag3"]
    );
    let commit = &release.commits[1];
    assert_eq!(commit.get_tags(vec!["x".to_owned()]), vec!["x", "tag2"]);
    assert_eq!(commit.body[0].get_tags(vec![]), vec!["tag2"]);
    assert_eq!(commit.get_tags_unique(vec![]), vec!["tag2"]);
}

#[test]
fn found_releases_are_parsed() {
    let mut by_steps = journal();
    let found = correlate(&history(), &by_steps.tags, "rc", 1, false, false, today());
    let report = by_steps.parse_found(&found);
    let mut at_once = journal();
    assert_eq!(
        at_once.parse_log(&history(), "rc", 1, false, false, today()),
        report
    );
    assert_eq!(by_steps.parser.result, at_once.parser.result);
    assert_eq!(report.processed, 16);
}

#[test]
fn places_that_are_not_there_give_no_commit() {
    let mut journal = journal();
    let found = Correlation {
        releases: vec![
            ParsedTag {
                name: "v1".to_owned(),
                date: today(),
                commits: vec![],
                message_ids: vec![7, 0, 1, 0],
            },
            ParsedTag {
                name: "v0".to_owned(),
                date: today(),
                commits: vec![],
                message_ids: vec![2, 1],
            },
        ],
        worklist: vec![
            WorkItem {
                message: "Added a".to_owned(),
                oid: oid(1),
            },
            WorkItem {
                message: "nothing".to_owned(),
                oid: oid(2),
            },
        ],
    };
    let report = journal.parse_found(&found);
    assert_eq!(report.processed, 2);
    assert_eq!(report.failures, vec![(oid(2), ParseError::SummaryGrammar)]);
    assert_eq!(journal.parser.result.len(), 1);
    assert_eq!(journal.parser.result[0].name, "v1");
    let texts: Vec<&str> = journal.parser.result[0]
        .commits
        .iter()
        .map(|c| c.summary.text.as_str())
        .collect();
    assert_eq!(texts, vec!["a", "a"]);
}

#[test]
fn choice_of_the_template() {
    assert_eq!(choose_template(true, true, true), TemplateChoice::Given);
    assert_eq!(choose_template(true, false, false), TemplateChoice::Given);
    assert_eq!(choose_template(true, true, false), TemplateChoice::Given);
    assert_eq!(choose_template(false, true, true), TemplateChoice::Default);
    assert_eq!(choose_template(false, true, false), TemplateChoice::Flat);
    assert_eq!(choose_template(false, false, true), TemplateChoice::Flat);
    assert_eq!(choose_template(false, false, false), TemplateChoice::Flat);
}

#[test]
fn message_of_the_command_line_is_fixed() {
    assert!(is_fixed(Some("message")));
    assert!(!is_fixed(Some("template")));
    assert!(!is_fixed(Some("")));
    assert!(!is_fixed(None));
}
