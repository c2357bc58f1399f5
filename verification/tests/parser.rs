use gitjournal::config::Config;
use gitjournal::document::{
    BodyElement, FooterElement, ListElement, ParagraphElement, ParsedCommit, SummaryElement,
};
use gitjournal::output::Output;
use gitjournal::parser::{footer_element, BlockKind, ParseError, Parser};
use gitjournal::render::Print;

fn get_parser() -> Parser {
    Parser {
        config: Config::new(),
        result: vec![],
    }
}

fn parse_and_print_error(message: &str) {
    let ret = get_parser().parse_commit_message(message, None);
    assert!(ret.is_err());
    if let Err(e) = ret {
        println!("{:?}", e);
    }
}

#[test]
fn parse_commit_ok_1() {
    let commit = get_parser().parse_commit_message(
        "JIRA-1234 [Changed] my commit summary\n\nSome paragraph\n\n# A \
         comment\n# Another comment",
        None,
    );
    assert!(commit.is_ok());
    if let Ok(commit) = commit {
        assert_eq!(commit.body.len(), 1);
        assert_eq!(
            commit.body[0],
            BodyElement::Paragraph(ParagraphElement {
                text: "Some paragraph".to_owned(),
                tags: vec![],
                oid: None,
            })
        );
        assert_eq!(commit.footer.len(), 0);
        assert_eq!(commit.summary.prefix, "JIRA-1234");
        assert_eq!(commit.summary.category, "Changed");
        assert_eq!(commit.summary.text, "my commit summary");
        assert_eq!(commit.summary.tags.len(), 0);
        let mut t = Output::terminal();
        commit.print_default(&mut t, &Config::new(), None);
        assert_eq!(
            t.to_text(),
            "\n- [Changed] my commit summary\n    Some paragraph"
        );
        let mut t = Output::terminal();
        commit.print_default(&mut t, &Config::new(), Some("tag"));
        assert_eq!(t.to_text(), "");
    }
}

#[test]
fn parse_commit_ok_2() {
    let commit = get_parser().parse_commit_message(
        "Changed my commit summary\n\n- List item 1\n- List item 2\n- \
         List item 3",
        None,
    );
    assert!(commit.is_ok());
    if let Ok(commit) = commit {
        assert_eq!(commit.body.len(), 1);
        assert_eq!(commit.footer.len(), 0);
        assert_eq!(commit.summary.prefix, "");
        assert_eq!(commit.summary.category, "Changed");
        assert_eq!(commit.summary.text, "my commit summary");
        assert_eq!(commit.summary.tags.len(), 0);
        let mut t = Output::terminal();
        commit.print_default(&mut t, &Config::new(), None);
        assert_eq!(
            t.to_text(),
            "\n- [Changed] my commit summary\n    - List item 1\n    - List item 2\n    - List item 3"
        );
        let mut t = Output::terminal();
        commit.print_default(&mut t, &Config::new(), Some("tag"));
        assert_eq!(t.to_text(), "");
    }
}

#[test]
fn parse_commit_ok_3() {
    let commit = get_parser().parse_commit_message(
        "PREFIX-666 Fixed some ____ commit :tag1: :tag2: :tag3:\n\nSome: \
         Footer\nAnother: Footer\nMy-ID: IDVALUE",
        None,
    );
    assert!(commit.is_ok());
    if let Ok(commit) = commit {
        assert_eq!(commit.body.len(), 0);
        assert_eq!(commit.footer.len(), 3);
        assert_eq!(commit.summary.prefix, "PREFIX-666");
        assert_eq!(commit.summary.category, "Fixed");
        assert_eq!(commit.summary.text, "some ____ commit");
        assert_eq!(
            commit.summary.tags,
            vec!["tag1".to_owned(), "tag2".to_owned(), "tag3".to_owned()]
        );
        let mut t = Output::terminal();
        commit.print_default(&mut t, &Config::new(), None);
        assert_eq!(t.to_text(), "\n- [Fixed] some ____ commit");
        let mut t = Output::terminal();
        commit.print_default(&mut t, &Config::new(), Some("tag3"));
        assert_eq!(t.to_text(), "\n- [Fixed] some ____ commit");
    }
}

#[test]
fn parse_commit_ok_4() {
    let commit = get_parser().parse_commit_message(
        "Added my :1234: commit \u{f0}\u{178}\u{2019}\u{2013} summary :some tag:\n\nParagraph\n\n- \
         List Item\n\nReviewed-by: Me",
        None,
    );
    assert!(commit.is_ok());
    if let Ok(commit) = commit {
        assert_eq!(commit.body.len(), 2);
        assert_eq!(commit.footer.len(), 1);
        assert_eq!(commit.summary.prefix, "");
        assert_eq!(commit.summary.category, "Added");
        assert_eq!(commit.summary.text, "my commit \u{f0}\u{178}\u{2019}\u{2013} summary");
        assert_eq!(
            commit.summary.tags,
            vec!["1234".to_owned(), "some tag".to_owned()]
        );
        let mut t = Output::terminal();
        commit.print_default(&mut t, &Config::new(), None);
        assert_eq!(
            t.to_text(),
            "\n- [Added] my commit \u{f0}\u{178}\u{2019}\u{2013} summary\n    Paragraph\n    - List Item"
        );
        let mut t = Output::terminal();
        commit.print_default(&mut t, &Config::new(), Some("some tag"));
        assert_eq!(t.to_text(), "\n- [Added] my commit \u{f0}\u{178}\u{2019}\u{2013} summary");
    }
}

#[test]
fn parse_commit_failure_1() {
    parse_and_print_error("None");
}

#[test]
fn parse_commit_failure_2() {
    parse_and_print_error("PREFIX+1234 Changing some stuff");
}

#[test]
fn parse_commit_failure_3() {
    parse_and_print_error("Fix some stuff");
}

#[test]
fn summary_with_prefix_category_and_comment() {
    let commit = get_parser()
        .parse_commit_message(
            "JIRA-1234 [Changed] my commit summary\n\nSome paragraph\n\n# A comment",
            None,
        )
        .unwrap();
    assert_eq!(commit.summary.prefix, "JIRA-1234");
    assert_eq!(commit.summary.category, "Changed");
    assert_eq!(commit.summary.text, "my commit summary");
    assert_eq!(
        commit.body,
        vec![BodyElement::Paragraph(ParagraphElement {
            oid: None,
            text: "Some paragraph".to_owned(),
            tags: vec![],
        })]
    );
    assert_eq!(commit.footer.len(), 0);
}

#[test]
fn summary_tags_paragraph_list_and_footer() {
    let commit = get_parser()
        .parse_commit_message(
            "Added my :1234: commit summary :some tag:\n\nParagraph\n\n- List Item\n\nReviewed-by: Me",
            None,
        )
        .unwrap();
    assert_eq!(commit.summary.category, "Added");
    assert_eq!(commit.summary.text, "my commit summary");
    assert_eq!(
        commit.summary.tags,
        vec!["1234".to_owned(), "some tag".to_owned()]
    );
    assert_eq!(
        commit.body,
        vec![
            BodyElement::Paragraph(ParagraphElement {
                oid: None,
                text: "Paragraph".to_owned(),
                tags: vec![],
            }),
            BodyElement::List(vec![ListElement {
                oid: None,
                category: "".to_owned(),
                text: "List Item".to_owned(),
                tags: vec![],
            }]),
        ]
    );
    assert_eq!(
        commit.footer,
        vec![FooterElement {
            oid: None,
            key: "Reviewed-by".to_owned(),
            value: "Me".to_owned(),
        }]
    );
}

#[test]
fn empty_message_is_refused() {
    assert_eq!(
        get_parser().parse_commit_message("", None),
        Err(ParseError::EmptyMessage)
    );
    assert_eq!(
        get_parser().parse_commit_message("  \n\nAdded something", None),
        Err(ParseError::EmptyMessage)
    );
}

#[test]
fn summary_errors() {
    let parser = get_parser();
    assert_eq!(
        parser.parse_commit_message("Added", None),
        Err(ParseError::SummaryGrammar)
    );
    assert_eq!(
        parser.parse_commit_message("[Added]", None),
        Err(ParseError::SummaryGrammar)
    );
    assert_eq!(
        parser.parse_commit_message("JIRA-12 something", None),
        Err(ParseError::SummaryGrammar)
    );
    assert_eq!(
        parser.parse_commit_message("some Added thing", None),
        Err(ParseError::SummaryGrammar)
    );
    assert_eq!(
        parser.parse_commit_message("Added .", None),
        Err(ParseError::SummaryGrammar)
    );
}

#[test]
fn summary_is_trimmed_and_delimiters_are_optional() {
    let parser = get_parser();
    let commit = parser
        .parse_commit_message("  \t[Fixed a bug \n", None)
        .unwrap();
    assert_eq!(commit.summary.category, "Fixed");
    assert_eq!(commit.summary.text, "a bug");
    let commit = parser
        .parse_commit_message("ABC-1Removed] \t x", None)
        .unwrap();
    assert_eq!(commit.summary.prefix, "ABC-1");
    assert_eq!(commit.summary.category, "Removed");
    assert_eq!(commit.summary.text, "x");
}

#[test]
fn unrecognized_block_is_reported_with_its_text() {
    assert_eq!(
        get_parser().parse_commit_message("Added x\n\n+ what is this", None),
        Err(ParseError::UnrecognizedBlock("+ what is this".to_owned()))
    );
    assert_eq!(
        get_parser().parse_commit_message("Added x\n\n\n", None),
        Err(ParseError::UnrecognizedBlock("\n".to_owned()))
    );
}

#[test]
fn first_error_wins() {
    assert_eq!(
        get_parser().parse_commit_message("Added x\n\n+ one\n\n* two", None),
        Err(ParseError::UnrecognizedBlock("+ one".to_owned()))
    );
}

#[test]
fn comment_needs_every_line() {
    let parser = get_parser();
    let commit = parser
        .parse_commit_message("Added x\n\n# one\n# two\n\n", None)
        .unwrap();
    assert_eq!(commit.body.len(), 0);
    let commit = parser
        .parse_commit_message("Added x\n\nSome text\n# not a comment", None)
        .unwrap();
    assert_eq!(
        commit.body,
        vec![BodyElement::Paragraph(ParagraphElement {
            oid: None,
            text: "Some text\n# not a comment".to_owned(),
            tags: vec![],
        })]
    );
    assert_eq!(
        parser.parse_commit_message("Added x\n\n# a comment\n+ no comment", None),
        Err(ParseError::UnrecognizedBlock(
            "# a comment\n+ no comment".to_owned()
        ))
    );
}

#[test]
fn footer_needs_every_line() {
    let parser = get_parser();
    let commit = parser
        .parse_commit_message("Added x\n\nKey: value\nOther-key: other value", None)
        .unwrap();
    assert_eq!(commit.body.len(), 0);
    assert_eq!(
        commit.footer,
        vec![
            FooterElement {
                oid: None,
                key: "Key".to_owned(),
                value: "value".to_owned(),
            },
            FooterElement {
                oid: None,
                key: "Other-key".to_owned(),
                value: "other value".to_owned(),
            },
        ]
    );
    let commit = parser
        .parse_commit_message("Added x\n\nKey: value\nand some text", None)
        .unwrap();
    assert_eq!(commit.footer.len(), 0);
    assert_eq!(
        commit.body,
        vec![BodyElement::Paragraph(ParagraphElement {
            oid: None,
            text: "Key: value\nand some text".to_owned(),
            tags: vec![],
        })]
    );
}

#[test]
fn footer_passes_over_an_empty_first_line() {
    let commit = get_parser()
        .parse_commit_message("Added x\n\n\nKey: value", None)
        .unwrap();
    assert_eq!(
        commit.footer,
        vec![FooterElement {
            oid: None,
            key: "Key".to_owned(),
            value: "value".to_owned(),
        }]
    );
}

#[test]
fn list_needs_every_line() {
    let parser = get_parser();
    let commit = parser
        .parse_commit_message(
            "Added x\n\n- [Fixed] one :a, b.c ,d:\n  - Changed two\n\t-  three.",
            None,
        )
        .unwrap();
    assert_eq!(
        commit.body,
        vec![BodyElement::List(vec![
            ListElement {
                oid: None,
                category: "Fixed".to_owned(),
                text: "one".to_owned(),
                tags: vec!["a".to_owned(), "d".to_owned()],
            },
            ListElement {
                oid: None,
                category: "Changed".to_owned(),
                text: "two".to_owned(),
                tags: vec![],
            },
            ListElement {
                oid: None,
                category: "".to_owned(),
                text: "three".to_owned(),
                tags: vec![],
            },
        ])]
    );
    assert_eq!(
        parser.parse_commit_message("Added x\n\n- one\n+ two", None),
        Err(ParseError::UnrecognizedBlock("- one\n+ two".to_owned()))
    );
}

#[test]
fn list_items_cut_short_are_passed_over() {
    let commit = get_parser()
        .parse_commit_message("Added x\n\n- one\n- \n- Added\n- [", None)
        .unwrap();
    assert_eq!(
        commit.body,
        vec![BodyElement::List(vec![
            ListElement {
                oid: None,
                category: "".to_owned(),
                text: "one".to_owned(),
                tags: vec![],
            },
            ListElement {
                oid: None,
                category: "".to_owned(),
                text: "[".to_owned(),
                tags: vec![],
            },
        ])]
    );
}

#[test]
fn paragraph_tags_and_trimming() {
    let commit = get_parser()
        .parse_commit_message(
            "Added x\n\nA paragraph :tag one, tag two:\nwith two lines :v1.0:. ",
            None,
        )
        .unwrap();
    assert_eq!(
        commit.body,
        vec![BodyElement::Paragraph(ParagraphElement {
            oid: None,
            text: "A paragraph\nwith two lines.".to_owned(),
            tags: vec!["tag one".to_owned(), "tag two".to_owned()],
        })]
    );
}

#[test]
fn tags_are_taken_out_of_the_text() {
    assert_eq!(
        Parser::parse_and_consume_tags("some text :one,two: more :three:."),
        (
            vec!["one".to_owned(), "two".to_owned(), "three".to_owned()],
            "some text more".to_owned()
        )
    );
    assert_eq!(
        Parser::parse_and_consume_tags(":no tag: at the start"),
        (vec![], ":no tag: at the start".to_owned())
    );
    assert_eq!(
        Parser::parse_and_consume_tags("a sentence. And :a.b: one more."),
        (vec![], "a sentence. And one more".to_owned())
    );
}

#[test]
fn text_without_tags_stays_as_it_is() {
    let (tags, text) = Parser::parse_and_consume_tags("some text :one: more");
    assert_eq!(tags, vec!["one".to_owned()]);
    assert_eq!(text, "some text more");
    assert_eq!(
        Parser::parse_and_consume_tags(&text),
        (vec![], "some text more".to_owned())
    );
}

#[test]
fn taking_tags_out_can_bring_new_ones_together() {
    let (tags, text) = Parser::parse_and_consume_tags("x  :t::u:");
    assert_eq!(tags, vec!["t".to_owned()]);
    assert_eq!(text, "x :u:");
    assert_eq!(
        Parser::parse_and_consume_tags(&text),
        (vec!["u".to_owned()], "x".to_owned())
    );
}

#[test]
fn collected_tags_follow_the_matches() {
    let matches = vec![
        vec![Some(" :a, b:".to_owned()), Some("a, b".to_owned())],
        vec![Some(" :c.d:".to_owned()), Some("c.d".to_owned())],
        vec![Some(" ::".to_owned()), None],
        vec![Some(" : e :".to_owned()), Some(" e ".to_owned())],
    ];
    assert_eq!(
        Parser::collect_tags(&matches, "what is left."),
        (
            vec!["a".to_owned(), "b".to_owned(), "e".to_owned()],
            "what is left".to_owned()
        )
    );
    assert_eq!(
        Parser::collect_tags(&vec![], "nothing to do"),
        (vec![], "nothing to do".to_owned())
    );
}

#[test]
fn commit_identifier_reaches_every_element() {
    let oid = gitjournal::document::Oid { bytes: [7; 20] };
    let commit = get_parser()
        .parse_commit_message("Added x\n\nText\n\n- item\n\nKey: value", Some(oid))
        .unwrap();
    assert_eq!(commit.oid, Some(oid));
    assert_eq!(commit.summary.oid, Some(oid));
    assert_eq!(commit.footer[0].oid, Some(oid));
    match &commit.body[0] {
        BodyElement::Paragraph(p) => assert_eq!(p.oid, Some(oid)),
        _ => panic!("a paragraph was expected"),
    }
    match &commit.body[1] {
        BodyElement::List(items) => assert_eq!(items[0].oid, Some(oid)),
        _ => panic!("a list was expected"),
    }
}

#[test]
fn categories_are_tried_in_order() {
    let mut parser = get_parser();
    parser.config.categories = vec!["Add".to_owned(), "Added".to_owned()];
    assert_eq!(
        parser.parse_commit_message("Added x", None),
        Err(ParseError::SummaryGrammar)
    );
    let commit = parser.parse_commit_message("Add x", None).unwrap();
    assert_eq!(commit.summary.category, "Add");
    parser.config.categories = vec!["Added".to_owned(), "Add".to_owned()];
    let commit = parser.parse_commit_message("Added x", None).unwrap();
    assert_eq!(commit.summary.category, "Added");
}

fn with_tags(text: &str, tags: &[String]) -> String {
    if tags.is_empty() {
        text.to_owned()
    } else {
        format!("{} :{}:", text, tags.join(","))
    }
}

/// Writes a commit as a message: the inverse of the grammar.
fn write_message(commit: &ParsedCommit) -> String {
    let mut blocks = vec![];
    let summary = &commit.summary;
    let prefix = if summary.prefix.is_empty() {
        String::new()
    } else {
        format!("{} ", summary.prefix)
    };
    blocks.push(format!(
        "{}[{}] {}",
        prefix,
        summary.category,
        with_tags(&summary.text, &summary.tags)
    ));
    for element in &commit.body {
        match element {
            BodyElement::Paragraph(p) => blocks.push(with_tags(&p.text, &p.tags)),
            BodyElement::List(items) => {
                let lines: Vec<String> = items
                    .iter()
                    .map(|item| {
                        if item.category.is_empty() {
                            format!("- {}", with_tags(&item.text, &item.tags))
                        } else {
                            format!(
                                "- [{}] {}",
                                item.category,
                                with_tags(&item.text, &item.tags)
                            )
                        }
                    })
                    .collect();
                blocks.push(lines.join("\n"));
            }
        }
    }
    if !commit.footer.is_empty() {
        let lines: Vec<String> = commit
            .footer
            .iter()
            .map(|f| format!("{}: {}", f.key, f.value))
            .collect();
        blocks.push(lines.join("\n"));
    }
    blocks.join("\n\n")
}

#[test]
fn written_commit_is_read_as_it_was_written() {
    let tags = |v: &[&str]| -> Vec<String> { v.iter().map(|t| t.to_string()).collect() };
    let commits = vec![
        ParsedCommit {
            oid: None,
            summary: SummaryElement {
                oid: None,
                prefix: "JIRA-1234".to_owned(),
                category: "Changed".to_owned(),
                text: "the summary of the commit".to_owned(),
                tags: tags(&["one", "tag two"]),
            },
            body: vec![
                BodyElement::Paragraph(ParagraphElement {
                    oid: None,
                    text: "A paragraph\nof two lines".to_owned(),
                    tags: tags(&["three"]),
                }),
                BodyElement::List(vec![
                    ListElement {
                        oid: None,
                        category: "Fixed".to_owned(),
                        text: "first item".to_owned(),
                        tags: tags(&[]),
                    },
                    ListElement {
                        oid: None,
                        category: "".to_owned(),
                        text: "second item".to_owned(),
                        tags: tags(&["four", "five"]),
                    },
                ]),
                BodyElement::Paragraph(ParagraphElement {
                    oid: None,
                    text: "Another paragraph".to_owned(),
                    tags: tags(&[]),
                }),
            ],
            footer: vec![
                FooterElement {
                    oid: None,
                    key: "Reviewed-by".to_owned(),
                    value: "Someone <someone@somewhere.org>".to_owned(),
                },
                FooterElement {
                    oid: None,
                    key: "Issue".to_owned(),
                    value: "#12".to_owned(),
                },
            ],
        },
        ParsedCommit {
            oid: None,
            summary: SummaryElement {
                oid: None,
                prefix: "".to_owned(),
                category: "Removed".to_owned(),
                text: "x".to_owned(),
                tags: tags(&[]),
            },
            body: vec![],
            footer: vec![],
        },
    ];
    for commit in commits {
        let message = write_message(&commit);
        assert_eq!(get_parser().parse_commit_message(&message, None), Ok(commit));
    }
}

#[test]
fn footer_without_key_and_value_is_no_footer() {
    let full = vec![vec![
        Some("Key: value".to_owned()),
        Some("Key".to_owned()),
        Some("value".to_owned()),
    ]];
    assert_eq!(
        footer_element(&full, None),
        Some(FooterElement {
            oid: None,
            key: "Key".to_owned(),
            value: "value".to_owned(),
        })
    );
    let short = vec![vec![Some("Key: value".to_owned()), Some("Key".to_owned())]];
    assert_eq!(footer_element(&short, None), None);
    let missing = vec![vec![Some("Key: value".to_owned()), None, Some("value".to_owned())]];
    assert_eq!(footer_element(&missing, None), None);
}

#[test]
fn kind_of_a_block_is_the_first_that_fits() {
    assert_eq!(BlockKind::decide(true, true, true, true), BlockKind::Comment);
    assert_eq!(BlockKind::decide(false, true, true, true), BlockKind::Footer);
    assert_eq!(BlockKind::decide(false, false, true, true), BlockKind::List);
    assert_eq!(BlockKind::decide(false, false, false, true), BlockKind::Paragraph);
    assert_eq!(BlockKind::decide(false, false, false, false), BlockKind::Unrecognized);
    assert_eq!(BlockKind::decide(true, false, false, false), BlockKind::Comment);
    assert_eq!(BlockKind::decide(false, true, false, true), BlockKind::Footer);
}
