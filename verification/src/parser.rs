//! The parser of commit messages.
use crate::config::{Config, ConfigModel};
use crate::document::{
    BodyElement, BodyModel, CommitModel, FooterElement, FooterModel, ListElement, ListModel, Oid,
    ParagraphElement, ParagraphModel, ParsedCommit, ParsedTag, SummaryElement, SummaryModel,
};
use crate::grammar::{
    grammar_of, item_head, lemma_summary_round_trip, prefix_text, summary_head, summary_line,
    summary_parts_wf, CategoryGrammar, GrammarModel,
};
use crate::pattern::{
    captures, is_match, regex_captures, regex_is_match, regex_replace_all, replace_all,
    COMMENT_LINE, FOOTER_LINE, INLINE_TAGS, LIST_LINE, PARAGRAPH_START,
};
use crate::text::{
    blocks, blocks_of, from_chars, has_char, is_one_block, is_white_space, lemma_chars_deep_view,
    lemma_deep_view_push, lines, lines_of, split, split_on, string_of, to_chars, trim, trimmed,
};
use vstd::prelude::*;

verus! {

/// Why a commit message could not be parsed.
#[derive(Clone, Debug, PartialEq, Eq)]
pub enum ParseError {
    /// The first block is no summary: its prefix or its category is
    /// malformed, or it has no text.
    SummaryGrammar,
    /// A block is neither comment nor footer, list or paragraph.
    UnrecognizedBlock(String),
    /// The message has no summary: its first block is empty or blank.
    EmptyMessage,
    /// A line of a footer block yields no key and value.
    FooterGrammar,
}

/// What a [`ParseError`] holds, as mathematical values.
pub enum ParseErrorModel {
    SummaryGrammar,
    UnrecognizedBlock(Seq<char>),
    EmptyMessage,
    FooterGrammar,
}

impl DeepView for ParseError {
    type V = ParseErrorModel;

    open spec fn deep_view(&self) -> ParseErrorModel {
        match self {
            ParseError::SummaryGrammar => ParseErrorModel::SummaryGrammar,
            ParseError::UnrecognizedBlock(block) => ParseErrorModel::UnrecognizedBlock(block@),
            ParseError::EmptyMessage => ParseErrorModel::EmptyMessage,
            ParseError::FooterGrammar => ParseErrorModel::FooterGrammar,
        }
    }
}

impl ParseError {
    /// A copy of the error.
    pub fn duplicate(&self) -> (r: ParseError)
        ensures
            r.deep_view() == self.deep_view(),
    {
        match self {
            ParseError::SummaryGrammar => ParseError::SummaryGrammar,
            ParseError::UnrecognizedBlock(block) => ParseError::UnrecognizedBlock(block.clone()),
            ParseError::EmptyMessage => ParseError::EmptyMessage,
            ParseError::FooterGrammar => ParseError::FooterGrammar,
        }
    }
}

/// The capture group `i` of a match, `None` where the match has no such group.
pub open spec fn group(m: Seq<Option<Seq<char>>>, i: int) -> Option<Seq<char>> {
    if 0 <= i < m.len() {
        m[i]
    } else {
        None
    }
}

/// The tags among `pieces`: those without a period, trimmed.
pub open spec fn kept_values(pieces: Seq<Seq<char>>) -> Seq<Seq<char>>
    decreases pieces.len(),
{
    if pieces.len() == 0 {
        Seq::empty()
    } else if pieces.last().contains('.') {
        kept_values(pieces.drop_last())
    } else {
        kept_values(pieces.drop_last()).push(trimmed(pieces.last()))
    }
}

/// The tags that one group of tags holds: its values between commas, those
/// with a period left out, each trimmed.
pub open spec fn tag_values(found: Seq<char>) -> Seq<Seq<char>> {
    kept_values(split_on(found, ','))
}

/// The tags that the matches of [`INLINE_TAGS`] hold, in order.
pub open spec fn tags_of(matches: Seq<Seq<Option<Seq<char>>>>) -> Seq<Seq<char>>
    decreases matches.len(),
{
    if matches.len() == 0 {
        Seq::empty()
    } else {
        tags_of(matches.drop_last()) + match group(matches.last(), 1) {
            Some(found) => tag_values(found),
            None => Seq::empty(),
        }
    }
}

/// `s` without the period that ends it, if one does.
pub open spec fn without_period(s: Seq<char>) -> Seq<char> {
    if s.len() > 0 && s.last() == '.' {
        s.drop_last()
    } else {
        s
    }
}

/// The tags and the text that are left of `text` once its inline tags are
/// taken out.
pub open spec fn extract_tags(text: Seq<char>) -> (Seq<Seq<char>>, Seq<char>) {
    (
        tags_of(regex_captures(INLINE_TAGS@, text)),
        without_period(regex_replace_all(INLINE_TAGS@, text, Seq::empty())),
    )
}

/// The summary that the trimmed first block `line` of a message is, or `None`
/// where it is none: where the line does not follow the grammar of a summary,
/// or nothing is left of its text once the tags are taken out.
pub open spec fn summary_of(g: GrammarModel, line: Seq<char>, oid: Option<Oid>) -> Option<
    SummaryModel,
> {
    match summary_head(g, line) {
        None => None,
        Some((p, k, t)) => {
            let (tags, text) = extract_tags(line.skip(t));
            if text.len() == 0 {
                None
            } else {
                Some(
                    SummaryModel {
                        oid,
                        prefix: line.take(p),
                        category: g.categories[k],
                        text,
                        tags,
                    },
                )
            }
        },
    }
}

/// The list item that `line` is, or `None` where it does not follow the
/// grammar of a list item.
pub open spec fn item_of(g: GrammarModel, line: Seq<char>, oid: Option<Oid>) -> Option<ListModel> {
    match item_head(g, line) {
        None => None,
        Some((category, t)) => {
            let (tags, text) = extract_tags(line.skip(t));
            Some(
                ListModel {
                    oid,
                    category: match category {
                        Some(k) => g.categories[k],
                        None => Seq::empty(),
                    },
                    text,
                    tags,
                },
            )
        },
    }
}

/// The list items among `lines`, in order. A line that does not follow the
/// grammar of a list item is passed over.
pub open spec fn items_of(g: GrammarModel, lines: Seq<Seq<char>>, oid: Option<Oid>) -> Seq<
    ListModel,
>
    decreases lines.len(),
{
    if lines.len() == 0 {
        Seq::empty()
    } else {
        match item_of(g, lines.last(), oid) {
            Some(item) => items_of(g, lines.drop_last(), oid).push(item),
            None => items_of(g, lines.drop_last(), oid),
        }
    }
}

/// The paragraph that `block` is.
pub open spec fn paragraph_of(block: Seq<char>, oid: Option<Oid>) -> ParagraphModel {
    let (tags, text) = extract_tags(block);
    ParagraphModel { oid, text: trimmed(text), tags }
}

/// Whether `pattern` matches each of `lines`.
pub open spec fn all_match(pattern: Seq<char>, lines: Seq<Seq<char>>) -> bool {
    forall|i: int| 0 <= i < lines.len() ==> regex_is_match(pattern, #[trigger] lines[i])
}

/// Whether `line` has the form of a footer.
pub open spec fn is_footer_line(line: Seq<char>) -> bool {
    regex_captures(FOOTER_LINE@, line).len() > 0
}

/// Whether `lines` make a footer block: at least one of them is not empty,
/// and each one that is not empty has the form of a footer.
pub open spec fn is_footer_block(lines: Seq<Seq<char>>) -> bool {
    &&& exists|i: int| 0 <= i < lines.len() && (#[trigger] lines[i]).len() > 0
    &&& forall|i: int|
        0 <= i < lines.len() && (#[trigger] lines[i]).len() > 0 ==> is_footer_line(lines[i])
}

/// The key and the value of a footer line, or `None` where the match lacks one.
pub open spec fn footer_fields(line: Seq<char>) -> Option<(Seq<char>, Seq<char>)> {
    let found = regex_captures(FOOTER_LINE@, line);
    if found.len() > 0 {
        match (group(found[0], 1), group(found[0], 2)) {
            (Some(key), Some(value)) => Some((key, value)),
            _ => None,
        }
    } else {
        None
    }
}

/// The footers of the lines of a footer block, in order, or `None` where one
/// of its lines yields no key and value. Empty lines are passed over.
pub open spec fn footers_of(lines: Seq<Seq<char>>, oid: Option<Oid>) -> Option<Seq<FooterModel>>
    decreases lines.len(),
{
    if lines.len() == 0 {
        Some(Seq::empty())
    } else {
        match footers_of(lines.drop_last(), oid) {
            None => None,
            Some(footers) => if lines.last().len() == 0 {
                Some(footers)
            } else {
                match footer_fields(lines.last()) {
                    None => None,
                    Some((key, value)) => Some(footers.push(FooterModel { oid, key, value })),
                }
            },
        }
    }
}

/// What a block of a commit message is.
#[derive(Clone, Copy, Debug, PartialEq, Eq)]
pub enum BlockKind {
    Comment,
    Footer,
    List,
    Paragraph,
    Unrecognized,
}

/// What `block` is. The first of these decides: a block that is empty or of
/// which every line is a comment is a comment; one of which every line that is
/// not empty is a footer line is a footer; one of which every line starts a
/// list item is a list; one that starts with a word character is a paragraph.
pub open spec fn block_kind(block: Seq<char>) -> BlockKind {
    let lines = lines_of(block);
    first_kind(
        block.len() == 0 || all_match(COMMENT_LINE@, lines),
        is_footer_block(lines),
        all_match(LIST_LINE@, lines),
        regex_is_match(PARAGRAPH_START@, block),
    )
}

/// The kind of a block, given what it looks like: the first of comment,
/// footer, list and paragraph that it looks like, none where it looks like
/// none of them.
pub open spec fn first_kind(comment: bool, footer: bool, list: bool, paragraph: bool) -> BlockKind {
    if comment {
        BlockKind::Comment
    } else if footer {
        BlockKind::Footer
    } else if list {
        BlockKind::List
    } else if paragraph {
        BlockKind::Paragraph
    } else {
        BlockKind::Unrecognized
    }
}

/// The body and the footers that the blocks `1..n` of a message make, or the
/// error of the first block that is malformed.
pub open spec fn parse_blocks(
    g: GrammarModel,
    blocks: Seq<Seq<char>>,
    n: int,
    oid: Option<Oid>,
) -> Result<(Seq<BodyModel>, Seq<FooterModel>), ParseErrorModel>
    decreases n,
{
    if n <= 1 {
        Ok((Seq::empty(), Seq::empty()))
    } else {
        match parse_blocks(g, blocks, n - 1, oid) {
            Err(e) => Err(e),
            Ok((body, footer)) => {
                let block = blocks[n - 1];
                match block_kind(block) {
                    BlockKind::Comment => Ok((body, footer)),
                    BlockKind::Footer => match footers_of(lines_of(block), oid) {
                        None => Err(ParseErrorModel::FooterGrammar),
                        Some(more) => Ok((body, footer + more)),
                    },
                    BlockKind::List => Ok(
                        (body.push(BodyModel::List(items_of(g, lines_of(block), oid))), footer),
                    ),
                    BlockKind::Paragraph => Ok(
                        (body.push(BodyModel::Paragraph(paragraph_of(block, oid))), footer),
                    ),
                    BlockKind::Unrecognized => Err(ParseErrorModel::UnrecognizedBlock(block)),
                }
            },
        }
    }
}

/// The commit that `message` is parsed into, or the error that is found
/// first. The blocks of the message are parted by empty lines. The first one,
/// trimmed, is the summary; each of the others is a comment, a footer, a list
/// or a paragraph.
pub open spec fn parse_message(config: ConfigModel, message: Seq<char>, oid: Option<Oid>) -> Result<
    CommitModel,
    ParseErrorModel,
> {
    let blocks = blocks_of(message);
    let first = trimmed(blocks[0]);
    if first.len() == 0 {
        Err(ParseErrorModel::EmptyMessage)
    } else {
        match summary_of(grammar_of(config), first, oid) {
            None => Err(ParseErrorModel::SummaryGrammar),
            Some(summary) => match parse_blocks(
                grammar_of(config),
                blocks,
                blocks.len() as int,
                oid,
            ) {
                Err(e) => Err(e),
                Ok((body, footer)) => Ok(CommitModel { oid, summary, body, footer }),
            },
        }
    }
}

/// Once a block is malformed, the blocks after it change nothing.
pub proof fn lemma_error_stays(
    g: GrammarModel,
    blocks: Seq<Seq<char>>,
    k: int,
    n: int,
    oid: Option<Oid>,
)
    requires
        k <= n,
        parse_blocks(g, blocks, k, oid) is Err,
    ensures
        parse_blocks(g, blocks, n, oid) == parse_blocks(g, blocks, k, oid),
    decreases n - k,
{
    if k < n {
        lemma_error_stays(g, blocks, k, n - 1, oid);
    }
}

/// A message that is the summary line written from its parts, and nothing
/// else, is parsed into a commit with these parts and without a body: the
/// prefix and the category are those written, and the text and the tags are
/// what is left of the written text once the tags are taken out. The line
/// must neither start nor end with white space, nor hold an empty line.
pub proof fn lemma_summary_only_round_trip(
    config: ConfigModel,
    letters: Seq<char>,
    digits: Seq<char>,
    k: int,
    text: Seq<char>,
    oid: Option<Oid>,
)
    requires
        summary_parts_wf(grammar_of(config), letters, digits, k, text),
        ({
            let line = summary_line(grammar_of(config), letters, digits, k, text);
            &&& !is_white_space(line[0])
            &&& !is_white_space(line.last())
            &&& is_one_block(line)
        }),
        extract_tags(text).1.len() > 0,
    ensures
        parse_message(config, summary_line(grammar_of(config), letters, digits, k, text), oid)
            == Ok::<CommitModel, ParseErrorModel>(
            CommitModel {
                oid,
                summary: SummaryModel {
                    oid,
                    prefix: prefix_text(letters, digits),
                    category: config.categories[k],
                    text: extract_tags(text).1,
                    tags: extract_tags(text).0,
                },
                body: Seq::empty(),
                footer: Seq::empty(),
            },
        ),
{
    let g = grammar_of(config);
    let line = summary_line(g, letters, digits, k, text);
    lemma_summary_round_trip(g, letters, digits, k, text);
    assert(line.len() > 0);
    // the message is one block
    crate::text::lemma_next_break(line, 0, line.len() as int);
    assert(line.subrange(0, line.len() as int) =~= line);
    assert(blocks_of(line) =~= seq![line]);
    // which trimming leaves as it is
    assert(trimmed(line) =~= line) by {
        assert(line.last() == line[line.len() - 1]);
    }
}

/// A message that is written as blocks with an empty line between each two
/// of them is parsed block by block: the first block, trimmed, gives the
/// summary, and the others give the body and the footers, or the first error.
/// No block may hold an empty line, and none but the last may end with a line
/// feed.
pub proof fn lemma_message_round_trip(config: ConfigModel, parts: Seq<Seq<char>>, oid: Option<Oid>)
    requires
        crate::text::blocks_wf(parts),
    ensures
        parse_message(config, crate::text::join(parts, seq!['\n', '\n']), oid) == if trimmed(
            parts[0],
        ).len() == 0 {
            Err::<CommitModel, ParseErrorModel>(ParseErrorModel::EmptyMessage)
        } else {
            match summary_of(grammar_of(config), trimmed(parts[0]), oid) {
                None => Err(ParseErrorModel::SummaryGrammar),
                Some(summary) => match parse_blocks(
                    grammar_of(config),
                    parts,
                    parts.len() as int,
                    oid,
                ) {
                    Err(e) => Err(e),
                    Ok((body, footer)) => Ok(CommitModel { oid, summary, body, footer }),
                },
            }
        },
{
    crate::text::lemma_blocks_round_trip(parts);
}

/// What the result of parsing holds, as mathematical values.
pub open spec fn outcome(r: Result<ParsedCommit, ParseError>) -> Result<
    CommitModel,
    ParseErrorModel,
> {
    match r {
        Ok(commit) => Ok(commit.deep_view()),
        Err(e) => Err(e.deep_view()),
    }
}

/// The parser of commit messages, and the releases it has assembled.
#[derive(Clone, Debug)]
pub struct Parser {
    pub config: Config,
    pub result: Vec<ParsedTag>,
}

/// The tags that one group of tags holds.
pub fn values_of(found: &str) -> (r: Vec<String>)
    ensures
        r.deep_view() == tag_values(found@),
{
    let pieces = split(&to_chars(found), ',');
    let mut r: Vec<String> = Vec::new();
    let mut i: usize = 0;
    assert(pieces.deep_view().take(0) =~= Seq::empty());
    while i < pieces.len()
        invariant
            i <= pieces.len(),
            r.deep_view() == kept_values(pieces.deep_view().take(i as int)),
        decreases pieces.len() - i,
    {
        proof {
            lemma_chars_deep_view(pieces@[i as int]);
            assert(pieces.deep_view().take(i + 1).drop_last() =~= pieces.deep_view().take(
                i as int,
            ));
            assert(pieces.deep_view().take(i + 1).last() == pieces@[i as int]@);
        }
        if !has_char(&pieces[i], '.') {
            let value = from_chars(&trim(&pieces[i]));
            let ghost before = r;
            r.push(value);
            proof {
                lemma_deep_view_push(before, r, value);
            }
        }
        i += 1;
    }
    assert(pieces.deep_view().take(i as int) =~= pieces.deep_view());
    r
}

/// The capture group `i` of a match.
pub fn group_of(m: &Vec<Option<String>>, i: usize) -> (r: Option<&String>)
    ensures
        r.deep_view() == group(m.deep_view(), i as int),
{
    if i < m.len() {
        m[i].as_ref()
    } else {
        None
    }
}

/// The strings made of the characters of each of `lines`.
pub fn strings_of(lines: &Vec<Vec<char>>) -> (r: Vec<String>)
    ensures
        r.deep_view() == lines.deep_view(),
{
    let mut r: Vec<String> = Vec::new();
    let mut i: usize = 0;
    while i < lines.len()
        invariant
            i <= lines.len(),
            r.deep_view() == lines.deep_view().take(i as int),
        decreases lines.len() - i,
    {
        let line = from_chars(&lines[i]);
        let ghost before = r;
        r.push(line);
        proof {
            lemma_deep_view_push(before, r, line);
            lemma_chars_deep_view(lines@[i as int]);
            assert(lines.deep_view().take(i as int).push(line@) =~= lines.deep_view().take(i + 1));
        }
        i += 1;
    }
    assert(lines.deep_view().take(i as int) =~= lines.deep_view());
    r
}

/// Whether `pattern` matches each of `lines`.
pub fn every_line_matches(pattern: &str, lines: &Vec<String>) -> (r: bool)
    ensures
        r == all_match(pattern@, lines.deep_view()),
{
    let mut i: usize = 0;
    while i < lines.len()
        invariant
            i <= lines.len(),
            forall|j: int| 0 <= j < i ==> regex_is_match(pattern@, #[trigger] lines.deep_view()[j]),
        decreases lines.len() - i,
    {
        if !is_match(pattern, lines[i].as_str()) {
            assert(!regex_is_match(pattern@, lines.deep_view()[i as int]));
            return false;
        }
        i += 1;
    }
    true
}

/// The footer that the first of `found`, the matches of [`FOOTER_LINE`] in a
/// line, makes.
pub fn footer_element(found: &Vec<Vec<Option<String>>>, oid: Option<Oid>) -> (r: Option<
    FooterElement,
>)
    requires
        found.len() > 0,
    ensures
        match (group(found.deep_view()[0], 1), group(found.deep_view()[0], 2)) {
            (Some(key), Some(value)) => r.deep_view() == Some(FooterModel { oid, key, value }),
            _ => r is None,
        },
{
    match (group_of(&found[0], 1), group_of(&found[0], 2)) {
        (Some(key), Some(value)) => Some(
            FooterElement { oid, key: key.clone(), value: value.clone() },
        ),
        _ => None,
    }
}

/// Reads the lines of a block as footers: whether they make a footer block,
/// and, where they do, the footers.
pub fn read_footers(lines: &Vec<String>, oid: Option<Oid>) -> (r: (
    bool,
    Option<Vec<FooterElement>>,
))
    ensures
        r.0 == is_footer_block(lines.deep_view()),
        r.0 ==> r.1.deep_view() == footers_of(lines.deep_view(), oid),
{
    let mut footers: Option<Vec<FooterElement>> = Some(Vec::new());
    let mut seen = false;
    let mut i: usize = 0;
    assert(lines.deep_view().take(0) =~= Seq::empty());
    assert(footers.deep_view() == Some(Seq::<FooterModel>::empty())) by {
        assert(footers->0.deep_view() =~= Seq::<FooterModel>::empty());
    }
    while i < lines.len()
        invariant
            i <= lines.len(),
            seen == (exists|j: int| 0 <= j < i && (#[trigger] lines.deep_view()[j]).len() > 0),
            forall|j: int|
                0 <= j < i && (#[trigger] lines.deep_view()[j]).len() > 0 ==> is_footer_line(
                    lines.deep_view()[j],
                ),
            footers.deep_view() == footers_of(lines.deep_view().take(i as int), oid),
        decreases lines.len() - i,
    {
        let ghost line = lines.deep_view()[i as int];
        proof {
            assert(lines.deep_view().take(i + 1).drop_last() =~= lines.deep_view().take(i as int));
            assert(lines.deep_view().take(i + 1).last() == line);
            assert(line == lines@[i as int]@);
        }
        if !lines[i].as_str().is_empty() {
            let found = captures(FOOTER_LINE, lines[i].as_str());
            if found.len() == 0 {
                assert(!is_footer_line(line));
                return (false, None);
            }
            seen = true;
            match footers {
                None => {},
                Some(mut list) => {
                    match footer_element(&found, oid) {
                        None => {
                            footers = None;
                        },
                        Some(footer) => {
                            let ghost before = list;
                            list.push(footer);
                            proof {
                                lemma_deep_view_push(before, list, footer);
                            }
                            footers = Some(list);
                        },
                    }
                },
            }
        }
        i += 1;
    }
    assert(lines.deep_view().take(i as int) =~= lines.deep_view());
    if seen {
        (true, footers)
    } else {
        (false, None)
    }
}

/// What `block` is, given its lines, and its footers where it is a footer.
pub fn classify(block: &str, lines: &Vec<String>, oid: Option<Oid>) -> (r: (
    BlockKind,
    Option<Vec<FooterElement>>,
))
    requires
        lines.deep_view() == lines_of(block@),
    ensures
        r.0 == block_kind(block@),
        r.0 == BlockKind::Footer ==> r.1.deep_view() == footers_of(lines_of(block@), oid),
{
    let comment = block.is_empty() || every_line_matches(COMMENT_LINE, lines);
    let (footer, footers) = read_footers(lines, oid);
    let list = every_line_matches(LIST_LINE, lines);
    let paragraph = is_match(PARAGRAPH_START, block);
    (BlockKind::decide(comment, footer, list, paragraph), footers)
}

impl BlockKind {
    /// The kind of a block, given what it looks like.
    pub fn decide(comment: bool, footer: bool, list: bool, paragraph: bool) -> (r: BlockKind)
        ensures
            r == first_kind(comment, footer, list, paragraph),
    {
        if comment {
            BlockKind::Comment
        } else if footer {
            BlockKind::Footer
        } else if list {
            BlockKind::List
        } else if paragraph {
            BlockKind::Paragraph
        } else {
            BlockKind::Unrecognized
        }
    }
}

/// The summary that the trimmed first block `line` of a message is.
pub fn summary_element(g: &CategoryGrammar, line: &Vec<char>, oid: Option<Oid>) -> (r: Option<
    SummaryElement,
>)
    ensures
        r.deep_view() == summary_of(g.deep_view(), line@, oid),
        r matches Some(summary) ==> summary.text@.len() > 0 && g.deep_view().categories.contains(
            summary.category@,
        ),
{
    match g.read_summary(line) {
        None => None,
        Some((p, k, t)) => {
            let rest = string_of(line, t, line.len());
            assert(line@.subrange(t as int, line.len() as int) =~= line@.skip(t as int));
            let (tags, text) = Parser::parse_and_consume_tags(rest.as_str());
            if text.as_str().is_empty() {
                None
            } else {
                assert(line@.subrange(0, p as int) =~= line@.take(p as int));
                proof {
                    lemma_chars_deep_view(g.categories@[k as int]);
                    assert(g.deep_view().categories[k as int] == g.categories@[k as int]@);
                }
                Some(
                    SummaryElement {
                        oid,
                        prefix: string_of(line, 0, p),
                        category: from_chars(&g.categories[k]),
                        text,
                        tags,
                    },
                )
            }
        },
    }
}

/// The list item that `line` is.
pub fn list_element(g: &CategoryGrammar, line: &Vec<char>, oid: Option<Oid>) -> (r: Option<
    ListElement,
>)
    ensures
        r.deep_view() == item_of(g.deep_view(), line@, oid),
{
    match g.read_item(line) {
        None => None,
        Some((category, t)) => {
            let rest = string_of(line, t, line.len());
            assert(line@.subrange(t as int, line.len() as int) =~= line@.skip(t as int));
            let (tags, text) = Parser::parse_and_consume_tags(rest.as_str());
            let category = match category {
                Some(k) => {
                    proof {
                        lemma_chars_deep_view(g.categories@[k as int]);
                    }
                    from_chars(&g.categories[k])
                },
                None => String::new(),
            };
            Some(ListElement { oid, category, text, tags })
        },
    }
}

/// The list items among `lines`, in order.
pub fn list_elements(g: &CategoryGrammar, lines: &Vec<Vec<char>>, oid: Option<Oid>) -> (r: Vec<
    ListElement,
>)
    ensures
        r.deep_view() == items_of(g.deep_view(), lines.deep_view(), oid),
{
    let mut r: Vec<ListElement> = Vec::new();
    let mut i: usize = 0;
    assert(lines.deep_view().take(0) =~= Seq::empty());
    assert(r.deep_view() =~= Seq::empty());
    while i < lines.len()
        invariant
            i <= lines.len(),
            r.deep_view() == items_of(g.deep_view(), lines.deep_view().take(i as int), oid),
        decreases lines.len() - i,
    {
        proof {
            lemma_chars_deep_view(lines@[i as int]);
            assert(lines.deep_view().take(i + 1).drop_last() =~= lines.deep_view().take(i as int));
            assert(lines.deep_view().take(i + 1).last() == lines@[i as int]@);
        }
        match list_element(g, &lines[i], oid) {
            Some(item) => {
                let ghost before = r;
                r.push(item);
                proof {
                    lemma_deep_view_push(before, r, item);
                }
            },
            None => {},
        }
        i += 1;
    }
    assert(lines.deep_view().take(i as int) =~= lines.deep_view());
    r
}

/// The paragraph that `block` is.
pub fn paragraph_element(block: &str, oid: Option<Oid>) -> (r: ParagraphElement)
    ensures
        r.deep_view() == paragraph_of(block@, oid),
{
    let (tags, text) = Parser::parse_and_consume_tags(block);
    ParagraphElement { oid, text: from_chars(&trim(&to_chars(text.as_str()))), tags }
}

impl Parser {
    /// The tags and the text that are left of a text, given the matches of
    /// [`INLINE_TAGS`] in it and the text without them.
    pub fn collect_tags(matches: &Vec<Vec<Option<String>>>, replaced: &str) -> (r: (
        Vec<String>,
        String,
    ))
        ensures
            r.0.deep_view() == tags_of(matches.deep_view()),
            r.1@ == without_period(replaced@),
            matches.len() == 0 ==> r.0.len() == 0,
    {
        let mut tags: Vec<String> = Vec::new();
        let mut i: usize = 0;
        assert(matches.deep_view().take(0) =~= Seq::empty());
        while i < matches.len()
            invariant
                i <= matches.len(),
                tags.deep_view() == tags_of(matches.deep_view().take(i as int)),
            decreases matches.len() - i,
        {
            proof {
                assert(matches.deep_view().take(i + 1).drop_last() =~= matches.deep_view().take(
                    i as int,
                ));
                assert(matches.deep_view().take(i + 1).last() == matches@[i as int].deep_view());
            }
            match group_of(&matches[i], 1) {
                Some(found) => {
                    let mut values = values_of(found.as_str());
                    let ghost before = tags.deep_view();
                    let ghost added = values.deep_view();
                    tags.append(&mut values);
                    assert(tags.deep_view() =~= before + added);
                },
                None => {
                    assert(tags.deep_view() + Seq::<Seq<char>>::empty() =~= tags.deep_view());
                },
            }
            i += 1;
        }
        assert(matches.deep_view().take(i as int) =~= matches.deep_view());
        let chars = to_chars(replaced);
        let n = chars.len();
        let text = if n > 0 && chars[n - 1] == '.' {
            assert(chars@.subrange(0, n - 1) =~= chars@.drop_last());
            string_of(&chars, 0, n - 1)
        } else {
            from_chars(&chars)
        };
        (tags, text)
    }

    /// Takes the inline tags out of a text: the tags, and the text without them.
    ///
    /// A text in which no group of tags is found, and which does not end
    /// with a period, comes back as it is, with no tags.
    pub fn parse_and_consume_tags(input: &str) -> (r: (Vec<String>, String))
        ensures
            r.0.deep_view() == extract_tags(input@).0,
            r.1@ == extract_tags(input@).1,
            regex_captures(INLINE_TAGS@, input@).len() == 0 ==> r.0.len() == 0 && r.1@
                == without_period(input@),
            regex_captures(INLINE_TAGS@, input@).len() == 0 && !(input@.len() > 0 && input@.last()
                == '.') ==> r.1@ == input@,
    {
        let matches = captures(INLINE_TAGS, input);
        assert(matches.deep_view().len() == matches.len());
        let replaced = replace_all(INLINE_TAGS, input, "");
        proof {
            reveal_strlit("");
            assert(""@ =~= Seq::<char>::empty());
        }
        Self::collect_tags(&matches, replaced.as_str())
    }

    /// Parses a commit message.
    ///
    /// The summary of a commit that comes out has a category of the
    /// configuration and a text that is not empty.
    pub fn parse_commit_message(&self, message: &str, oid: Option<Oid>) -> (r: Result<
        ParsedCommit,
        ParseError,
    >)
        requires
            self.config.valid(),
        ensures
            outcome(r) == parse_message(self.config.deep_view(), message@, oid),
            r matches Ok(commit) ==> commit.summary.text@.len() > 0
                && self.config.deep_view().categories.contains(commit.summary.category@),
    {
        let g = CategoryGrammar::new(&self.config);
        let parts = blocks(&to_chars(message));
        proof {
            lemma_chars_deep_view(parts@[0]);
        }
        let first = trim(&parts[0]);
        if first.len() == 0 {
            return Err(ParseError::EmptyMessage);
        }
        let summary = match summary_element(&g, &first, oid) {
            None => {
                return Err(ParseError::SummaryGrammar);
            },
            Some(summary) => summary,
        };
        let mut body: Vec<BodyElement> = Vec::new();
        let mut footer: Vec<FooterElement> = Vec::new();
        let mut i: usize = 1;
        assert(body.deep_view() =~= Seq::empty());
        assert(footer.deep_view() =~= Seq::empty());
        while i < parts.len()
            invariant
                1 <= i <= parts.len(),
                parts.deep_view() == blocks_of(message@),
                g.deep_view() == grammar_of(self.config.deep_view()),
                trimmed(blocks_of(message@)[0]).len() > 0,
                summary_of(g.deep_view(), trimmed(blocks_of(message@)[0]), oid) == Some(
                    summary.deep_view(),
                ),
                parse_blocks(g.deep_view(), parts.deep_view(), i as int, oid) == Ok::<
                    (Seq<BodyModel>, Seq<FooterModel>),
                    ParseErrorModel,
                >((body.deep_view(), footer.deep_view())),
            decreases parts.len() - i,
        {
            proof {
                lemma_chars_deep_view(parts@[i as int]);
            }
            let block = from_chars(&parts[i]);
            let block_lines = lines(&parts[i]);
            let line_strings = strings_of(&block_lines);
            let (kind, footers) = classify(block.as_str(), &line_strings, oid);
            match kind {
                BlockKind::Comment => {},
                BlockKind::Footer => match footers {
                    None => {
                        proof {
                            lemma_error_stays(
                                g.deep_view(),
                                parts.deep_view(),
                                i + 1,
                                parts.len() as int,
                                oid,
                            );
                        }
                        return Err(ParseError::FooterGrammar);
                    },
                    Some(mut more) => {
                        let ghost before = footer.deep_view();
                        let ghost added = more.deep_view();
                        footer.append(&mut more);
                        assert(footer.deep_view() =~= before + added);
                    },
                },
                BlockKind::List => {
                    let items = list_elements(&g, &block_lines, oid);
                    let element = BodyElement::List(items);
                    let ghost before = body;
                    body.push(element);
                    proof {
                        lemma_deep_view_push(before, body, element);
                    }
                },
                BlockKind::Paragraph => {
                    let element = BodyElement::Paragraph(paragraph_element(block.as_str(), oid));
                    let ghost before = body;
                    body.push(element);
                    proof {
                        lemma_deep_view_push(before, body, element);
                    }
                },
                BlockKind::Unrecognized => {
                    proof {
                        lemma_error_stays(
                            g.deep_view(),
                            parts.deep_view(),
                            i + 1,
                            parts.len() as int,
                            oid,
                        );
                    }
                    return Err(ParseError::UnrecognizedBlock(block));
                },
            }
            i += 1;
        }
        Ok(ParsedCommit { oid, summary, body, footer })
    }
}

} // verus!
