//! The journal of a repository: parsing its log, checking and preparing
//! commit messages, and making a template from the tags in use.
use crate::changelog::{log_rendering, root_of};
use crate::config::{Config, ConfigModel};
use crate::correlate::{
    correlate, correlation, Correlation, LogEntry, ScanInput, WorkItem, WorkModel,
};
use crate::document::{commits_tags, Date, Oid, ParsedCommit, TagModel, TOML_DEFAULT_KEY};
use crate::footers::join_strings;
use crate::order::sorted_unique;
use crate::output::Output;
use crate::parser::{outcome, parse_message, ParseError, ParseErrorModel, Parser};
use crate::schedule::{assemble, assembled, outcomes, slot_of};
use crate::tags::Tags;
use crate::template::{
    entry_models, table_tags, Value, ValueModel, TOML_FOOTERS_KEY,
    TOML_FOOTER_KEY, TOML_HEADER_KEY, TOML_NAME_KEY, TOML_ONCE_KEY, TOML_TAG, TOML_TEXT_KEY,
};
use crate::text::{
    append_str, contains, contains_seq, from_chars, has_string, join, lemma_chars_deep_view,
    lemma_deep_view_push, lines, lines_of, same_str, to_chars,
};
use vstd::prelude::*;

verus! {

/// The value of `sort_by` that asks for commits sorted by category.
pub const SORT_BY_NAME: &'static str = "name";

/// The kind of commit whose message the user cannot edit any more.
pub const COMMIT_TYPE_MESSAGE: &'static str = "message";

/// The first line of a hook that is created.
pub const HOOK_HEADER: &'static str = "#!/usr/bin/env sh\n";

/// The journal of a repository.
#[derive(Clone, Debug)]
pub struct GitJournal {
    pub config: Config,
    pub parser: Parser,
    /// The directory of the repository.
    pub path: String,
    /// The tags of the repository: the commit that each one names, and its name.
    pub tags: Vec<(Oid, String)>,
}

/// What parsing a log has read.
#[derive(Clone, Debug, PartialEq, Eq)]
pub struct ParseReport {
    /// The number of messages that were handed to the parser.
    pub processed: usize,
    /// The commits whose messages could not be parsed, and why.
    pub failures: Vec<(Oid, ParseError)>,
}

/// Why a commit message is refused.
#[derive(Clone, Debug, PartialEq, Eq)]
pub enum VerifyError {
    /// The message does not follow the grammar.
    Parse(ParseError),
    /// These tags of the message are no sections of the template.
    UnknownTags(Vec<String>),
}

/// What a [`VerifyError`] holds, as mathematical values.
pub enum VerifyErrorModel {
    Parse(ParseErrorModel),
    UnknownTags(Seq<Seq<char>>),
}

impl DeepView for VerifyError {
    type V = VerifyErrorModel;

    open spec fn deep_view(&self) -> VerifyErrorModel {
        match self {
            VerifyError::Parse(e) => VerifyErrorModel::Parse(e.deep_view()),
            VerifyError::UnknownTags(tags) => VerifyErrorModel::UnknownTags(tags.deep_view()),
        }
    }
}

/// The results of parsing each message of `worklist`.
pub open spec fn slots_of(parser: Parser, worklist: Seq<WorkModel>) -> Seq<
    Result<crate::document::CommitModel, ParseErrorModel>,
> {
    Seq::new(worklist.len(), |k: int| slot_of(parser, worklist[k]))
}

/// The commits among `worklist` whose messages could not be parsed, with the
/// errors, in order.
pub open spec fn failures_of(
    worklist: Seq<WorkModel>,
    slots: Seq<Result<crate::document::CommitModel, ParseErrorModel>>,
) -> Seq<(Oid, ParseErrorModel)>
    decreases worklist.len(),
{
    if worklist.len() == 0 {
        Seq::empty()
    } else {
        match slots[worklist.len() - 1] {
            Err(e) => failures_of(worklist.drop_last(), slots).push((worklist.last().oid, e)),
            Ok(_) => failures_of(worklist.drop_last(), slots),
        }
    }
}

/// The releases that reading a log leaves: those of the history, each with
/// the commits whose messages could be parsed, those without commits left
/// out.
pub open spec fn parsed_log(parser: Parser, p: ScanInput, by_name: bool) -> Seq<TagModel> {
    assembled(correlation(p).releases, slots_of(parser, correlation(p).worklist), by_name)
}

/// Reading a log leaves at most one release more than tags have opened, and,
/// where not all releases are asked for, at most one more than the limit
/// allows.
pub proof fn lemma_log_limit(parser: Parser, p: ScanInput, by_name: bool)
    requires
        p.commits.len() <= usize::MAX,
    ensures
        parsed_log(parser, p, by_name).len() <= correlation(p).releases.len(),
        !p.all ==> parsed_log(parser, p, by_name).len() <= crate::correlate::release_limit(p) + 1,
{
    crate::correlate::lemma_release_count(p);
    crate::schedule::lemma_assembled_len(
        correlation(p).releases,
        slots_of(parser, correlation(p).worklist),
        by_name,
    );
}

/// The commits that reading a log leaves are those whose messages were
/// queued and could be parsed, each once: in the order of the history where
/// the commits are not sorted, and as a whole in any case. Each of them
/// carries the identifier of the commit that its message is of.
pub proof fn lemma_log_partition(parser: Parser, p: ScanInput, by_name: bool)
    requires
        p.commits.len() <= usize::MAX,
    ensures
        ({
            let worklist = correlation(p).worklist;
            let slots = slots_of(parser, worklist);
            let parsed = crate::schedule::resolved(
                crate::correlate::iota(worklist.len() as int),
                slots,
            );
            let left = crate::schedule::log_commits(parsed_log(parser, p, by_name));
            &&& left.to_multiset() == parsed.to_multiset()
            &&& !by_name ==> left == parsed
            &&& forall|k: int|
                0 <= k < worklist.len() ==> (#[trigger] slots[k] matches Ok(commit) ==> commit.oid
                    == Some(worklist[k].oid) && commit.summary.oid == Some(worklist[k].oid))
        }),
{
    let c = correlation(p);
    let slots = slots_of(parser, c.worklist);
    crate::correlate::lemma_partition(p);
    crate::correlate::lemma_no_commits_yet(p);
    crate::schedule::lemma_assembled_commits(c.releases, slots, by_name);
    assert forall|k: int| 0 <= k < c.worklist.len() implies (#[trigger] slots[k] matches Ok(
        commit,
    ) ==> commit.oid == Some(c.worklist[k].oid) && commit.summary.oid == Some(
        c.worklist[k].oid,
    )) by {
        assert(slots[k] == slot_of(parser, c.worklist[k]));
    }
}

/// The commits after the one at which the scan of a log ends change nothing
/// of what reading the log leaves, nor does the message of that commit:
/// none of them is parsed.
pub proof fn lemma_log_ignores_rest(parser: Parser, p: ScanInput, q: ScanInput, by_name: bool)
    requires
        crate::correlate::same_rules(p, q),
        p.commits.len() <= usize::MAX,
        q.commits.len() <= usize::MAX,
        crate::correlate::scan(p, p.commits.len() as int).halted,
        ({
            let h = crate::correlate::scan(p, p.commits.len() as int).fate.len() as int;
            &&& h < q.commits.len()
            &&& forall|i: int| 0 <= i < h ==> p.commits[i] == q.commits[i]
            &&& p.commits[h].id == q.commits[h].id
            &&& p.commits[h].date == q.commits[h].date
        }),
    ensures
        parsed_log(parser, q, by_name) == parsed_log(parser, p, by_name),
        correlation(q).worklist == correlation(p).worklist,
{
    crate::correlate::lemma_rest_is_not_read(p, q);
}

/// The strings of `tags` that are not among `known`, in order.
pub open spec fn unknown_tags(tags: Seq<Seq<char>>, known: Seq<Seq<char>>) -> Seq<Seq<char>>
    decreases tags.len(),
{
    if tags.len() == 0 {
        Seq::empty()
    } else if known.contains(tags.last()) {
        unknown_tags(tags.drop_last(), known)
    } else {
        unknown_tags(tags.drop_last(), known).push(tags.last())
    }
}

/// Whether `message` is accepted: it follows the grammar, and where a
/// template is given, each of its tags is a section of the template.
pub open spec fn verification(
    config: ConfigModel,
    message: Seq<char>,
    template: Option<ValueModel>,
) -> Result<(), VerifyErrorModel> {
    match parse_message(config, message, None) {
        Err(e) => Err(VerifyErrorModel::Parse(e)),
        Ok(commit) => match template {
            Some(ValueModel::Table(table)) => {
                let unknown = unknown_tags(sorted_unique(commit.tags()), table_tags(table));
                if unknown.len() > 0 {
                    Err(VerifyErrorModel::UnknownTags(unknown))
                } else {
                    Ok(())
                }
            },
            _ => Ok(()),
        },
    }
}

/// The lines of `lines` that are not empty, each as a comment: a line that
/// starts with `#` as it is, another after `# `.
pub open spec fn commented(lines: Seq<Seq<char>>) -> Seq<Seq<char>>
    decreases lines.len(),
{
    if lines.len() == 0 {
        Seq::empty()
    } else {
        let line = lines.last();
        if line.len() == 0 {
            commented(lines.drop_last())
        } else if line[0] == '#' {
            commented(lines.drop_last()).push(line)
        } else {
            commented(lines.drop_last()).push("# "@ + line)
        }
    }
}

/// The message that was given, as comments under a heading; nothing where it
/// has no line that is not empty.
pub open spec fn given_message(message: Seq<char>) -> Seq<Seq<char>> {
    let lines = commented(lines_of(message));
    if lines.len() > 0 {
        seq!["# The provided commit message:"@] + lines
    } else {
        lines
    }
}

/// The message that is put before the user where the given one is refused:
/// the prefix of the configuration, the first category, the list of the
/// categories as a comment, and the given message as comments.
pub open spec fn prepared_message(config: ConfigModel, message: Seq<char>) -> Seq<char> {
    (if config.template_prefix.len() == 0 {
        Seq::empty()
    } else {
        config.template_prefix + " "@
    }) + config.categories[0] + " ...\n\n# Add a more detailed description if needed\n\n# - "@
        + join(config.categories, "\n# - "@) + "\n\n"@ + join(given_message(message), "\n"@)
}

/// The section that a generated template has for `tag`.
pub open spec fn section_model(tag: Seq<char>) -> ValueModel {
    ValueModel::Table(
        seq![
            (TOML_FOOTERS_KEY@, ValueModel::Array(Seq::empty())),
            (TOML_NAME_KEY@, ValueModel::String(tag)),
            (TOML_TAG@, ValueModel::String(tag)),
        ],
    )
}

/// The sections that a generated template has for `tags`.
pub open spec fn section_models(tags: Seq<Seq<char>>) -> Seq<ValueModel>
    decreases tags.len(),
{
    if tags.len() == 0 {
        Seq::empty()
    } else {
        section_models(tags.drop_last()).push(section_model(tags.last()))
    }
}

/// The header, and the footer, of a generated template: empty, and printed
/// with every release.
pub open spec fn empty_banner() -> ValueModel {
    ValueModel::Table(
        seq![
            (TOML_ONCE_KEY@, ValueModel::Boolean(false)),
            (TOML_TEXT_KEY@, ValueModel::String(Seq::empty())),
        ],
    )
}

/// The template with one section for each of `tags`.
pub open spec fn template_model(tags: Seq<Seq<char>>) -> ValueModel {
    ValueModel::Table(
        seq![
            (TOML_FOOTER_KEY@, empty_banner()),
            (TOML_HEADER_KEY@, empty_banner()),
            ("tags"@, ValueModel::Array(section_models(tags))),
        ],
    )
}

/// The tags that a generated template has sections for: `default` and the
/// tags of the releases, gathered release by release, each time sorted and
/// without repeats.
pub open spec fn template_tags(releases: Seq<TagModel>) -> Seq<Seq<char>>
    decreases releases.len(),
{
    if releases.len() == 0 {
        seq![TOML_DEFAULT_KEY@]
    } else {
        sorted_unique(template_tags(releases.drop_last()) + commits_tags(releases.last().commits))
    }
}

/// What is written to a hook so that it runs `content`: nothing where the
/// hook runs it already, `content` where the hook exists, and a new hook with
/// `content` where it does not.
pub open spec fn hook_text(existing: Option<Seq<char>>, content: Seq<char>) -> Option<Seq<char>> {
    match existing {
        Some(hook) => if contains_seq(hook, content) {
            None
        } else {
            Some(content)
        },
        None => Some(HOOK_HEADER@ + content),
    }
}

/// What is written to a hook so that it runs `content`.
pub fn hook_update(existing: Option<&str>, content: &str) -> (r: Option<String>)
    ensures
        r.deep_view() == hook_text(crate::render::tag_view(existing), content@),
{
    match existing {
        Some(hook) => {
            if contains(&to_chars(hook), &to_chars(content)) {
                None
            } else {
                Some(content.to_owned())
            }
        },
        None => {
            let mut chars = to_chars(HOOK_HEADER);
            append_str(&mut chars, content);
            Some(from_chars(&chars))
        },
    }
}

/// Whether the user can no longer edit the message of a commit of the kind
/// `commit_type`: that is so for a message given on the command line.
pub fn is_fixed(commit_type: Option<&str>) -> (r: bool)
    ensures
        r == (commit_type matches Some(t) && t@ == COMMIT_TYPE_MESSAGE@),
{
    match commit_type {
        Some(t) => same_str(t, COMMIT_TYPE_MESSAGE),
        None => false,
    }
}

/// The template that a log is printed through.
#[derive(Clone, Copy, Debug, PartialEq, Eq)]
pub enum TemplateChoice {
    /// The template that was asked for.
    Given,
    /// The default template of the configuration.
    Default,
    /// None: the log is printed as a flat list.
    Flat,
}

/// The template that a log is printed through: the one asked for; else the
/// default template of the configuration, if it names one and the file is
/// there; else none.
pub open spec fn chosen_template(given: bool, has_default: bool, default_exists: bool) -> TemplateChoice {
    if given {
        TemplateChoice::Given
    } else if has_default && default_exists {
        TemplateChoice::Default
    } else {
        TemplateChoice::Flat
    }
}

/// The template that a log is printed through.
pub fn choose_template(given: bool, has_default: bool, default_exists: bool) -> (r: TemplateChoice)
    ensures
        r == chosen_template(given, has_default, default_exists),
{
    if given {
        TemplateChoice::Given
    } else if has_default && default_exists {
        TemplateChoice::Default
    } else {
        TemplateChoice::Flat
    }
}

/// The strings of `tags` that are not among `known`, in order.
pub fn find_unknown_tags(tags: &Vec<String>, known: &Vec<String>) -> (r: Vec<String>)
    ensures
        r.deep_view() == unknown_tags(tags.deep_view(), known.deep_view()),
{
    let ghost all = tags.deep_view();
    let mut r: Vec<String> = Vec::new();
    let mut i: usize = 0;
    proof {
        assert(all.take(0) =~= Seq::empty());
        assert(r.deep_view() =~= Seq::empty());
    }
    while i < tags.len()
        invariant
            i <= tags.len(),
            all == tags.deep_view(),
            r.deep_view() == unknown_tags(all.take(i as int), known.deep_view()),
        decreases tags.len() - i,
    {
        proof {
            assert(all.take(i + 1).drop_last() =~= all.take(i as int));
            assert(all.take(i + 1).last() == tags@[i as int]@);
        }
        if !has_string(known, tags[i].as_str()) {
            let tag = tags[i].clone();
            let ghost before = r;
            r.push(tag);
            proof {
                lemma_deep_view_push(before, r, tag);
            }
        }
        i += 1;
    }
    assert(all.take(i as int) =~= all);
    r
}

/// The lines of `lines` that are not empty, each as a comment.
pub fn comment_lines(lines: &Vec<Vec<char>>) -> (r: Vec<String>)
    ensures
        r.deep_view() == commented(lines.deep_view()),
{
    let ghost all = lines.deep_view();
    let mut r: Vec<String> = Vec::new();
    let mut i: usize = 0;
    proof {
        assert(all.take(0) =~= Seq::empty());
        assert(r.deep_view() =~= Seq::empty());
    }
    while i < lines.len()
        invariant
            i <= lines.len(),
            all == lines.deep_view(),
            r.deep_view() == commented(all.take(i as int)),
        decreases lines.len() - i,
    {
        proof {
            lemma_chars_deep_view(lines@[i as int]);
            assert(all.take(i + 1).drop_last() =~= all.take(i as int));
            assert(all.take(i + 1).last() == lines@[i as int]@);
        }
        if lines[i].len() > 0 {
            let line = if lines[i][0] == '#' {
                from_chars(&lines[i])
            } else {
                let mut chars = to_chars("# ");
                let mut copy = crate::text::slice_of(&lines[i], 0, lines[i].len());
                assert(lines@[i as int]@.subrange(0, lines@[i as int]@.len() as int)
                    =~= lines@[i as int]@);
                chars.append(&mut copy);
                from_chars(&chars)
            };
            let ghost before = r;
            r.push(line);
            proof {
                lemma_deep_view_push(before, r, line);
            }
        }
        i += 1;
    }
    assert(all.take(i as int) =~= all);
    r
}

/// The message that is put before the user where the given one is refused.
pub fn prepare_message(config: &Config, message: &str) -> (r: String)
    requires
        config.valid(),
    ensures
        r@ == prepared_message(config.deep_view(), message@),
{
    let mut given = comment_lines(&lines(&to_chars(message)));
    if given.len() > 0 {
        let ghost before = given.deep_view();
        given.insert(0, "# The provided commit message:".to_owned());
        assert(given.deep_view() =~= seq!["# The provided commit message:"@] + before);
    }
    assert(given.deep_view() == given_message(message@));
    let mut chars: Vec<char> = Vec::new();
    if !config.template_prefix.as_str().is_empty() {
        append_str(&mut chars, config.template_prefix.as_str());
        append_str(&mut chars, " ");
    }
    let ghost prefix: Seq<char> = if config.template_prefix@.len() == 0 {
        Seq::empty()
    } else {
        config.template_prefix@ + " "@
    };
    assert(chars@ =~= prefix);
    append_str(&mut chars, config.categories[0].as_str());
    append_str(&mut chars, " ...\n\n# Add a more detailed description if needed\n\n# - ");
    let mut list = join_strings(&config.categories, "\n# - ");
    chars.append(&mut list);
    append_str(&mut chars, "\n\n");
    let mut old_message = join_strings(&given, "\n");
    chars.append(&mut old_message);
    assert(config.deep_view().categories[0] == config.categories@[0]@);
    assert(chars@ =~= prepared_message(config.deep_view(), message@));
    from_chars(&chars)
}

/// A string of a template.
pub fn string_value(s: &str) -> (r: Value)
    ensures
        r.model() == ValueModel::String(s@),
{
    Value::String(s.to_owned())
}

/// The section that a generated template has for `tag`.
pub fn section_for(tag: &str) -> (r: Value)
    ensures
        r.model() == section_model(tag@),
{
    let mut entries: Vec<(String, Value)> = Vec::new();
    let none: Vec<Value> = Vec::new();
    assert(crate::template::models(none@) =~= Seq::empty());
    entries.push((TOML_FOOTERS_KEY.to_owned(), Value::Array(none)));
    entries.push((TOML_NAME_KEY.to_owned(), string_value(tag)));
    entries.push((TOML_TAG.to_owned(), string_value(tag)));
    proof {
        crate::template::lemma_entry_models(entries@);
        assert(entry_models(entries@) =~= section_model(tag@)->Table_0);
    }
    Value::Table(entries)
}

/// The header, and the footer, of a generated template.
pub fn banner_value() -> (r: Value)
    ensures
        r.model() == empty_banner(),
{
    let mut entries: Vec<(String, Value)> = Vec::new();
    entries.push((TOML_ONCE_KEY.to_owned(), Value::Boolean(false)));
    entries.push((TOML_TEXT_KEY.to_owned(), Value::String(String::new())));
    proof {
        crate::template::lemma_entry_models(entries@);
        assert(entry_models(entries@) =~= empty_banner()->Table_0);
    }
    Value::Table(entries)
}

/// The template with one section for each of `tags`.
pub fn template_for(tags: &Vec<String>) -> (r: Value)
    ensures
        r.model() == template_model(tags.deep_view()),
{
    let ghost all = tags.deep_view();
    let mut sections: Vec<Value> = Vec::new();
    let mut i: usize = 0;
    proof {
        assert(all.take(0) =~= Seq::empty());
        assert(crate::template::models(sections@) =~= Seq::empty());
    }
    while i < tags.len()
        invariant
            i <= tags.len(),
            all == tags.deep_view(),
            crate::template::models(sections@) == section_models(all.take(i as int)),
        decreases tags.len() - i,
    {
        proof {
            assert(all.take(i + 1).drop_last() =~= all.take(i as int));
            assert(all.take(i + 1).last() == tags@[i as int]@);
        }
        let section = section_for(tags[i].as_str());
        let ghost before = sections@;
        sections.push(section);
        proof {
            assert(sections@.drop_last() =~= before);
        }
        i += 1;
    }
    assert(all.take(i as int) =~= all);
    let mut entries: Vec<(String, Value)> = Vec::new();
    entries.push((TOML_FOOTER_KEY.to_owned(), banner_value()));
    entries.push((TOML_HEADER_KEY.to_owned(), banner_value()));
    entries.push(("tags".to_owned(), Value::Array(sections)));
    proof {
        crate::template::lemma_entry_models(entries@);
        assert(entry_models(entries@) =~= template_model(all)->Table_0);
    }
    Value::Table(entries)
}

impl GitJournal {
    /// The journal of the repository at `path`, with its tags.
    pub fn new(path: String, config: Config, tags: Vec<(Oid, String)>) -> (r: GitJournal)
        ensures
            r.path == path,
            r.tags == tags,
            r.config.deep_view() == config.deep_view(),
            r.parser.config.deep_view() == config.deep_view(),
            r.parser.result@.len() == 0,
    {
        let copy = copy_config(&config);
        GitJournal { config, parser: Parser { config: copy, result: Vec::new() }, path, tags }
    }

    /// Checks a commit message: it must follow the grammar, and where a
    /// template is given, its tags must be sections of the template.
    pub fn verify(&self, message: &str, template: Option<&Value>) -> (r: Result<(), VerifyError>)
        requires
            self.parser.config.valid(),
        ensures
            match r {
                Ok(_) => verification(self.parser.config.deep_view(), message@, root_of(template))
                    is Ok,
                Err(e) => verification(self.parser.config.deep_view(), message@, root_of(template))
                    == Err::<(), VerifyErrorModel>(e.deep_view()),
            },
    {
        let parsed = match self.parser.parse_commit_message(message, None) {
            Ok(commit) => commit,
            Err(e) => {
                return Err(VerifyError::Parse(e));
            },
        };
        let none: Vec<String> = Vec::new();
        assert(none.deep_view() + parsed.tag_list() =~= parsed.deep_view().tags());
        let tags = parsed.get_tags_unique(none);
        match template {
            Some(Value::Table(table)) => {
                let empty: Vec<String> = Vec::new();
                assert(empty.deep_view() + table_tags(entry_models(table@)) =~= table_tags(
                    entry_models(table@),
                ));
                let known = self.parser.get_tags_from_toml(table, empty);
                let unknown = find_unknown_tags(&tags, &known);
                if unknown.len() > 0 {
                    assert(unknown.deep_view().len() == unknown.len());
                    Err(VerifyError::UnknownTags(unknown))
                } else {
                    assert(unknown.deep_view().len() == unknown.len());
                    Ok(())
                }
            },
            _ => Ok(()),
        }
    }

    /// Prepares a commit message for the user. A message that is accepted
    /// stays as it is: the result is `None`. One that is refused is replaced
    /// by [`prepared_message`], unless the user cannot edit it any more, as
    /// `commit_type` tells: then the error comes back.
    pub fn prepare(&self, message: &str, commit_type: Option<&str>, template: Option<&Value>) -> (r:
        Result<Option<String>, VerifyError>)
        requires
            self.parser.config.valid(),
            self.config.valid(),
        ensures
            match verification(self.parser.config.deep_view(), message@, root_of(template)) {
                Ok(_) => r matches Ok(None),
                Err(e) => if commit_type matches Some(t) && t@ == COMMIT_TYPE_MESSAGE@ {
                    r matches Err(given) && given.deep_view() == e
                } else {
                    r matches Ok(Some(content)) && content@ == prepared_message(
                        self.config.deep_view(),
                        message@,
                    )
                },
            },
    {
        match self.verify(message, template) {
            Ok(_) => Ok(None),
            Err(error) => {
                if is_fixed(commit_type) {
                    Err(error)
                } else {
                    Ok(Some(prepare_message(&self.config, message)))
                }
            },
        }
    }

    /// Reads the log: groups the commits by release, parses their messages,
    /// and keeps the releases with the commits that could be parsed. The
    /// commits of a release are sorted by category where the configuration
    /// asks for `name`.
    pub fn parse_log(
        &mut self,
        commits: &Vec<LogEntry>,
        tag_skip_pattern: &str,
        max_tags_count: u32,
        all: bool,
        skip_unreleased: bool,
        today: Date,
    ) -> (r: ParseReport)
        requires
            old(self).parser.config.valid(),
        ensures
            final(self).config == old(self).config,
            final(self).parser.config == old(self).parser.config,
            final(self).path == old(self).path,
            final(self).tags == old(self).tags,
            ({
                let p = ScanInput {
                    commits: commits.deep_view(),
                    tags: old(self).tags.deep_view(),
                    skip_pattern: tag_skip_pattern@,
                    max_tags: max_tags_count,
                    all,
                    skip_unreleased,
                    today,
                };
                let worklist = correlation(p).worklist;
                &&& final(self).parser.result.deep_view() == parsed_log(
                    old(self).parser,
                    p,
                    old(self).config.sort_by@ == SORT_BY_NAME@,
                )
                &&& r.processed == worklist.len()
                &&& r.failures.deep_view() == failures_of(
                    worklist,
                    slots_of(old(self).parser, worklist),
                )
            }),
    {
        let found = correlate(
            commits,
            &self.tags,
            tag_skip_pattern,
            max_tags_count,
            all,
            skip_unreleased,
            today,
        );
        self.parse_found(&found)
    }

    /// Parses the messages of the list of work of `found`, and keeps the
    /// releases of `found` with the commits that could be parsed. The commits
    /// of a release are sorted by category where the configuration asks for
    /// `name`.
    pub fn parse_found(&mut self, found: &Correlation) -> (r: ParseReport)
        requires
            old(self).parser.config.valid(),
        ensures
            final(self).config == old(self).config,
            final(self).parser.config == old(self).parser.config,
            final(self).path == old(self).path,
            final(self).tags == old(self).tags,
            ({
                let c = found.deep_view();
                let slots = slots_of(old(self).parser, c.worklist);
                &&& final(self).parser.result.deep_view() == assembled(
                    c.releases,
                    slots,
                    old(self).config.sort_by@ == SORT_BY_NAME@,
                )
                &&& r.processed == c.worklist.len()
                &&& r.failures.deep_view() == failures_of(c.worklist, slots)
            }),
    {
        let slots = self.parser.parse_worklist(&found.worklist);
        let by_name = same_str(self.config.sort_by.as_str(), SORT_BY_NAME);
        proof {
            assert(outcomes(slots@) =~= slots_of(self.parser, found.worklist.deep_view()));
            assert(found.worklist.deep_view().len() == found.worklist.len());
        }
        let releases = assemble(&found.releases, &slots, by_name);
        let failures = collect_failures(&found.worklist, &slots);
        self.parser.result = releases;
        ParseReport { processed: found.worklist.len(), failures }
    }

    /// The template with a section for `default` and one for each tag of the
    /// releases.
    pub fn generate_template(&self) -> (r: Value)
        ensures
            r.model() == template_model(template_tags(self.parser.result.deep_view())),
    {
        let ghost all = self.parser.result.deep_view();
        let mut tags: Vec<String> = Vec::new();
        tags.push(TOML_DEFAULT_KEY.to_owned());
        let mut i: usize = 0;
        proof {
            assert(all.take(0) =~= Seq::empty());
            assert(tags.deep_view() =~= seq![TOML_DEFAULT_KEY@]);
        }
        while i < self.parser.result.len()
            invariant
                i <= self.parser.result.len(),
                all == self.parser.result.deep_view(),
                tags.deep_view() == template_tags(all.take(i as int)),
            decreases self.parser.result.len() - i,
        {
            proof {
                assert(all.take(i + 1).drop_last() =~= all.take(i as int));
                assert(all.take(i + 1).last() == self.parser.result@[i as int].deep_view());
            }
            tags = self.parser.result[i].get_tags_unique(tags);
            i += 1;
        }
        assert(all.take(i as int) =~= all);
        template_for(&tags)
    }

    /// Prints the log: through `template` where one is given, as a flat list
    /// otherwise.
    pub fn print_log(&self, compact: bool, template: Option<&Value>, writer: &mut Output)
        requires
            self.parser.config.valid(),
        ensures
            old(writer).wrote(
                *final(writer),
                log_rendering(
                    self.parser.result.deep_view(),
                    root_of(template),
                    self.parser.config.deep_view(),
                    old(writer).sink(),
                    compact,
                ),
            ),
    {
        self.parser.print(compact, template, writer);
    }
}

/// A copy of a configuration.
pub fn copy_config(config: &Config) -> (r: Config)
    ensures
        r.deep_view() == config.deep_view(),
{
    Config {
        categories: config.categories.clone(),
        category_delimiters: config.category_delimiters.clone(),
        colored_output: config.colored_output,
        default_template: match &config.default_template {
            Some(t) => Some(t.clone()),
            None => None,
        },
        enable_debug: config.enable_debug,
        excluded_commit_tags: config.excluded_commit_tags.clone(),
        enable_footers: config.enable_footers,
        show_commit_hash: config.show_commit_hash,
        show_prefix: config.show_prefix,
        sort_by: config.sort_by.clone(),
        template_prefix: config.template_prefix.clone(),
    }
}

/// The commits among `worklist` whose messages could not be parsed, with the
/// errors, in order.
pub fn collect_failures(
    worklist: &Vec<WorkItem>,
    slots: &Vec<Result<ParsedCommit, ParseError>>,
) -> (r: Vec<(Oid, ParseError)>)
    requires
        slots.len() == worklist.len(),
    ensures
        r.deep_view() == failures_of(worklist.deep_view(), outcomes(slots@)),
{
    let ghost all = worklist.deep_view();
    let ghost found = outcomes(slots@);
    let mut r: Vec<(Oid, ParseError)> = Vec::new();
    let mut i: usize = 0;
    proof {
        assert(all.take(0) =~= Seq::empty());
        assert(r.deep_view() =~= Seq::empty());
    }
    while i < worklist.len()
        invariant
            i <= worklist.len(),
            slots.len() == worklist.len(),
            all == worklist.deep_view(),
            found == outcomes(slots@),
            r.deep_view() == failures_of(all.take(i as int), found),
        decreases worklist.len() - i,
    {
        proof {
            assert(all.take(i + 1).drop_last() =~= all.take(i as int));
            assert(all.take(i + 1).last() == worklist@[i as int].deep_view());
            assert(all.take(i + 1).len() == i + 1);
            assert(found[i as int] == outcome(slots@[i as int]));
        }
        match &slots[i] {
            Err(e) => {
                let entry = (worklist[i].oid, e.duplicate());
                let ghost before = r;
                r.push(entry);
                proof {
                    lemma_deep_view_push(before, r, entry);
                }
            },
            Ok(_) => {},
        }
        i += 1;
    }
    assert(all.take(i as int) =~= all);
    r
}

} // verus!
