//! Rendering of releases: as a flat list, or through the sections of a
//! template.
use crate::config::{Config, ConfigModel};
use crate::document::{
    has_tag, CommitModel, ParsedCommit, ParsedTag, TagModel, TOML_DEFAULT_KEY,
};
use crate::footers::footers_rendering;
use crate::format::{date_text, format_date, repeat_char, repeated};
use crate::output::{
    glyphs, lemma_wrote_more, lemma_wrote_nothing, paint, unpaint, Color, Output, Piece, Sink,
};
use crate::parser::Parser;
use crate::render::{
    entry_rendering, print_entry, tag_view, write_paint, write_unpaint, Palette, Pen, Print,
};
use crate::template::{
    entry_models, get, lemma_entry_models, lemma_models, lookup, lookup_in, models, Value,
    ValueModel, TOML_FOOTERS_KEY, TOML_FOOTER_KEY, TOML_HEADER_KEY, TOML_NAME_KEY, TOML_ONCE_KEY,
    TOML_TAG, TOML_TEXT_KEY,
};
use crate::text::{has_string, same_str};
use vstd::prelude::*;

verus! {

/// What a release is rendered with.
pub struct Scene {
    pub release: TagModel,
    pub config: ConfigModel,
    /// Whether the output takes colors.
    pub term: bool,
    /// Whether the summaries alone are listed.
    pub compact: bool,
}

impl Scene {
    /// The pen of the entries of a listing.
    pub open spec fn pen(self) -> Pen {
        Pen {
            first: Color::BrightBlue,
            second: Color::White,
            shown: self.config.colored_output && self.term,
        }
    }
}

/// What printing the heading of a release writes: its name and its day.
pub open spec fn heading_rendering(release: TagModel, pen: Pen) -> Seq<Piece> {
    paint(pen.shown, pen.first) + glyphs("\n# "@) + glyphs(release.name) + glyphs(" "@) + paint(
        pen.shown,
        pen.second,
    ) + glyphs("("@) + glyphs(date_text(release.date)) + glyphs("):"@) + unpaint(pen.shown)
}

/// The pen of the heading of a release.
pub open spec fn heading_pen(config: ConfigModel, term: bool) -> Pen {
    Pen { first: Color::Green, second: Color::Yellow, shown: config.colored_output && term }
}

/// What printing `commits` as the entries of a listing writes.
pub open spec fn entries_rendering(
    commits: Seq<CommitModel>,
    config: ConfigModel,
    tag: Option<Seq<char>>,
    pen: Pen,
    compact: bool,
) -> Seq<Piece>
    decreases commits.len(),
{
    if commits.len() == 0 {
        Seq::empty()
    } else {
        entries_rendering(commits.drop_last(), config, tag, pen, compact) + entry_rendering(
            commits.last(),
            config,
            tag,
            pen,
            compact,
        )
    }
}

/// Whether one of `commits` belongs to the section `tag`: by its summary
/// where the listing is compact, by any of its elements otherwise.
pub open spec fn any_tagged(commits: Seq<CommitModel>, tag: Seq<char>, compact: bool) -> bool {
    exists|i: int|
        0 <= i < commits.len() && if compact {
            has_tag((#[trigger] commits[i]).summary.tags, Some(tag))
        } else {
            commits[i].has_tag(Some(tag))
        }
}

/// Whether one of `commits` has an element without tags: the summary where
/// the listing is compact, any element otherwise.
pub open spec fn any_untagged(commits: Seq<CommitModel>, compact: bool) -> bool {
    exists|i: int|
        0 <= i < commits.len() && if compact {
            (#[trigger] commits[i]).summary.tags.len() == 0
        } else {
            commits[i].has_untagged()
        }
}

/// Whether the section `tag` is printed for a release: the section `default`
/// where one of the commits has an element without tags; another section
/// where one of the commits belongs to it and the tag is not excluded.
pub open spec fn section_shown(scene: Scene, tag: Seq<char>) -> bool {
    if tag == TOML_DEFAULT_KEY@ {
        any_untagged(scene.release.commits, scene.compact)
    } else {
        any_tagged(scene.release.commits, tag, scene.compact)
            && !scene.config.excluded_commit_tags.contains(tag)
    }
}

/// The level after `level`: headings do not grow past the largest number.
pub open spec fn next_level(level: nat) -> nat {
    if level < usize::MAX {
        level + 1
    } else {
        level
    }
}

/// The string that `v` is, or the empty string.
pub open spec fn string_of_value(v: ValueModel) -> Seq<char> {
    match v {
        ValueModel::String(s) => s,
        _ => Seq::empty(),
    }
}

/// The heading of the section of `table` with the tag `tag`: its name, or
/// the tag where it has no name.
pub open spec fn section_name(table: Seq<(Seq<char>, ValueModel)>, tag: Seq<char>) -> Seq<char> {
    match lookup(table, TOML_NAME_KEY@) {
        Some(ValueModel::String(name)) => name,
        _ => tag,
    }
}

/// What printing the footers of a section writes: those of the keys that the
/// section names, nothing where it names none.
pub open spec fn section_footers(table: Seq<(Seq<char>, ValueModel)>, scene: Scene) -> Seq<Piece> {
    match lookup(table, TOML_FOOTERS_KEY@) {
        Some(ValueModel::Array(keys)) if keys.len() > 0 => footers_rendering(
            scene.release,
            Some(keys),
            scene.config,
            scene.term,
        ),
        _ => Seq::empty(),
    }
}

/// What printing the section of `table` itself writes: its heading, the
/// entries that belong to it and its footers; nothing where `table` has no
/// tag or the section is not printed.
pub open spec fn section_rendering(
    table: Seq<(Seq<char>, ValueModel)>,
    level: nat,
    scene: Scene,
) -> Seq<Piece> {
    match lookup(table, TOML_TAG@) {
        None => Seq::empty(),
        Some(v) => {
            let tag = string_of_value(v);
            if section_shown(scene, tag) {
                paint(scene.config.colored_output && scene.term, Color::BrightRed) + glyphs("\n"@)
                    + glyphs(repeated('#', level)) + glyphs(" "@) + glyphs(section_name(table, tag))
                    + unpaint(scene.term) + entries_rendering(
                    scene.release.commits,
                    scene.config,
                    Some(tag),
                    scene.pen(),
                    scene.compact,
                ) + glyphs("\n"@) + section_footers(table, scene)
            } else {
                Seq::empty()
            }
        },
    }
}

/// What printing the sections of `table` writes: the nested sections first,
/// one level deeper, then the section of `table` itself.
pub open spec fn table_rendering(
    table: Seq<(Seq<char>, ValueModel)>,
    level: nat,
    scene: Scene,
) -> Seq<Piece>
    decreases table, 1nat,
{
    nested_rendering(table, level, scene) + section_rendering(table, level, scene)
}

/// What printing the sections nested in the entries of a table writes.
pub open spec fn nested_rendering(
    entries: Seq<(Seq<char>, ValueModel)>,
    level: nat,
    scene: Scene,
) -> Seq<Piece>
    decreases entries, 0nat,
{
    if entries.len() == 0 {
        Seq::empty()
    } else {
        nested_rendering(entries.drop_last(), level, scene) + value_rendering(
            entries.last().1,
            level,
            scene,
        )
    }
}

/// What printing the sections in a value writes: those of the tables of an array.
pub open spec fn value_rendering(v: ValueModel, level: nat, scene: Scene) -> Seq<Piece>
    decreases v, 0nat,
{
    match v {
        ValueModel::Array(items) => items_rendering(items, level, scene),
        _ => Seq::empty(),
    }
}

/// What printing the sections among the items of an array writes.
pub open spec fn items_rendering(items: Seq<ValueModel>, level: nat, scene: Scene) -> Seq<Piece>
    decreases items, 0nat,
{
    if items.len() == 0 {
        Seq::empty()
    } else {
        items_rendering(items.drop_last(), level, scene) + match items.last() {
            ValueModel::Table(table) => table_rendering(table, next_level(level), scene),
            _ => Seq::empty(),
        }
    }
}

/// What printing the header or the footer of a template writes: the text of
/// the table at `key`, between line feeds, unless it is empty, or is to be
/// printed once and this is not the release for it.
pub open spec fn banner_rendering(root: ValueModel, key: Seq<char>, at_edge: bool) -> Seq<Piece> {
    match lookup_in(root, key) {
        Some(ValueModel::Table(table)) => {
            let once = match lookup(table, TOML_ONCE_KEY@) {
                Some(ValueModel::Boolean(b)) => b,
                _ => false,
            };
            match lookup(table, TOML_TEXT_KEY@) {
                Some(ValueModel::String(text)) if (at_edge || !once) && text.len() > 0 => glyphs(
                    "\n"@,
                ) + glyphs(text) + glyphs("\n"@),
                _ => Seq::empty(),
            }
        },
        _ => Seq::empty(),
    }
}

/// What printing a release without a template writes: its heading, its
/// commits, and in a detailed listing its footers, where the configuration
/// asks for them.
pub open spec fn flat_rendering(scene: Scene) -> Seq<Piece> {
    heading_rendering(scene.release, heading_pen(scene.config, scene.term)) + entries_rendering(
        scene.release.commits,
        scene.config,
        None,
        scene.pen(),
        scene.compact,
    ) + glyphs("\n"@) + if !scene.compact && scene.config.enable_footers {
        footers_rendering(scene.release, None, scene.config, scene.term)
    } else {
        Seq::empty()
    }
}

/// What printing a release through the template `root` writes: the header of
/// the template, the heading of the release, the sections, and the footer of
/// the template. `first` and `last` say whether the release is the first and
/// the last of the log.
pub open spec fn templated_rendering(
    scene: Scene,
    root: ValueModel,
    first: bool,
    last: bool,
) -> Seq<Piece> {
    banner_rendering(root, TOML_HEADER_KEY@, first) + heading_rendering(
        scene.release,
        heading_pen(scene.config, scene.term),
    ) + match root {
        ValueModel::Table(table) => table_rendering(table, 1, scene),
        _ => Seq::empty(),
    } + banner_rendering(root, TOML_FOOTER_KEY@, last)
}

/// What printing a release writes.
pub open spec fn release_rendering(
    scene: Scene,
    root: Option<ValueModel>,
    first: bool,
    last: bool,
) -> Seq<Piece> {
    match root {
        Some(r) => templated_rendering(scene, r, first, last),
        None => flat_rendering(scene),
    }
}

/// What printing the first `n` of `releases` writes.
pub open spec fn releases_rendering(
    releases: Seq<TagModel>,
    n: int,
    root: Option<ValueModel>,
    config: ConfigModel,
    term: bool,
    compact: bool,
) -> Seq<Piece>
    decreases n,
{
    if n <= 0 {
        Seq::empty()
    } else {
        releases_rendering(releases, n - 1, root, config, term, compact) + release_rendering(
            Scene { release: releases[n - 1], config, term, compact },
            root,
            n - 1 == 0,
            n - 1 == releases.len() - 1,
        )
    }
}

/// What printing a log writes: its releases in order, and a line feed at the
/// end unless the output goes to a buffer.
pub open spec fn log_rendering(
    releases: Seq<TagModel>,
    root: Option<ValueModel>,
    config: ConfigModel,
    sink: Sink,
    compact: bool,
) -> Seq<Piece> {
    releases_rendering(
        releases,
        releases.len() as int,
        root,
        config,
        sink == Sink::Terminal,
        compact,
    ) + if sink != Sink::Buffer {
        glyphs("\n"@)
    } else {
        Seq::empty()
    }
}

/// The scene of printing `release` to `writer`.
pub open spec fn scene_of(release: ParsedTag, config: Config, writer: Output, compact: bool) -> Scene {
    Scene {
        release: release.deep_view(),
        config: config.deep_view(),
        term: writer.takes_color(),
        compact,
    }
}

/// The template that `template` is, as a mathematical value.
pub open spec fn root_of(template: Option<&Value>) -> Option<ValueModel> {
    match template {
        Some(v) => Some(v.model()),
        None => None,
    }
}

/// Prints `commits` as the entries of a listing.
pub fn print_entries(
    commits: &Vec<ParsedCommit>,
    t: &mut Output,
    config: &Config,
    tag: Option<&str>,
    compact: bool,
)
    requires
        config.valid(),
    ensures
        old(t).wrote(
            *final(t),
            entries_rendering(
                commits.deep_view(),
                config.deep_view(),
                tag_view(tag),
                (Pen {
                    first: Color::BrightBlue,
                    second: Color::White,
                    shown: config.colored_output && old(t).takes_color(),
                }),
                compact,
            ),
        ),
{
    let ghost start = t@;
    let ghost cfg = config.deep_view();
    let ghost pen = Pen {
        first: Color::BrightBlue,
        second: Color::White,
        shown: config.colored_output && t.takes_color(),
    };
    let ghost all = commits.deep_view();
    let mut i: usize = 0;
    proof {
        lemma_wrote_nothing(start);
        assert(all.take(0) =~= Seq::empty());
    }
    while i < commits.len()
        invariant
            i <= commits.len(),
            config.valid(),
            cfg == config.deep_view(),
            all == commits.deep_view(),
            t.sink() == old(t).sink(),
            old(t).wf() ==> t.wf(),
            pen == crate::render::pen_of(
                (Palette { first: Color::BrightBlue, second: Color::White }),
                cfg,
                *t,
            ),
            t@ == start + entries_rendering(all.take(i as int), cfg, tag_view(tag), pen, compact),
        decreases commits.len() - i,
    {
        let ghost done = entries_rendering(all.take(i as int), cfg, tag_view(tag), pen, compact);
        proof {
            assert(all.take(i + 1).drop_last() =~= all.take(i as int));
            assert(all.take(i + 1).last() == commits@[i as int].deep_view());
            lemma_wrote_more(
                start,
                done,
                entry_rendering(commits@[i as int].deep_view(), cfg, tag_view(tag), pen, compact),
            );
        }
        print_entry(&commits[i], t, config, tag, compact);
        i += 1;
    }
    assert(all.take(i as int) =~= all);
}

/// Whether one of `commits` belongs to the section `tag`.
pub fn any_commit_tagged(commits: &Vec<ParsedCommit>, tag: &str, compact: bool) -> (r: bool)
    ensures
        r == any_tagged(commits.deep_view(), tag@, compact),
{
    let mut i: usize = 0;
    while i < commits.len()
        invariant
            i <= commits.len(),
            forall|j: int|
                0 <= j < i ==> !if compact {
                    has_tag((#[trigger] commits.deep_view()[j]).summary.tags, Some(tag@))
                } else {
                    commits.deep_view()[j].has_tag(Some(tag@))
                },
        decreases commits.len() - i,
    {
        assert(commits.deep_view()[i as int] == commits@[i as int].deep_view());
        let found = if compact {
            commits[i].summary.contains_tag(Some(tag))
        } else {
            commits[i].contains_tag(Some(tag))
        };
        if found {
            return true;
        }
        i += 1;
    }
    false
}

/// Whether one of `commits` has an element without tags.
pub fn any_commit_untagged(commits: &Vec<ParsedCommit>, compact: bool) -> (r: bool)
    ensures
        r == any_untagged(commits.deep_view(), compact),
{
    let mut i: usize = 0;
    while i < commits.len()
        invariant
            i <= commits.len(),
            forall|j: int|
                0 <= j < i ==> !if compact {
                    (#[trigger] commits.deep_view()[j]).summary.tags.len() == 0
                } else {
                    commits.deep_view()[j].has_untagged()
                },
        decreases commits.len() - i,
    {
        assert(commits.deep_view()[i as int] == commits@[i as int].deep_view());
        assert(commits@[i as int].summary.tags.deep_view().len()
            == commits@[i as int].summary.tags.len());
        let found = if compact {
            commits[i].summary.contains_untagged_elements()
        } else {
            commits[i].contains_untagged_elements()
        };
        if found {
            return true;
        }
        i += 1;
    }
    false
}

/// Prints the header or the footer of a template.
pub fn print_banner(writer: &mut Output, root: &Value, key: &str, at_edge: bool)
    ensures
        old(writer).wrote(*final(writer), banner_rendering(root.model(), key@, at_edge)),
{
    let ghost start = writer@;
    proof {
        lemma_wrote_nothing(start);
    }
    match root {
        Value::Table(entries) => {
            match get(entries, key) {
                Some(Value::Table(table)) => {
                    let once = match get(table, TOML_ONCE_KEY) {
                        Some(Value::Boolean(b)) => *b,
                        _ => false,
                    };
                    match get(table, TOML_TEXT_KEY) {
                        Some(Value::String(text)) => {
                            if (at_edge || !once) && !text.as_str().is_empty() {
                                writer.write_str("\n");
                                writer.write_str(text.as_str());
                                writer.write_str("\n");
                                proof {
                                    lemma_wrote_more(start, glyphs("\n"@), glyphs(text@));
                                    lemma_wrote_more(
                                        start,
                                        glyphs("\n"@) + glyphs(text@),
                                        glyphs("\n"@),
                                    );
                                }
                            }
                        },
                        _ => {},
                    }
                },
                _ => {},
            }
        },
        _ => {},
    }
}

impl ParsedTag {
    /// Prints the heading of the release.
    pub fn print(&self, t: &mut Output, config: &Config, palette: Palette)
        ensures
            old(t).wrote(
                *final(t),
                heading_rendering(
                    self.deep_view(),
                    (Pen {
                        first: palette.first,
                        second: palette.second,
                        shown: config.colored_output && old(t).takes_color(),
                    }),
                ),
            ),
    {
        let ghost start = t@;
        let ghost pen = Pen {
            first: palette.first,
            second: palette.second,
            shown: config.colored_output && t.takes_color(),
        };
        write_paint(t, config, palette.first);
        let ghost mut added = paint(pen.shown, pen.first);
        t.write_str("\n# ");
        proof {
            lemma_wrote_more(start, added, glyphs("\n# "@));
            added = added + glyphs("\n# "@);
        }
        t.write_str(self.name.as_str());
        proof {
            lemma_wrote_more(start, added, glyphs(self.name@));
            added = added + glyphs(self.name@);
        }
        t.write_str(" ");
        proof {
            lemma_wrote_more(start, added, glyphs(" "@));
            added = added + glyphs(" "@);
        }
        write_paint(t, config, palette.second);
        proof {
            lemma_wrote_more(start, added, paint(pen.shown, pen.second));
            added = added + paint(pen.shown, pen.second);
        }
        t.write_str("(");
        proof {
            lemma_wrote_more(start, added, glyphs("("@));
            added = added + glyphs("("@);
        }
        t.write_chars(&format_date(self.date));
        proof {
            lemma_wrote_more(start, added, glyphs(date_text(self.date)));
            added = added + glyphs(date_text(self.date));
        }
        t.write_str("):");
        proof {
            lemma_wrote_more(start, added, glyphs("):"@));
            added = added + glyphs("):"@);
        }
        write_unpaint(t, config);
        proof {
            lemma_wrote_more(start, added, unpaint(pen.shown));
            added = added + unpaint(pen.shown);
        }
    }

    /// Prints the heading of the release in the colors of a heading.
    pub fn print_default(&self, t: &mut Output, config: &Config)
        ensures
            old(t).wrote(
                *final(t),
                heading_rendering(
                    self.deep_view(),
                    heading_pen(config.deep_view(), old(t).takes_color()),
                ),
            ),
    {
        self.print(t, config, Palette { first: Color::Green, second: Color::Yellow });
    }

    /// Prints the section of `table` itself.
    pub fn print_section(
        &self,
        writer: &mut Output,
        table: &Vec<(String, Value)>,
        level: usize,
        config: &Config,
        compact: bool,
    )
        requires
            config.valid(),
        ensures
            old(writer).wrote(
                *final(writer),
                section_rendering(
                    entry_models(table@),
                    level as nat,
                    scene_of(*self, *config, *old(writer), compact),
                ),
            ),
    {
        let ghost start = writer@;
        let ghost scene = scene_of(*self, *config, *writer, compact);
        let ghost entries = entry_models(table@);
        proof {
            lemma_wrote_nothing(start);
            reveal_strlit("");
        }
        let tag: &str = match get(table, TOML_TAG) {
            Some(v) => match v {
                Value::String(s) => s.as_str(),
                _ => "",
            },
            None => {
                return ;
            },
        };
        assert(tag@ =~= string_of_value(lookup(entries, TOML_TAG@)->0));
        let name: &str = match get(table, TOML_NAME_KEY) {
            Some(Value::String(n)) => n.as_str(),
            _ => tag,
        };
        assert(name@ == section_name(entries, tag@));
        let shown = if same_str(tag, TOML_DEFAULT_KEY) {
            any_commit_untagged(&self.commits, compact)
        } else {
            any_commit_tagged(&self.commits, tag, compact) && !has_string(
                &config.excluded_commit_tags,
                tag,
            )
        };
        assert(shown == section_shown(scene, tag@));
        if shown {
            write_paint(writer, config, Color::BrightRed);
            let ghost mut added = paint(scene.config.colored_output && scene.term, Color::BrightRed);
            writer.write_str("\n");
            proof {
                lemma_wrote_more(start, added, glyphs("\n"@));
                added = added + glyphs("\n"@);
            }
            writer.write_chars(&repeat_char('#', level));
            proof {
                lemma_wrote_more(start, added, glyphs(repeated('#', level as nat)));
                added = added + glyphs(repeated('#', level as nat));
            }
            writer.write_str(" ");
            proof {
                lemma_wrote_more(start, added, glyphs(" "@));
                added = added + glyphs(" "@);
            }
            writer.write_str(name);
            proof {
                lemma_wrote_more(start, added, glyphs(name@));
                added = added + glyphs(name@);
            }
            writer.reset();
            proof {
                lemma_wrote_more(start, added, unpaint(scene.term));
                added = added + unpaint(scene.term);
            }
            print_entries(&self.commits, writer, config, Some(tag), compact);
            proof {
                let e = entries_rendering(
                    scene.release.commits,
                    scene.config,
                    Some(tag@),
                    scene.pen(),
                    scene.compact,
                );
                lemma_wrote_more(start, added, e);
                added = added + e;
            }
            writer.write_str("\n");
            proof {
                lemma_wrote_more(start, added, glyphs("\n"@));
                added = added + glyphs("\n"@);
            }
            match get(table, TOML_FOOTERS_KEY) {
                Some(Value::Array(keys)) => {
                    if keys.len() > 0 {
                        proof {
                            lemma_models(keys@);
                        }
                        self.print_footers(writer, Some(keys), config);
                    }
                },
                _ => {},
            }
            proof {
                lemma_wrote_more(start, added, section_footers(entries, scene));
                added = added + section_footers(entries, scene);
            }
        }
    }
}

impl ParsedTag {
    /// Prints the sections of `table`: the nested sections first, one level
    /// deeper, then the section of `table` itself.
    pub fn print_commits_in_table(
        &self,
        writer: &mut Output,
        table: &Vec<(String, Value)>,
        level: usize,
        config: &Config,
        compact: bool,
    )
        requires
            config.valid(),
        ensures
            old(writer).wrote(
                *final(writer),
                table_rendering(
                    entry_models(table@),
                    level as nat,
                    scene_of(*self, *config, *old(writer), compact),
                ),
            ),
        decreases table,
    {
        let ghost start = writer@;
        let ghost scene = scene_of(*self, *config, *writer, compact);
        let ghost entries = entry_models(table@);
        let deeper = if level < usize::MAX {
            level + 1
        } else {
            level
        };
        let mut i: usize = 0;
        proof {
            lemma_entry_models(table@);
            lemma_wrote_nothing(start);
            assert(entries.take(0) =~= Seq::empty());
        }
        while i < table.len()
            invariant
                i <= table.len(),
                config.valid(),
                deeper as nat == next_level(level as nat),
                entries == entry_models(table@),
                entries.len() == table.len(),
                forall|j: int|
                    0 <= j < table.len() ==> (#[trigger] entries[j]) == (
                        table@[j].0@,
                        table@[j].1.model(),
                    ),
                writer.sink() == old(writer).sink(),
                old(writer).wf() ==> writer.wf(),
                scene == scene_of(*self, *config, *writer, compact),
                writer@ == start + nested_rendering(entries.take(i as int), level as nat, scene),
            decreases table.len() - i,
        {
            let ghost done = nested_rendering(entries.take(i as int), level as nat, scene);
            proof {
                assert(entries.take(i + 1).drop_last() =~= entries.take(i as int));
                assert(entries.take(i + 1).last() == entries[i as int]);
                assert(nested_rendering(entries.take(i + 1), level as nat, scene) == done
                    + value_rendering(entries[i as int].1, level as nat, scene));
            }
            match &table[i].1 {
                Value::Array(array) => {
                    let ghost items = models(array@);
                    let mut j: usize = 0;
                    proof {
                        lemma_models(array@);
                        assert(items.take(0) =~= Seq::empty());
                        lemma_wrote_more(start, done, Seq::<Piece>::empty());
                    }
                    while j < array.len()
                        invariant
                            j <= array.len(),
                            i < table.len(),
                            config.valid(),
                            deeper as nat == next_level(level as nat),
                            table@[i as int].1 == Value::Array(*array),
                            items == models(array@),
                            items.len() == array.len(),
                            forall|k: int|
                                0 <= k < array.len() ==> (#[trigger] items[k]) == array@[k].model(),
                            writer.sink() == old(writer).sink(),
                            old(writer).wf() ==> writer.wf(),
                            scene == scene_of(*self, *config, *writer, compact),
                            writer@ == start + (done + items_rendering(
                                items.take(j as int),
                                level as nat,
                                scene,
                            )),
                        decreases array.len() - j,
                    {
                        let ghost sofar = items_rendering(items.take(j as int), level as nat, scene);
                        proof {
                            assert(items.take(j + 1).drop_last() =~= items.take(j as int));
                            assert(items.take(j + 1).last() == items[j as int]);
                        }
                        match &array[j] {
                            Value::Table(inner) => {
                                proof {
                                    assert(decreases_to!(*table => table@));
                                    assert(decreases_to!(table@ => table@[i as int]));
                                    assert(decreases_to!(table@[i as int] => table@[i as int].1));
                                    assert(table@[i as int].1->Array_0 == *array);
                                    assert(decreases_to!(table@[i as int].1 => table@[i as int].1->Array_0));
                                    assert(decreases_to!(*array => array@));
                                    assert(decreases_to!(array@ => array@[j as int]));
                                    assert(array@[j as int]->Table_0 == *inner);
                                    assert(decreases_to!(array@[j as int] => array@[j as int]->Table_0));
                                    assert(items[j as int] == ValueModel::Table(
                                        entry_models(inner@),
                                    ));
                                    let more = table_rendering(
                                        entry_models(inner@),
                                        deeper as nat,
                                        scene,
                                    );
                                    assert(items_rendering(
                                        items.take(j + 1),
                                        level as nat,
                                        scene,
                                    ) == sofar + more);
                                    lemma_wrote_more(done, sofar, more);
                                    lemma_wrote_more(start, done + sofar, more);
                                    lemma_wrote_more(start, done, sofar);
                                    lemma_wrote_more(start, done, sofar + more);
                                }
                                self.print_commits_in_table(writer, inner, deeper, config, compact);
                            },
                            _ => {
                                proof {
                                    assert(!(items[j as int] is Table));
                                    assert(items_rendering(
                                        items.take(j + 1),
                                        level as nat,
                                        scene,
                                    ) == sofar + Seq::<Piece>::empty());
                                    lemma_wrote_more(done, sofar, Seq::<Piece>::empty());
                                }
                            },
                        }
                        j += 1;
                    }
                    proof {
                        assert(items.take(j as int) =~= items);
                        assert(entries[i as int].1 == ValueModel::Array(items));
                        assert(value_rendering(entries[i as int].1, level as nat, scene)
                            == items_rendering(items, level as nat, scene));
                    }
                },
                _ => {
                    proof {
                        assert(!(entries[i as int].1 is Array));
                        assert(value_rendering(entries[i as int].1, level as nat, scene)
                            == Seq::<Piece>::empty());
                        lemma_wrote_more(start, done, Seq::<Piece>::empty());
                    }
                },
            }
            i += 1;
        }
        proof {
            assert(entries.take(i as int) =~= entries);
            lemma_wrote_more(
                start,
                nested_rendering(entries, level as nat, scene),
                section_rendering(entries, level as nat, scene),
            );
        }
        self.print_section(writer, table, level, config, compact);
    }

    /// Prints the release: through `template` where one is given, as a flat
    /// list otherwise. `index_len` holds the place of the release in the log
    /// and the number of releases of the log.
    pub fn print_to_term_and_write_to_vector(
        &self,
        writer: &mut Output,
        compact: bool,
        config: &Config,
        template: Option<&Value>,
        index_len: (usize, usize),
    )
        requires
            config.valid(),
        ensures
            old(writer).wrote(
                *final(writer),
                release_rendering(
                    scene_of(*self, *config, *old(writer), compact),
                    root_of(template),
                    index_len.0 == 0,
                    index_len.0 == index_len.1 - 1,
                ),
            ),
    {
        let ghost start = writer@;
        let ghost scene = scene_of(*self, *config, *writer, compact);
        match template {
            Some(root) => {
                print_banner(writer, root, TOML_HEADER_KEY, index_len.0 == 0);
                let ghost mut added = banner_rendering(
                    root.model(),
                    TOML_HEADER_KEY@,
                    index_len.0 == 0,
                );
                self.print_default(writer, config);
                proof {
                    let h = heading_rendering(
                        scene.release,
                        heading_pen(scene.config, scene.term),
                    );
                    lemma_wrote_more(start, added, h);
                    added = added + h;
                }
                let ghost sections = match root.model() {
                    ValueModel::Table(table) => table_rendering(table, 1, scene),
                    _ => Seq::empty(),
                };
                match root {
                    Value::Table(main_table) => {
                        self.print_commits_in_table(writer, main_table, 1, config, compact);
                    },
                    _ => {},
                }
                proof {
                    lemma_wrote_more(start, added, sections);
                    added = added + sections;
                }
                let last = index_len.1 > 0 && index_len.0 == index_len.1 - 1;
                print_banner(writer, root, TOML_FOOTER_KEY, last);
                proof {
                    let b = banner_rendering(root.model(), TOML_FOOTER_KEY@, last);
                    lemma_wrote_more(start, added, b);
                    added = added + b;
                }
            },
            None => {
                self.print_default(writer, config);
                let ghost mut added = heading_rendering(
                    scene.release,
                    heading_pen(scene.config, scene.term),
                );
                print_entries(&self.commits, writer, config, None, compact);
                proof {
                    let e = entries_rendering(
                        scene.release.commits,
                        scene.config,
                        None,
                        scene.pen(),
                        scene.compact,
                    );
                    lemma_wrote_more(start, added, e);
                    added = added + e;
                }
                writer.write_str("\n");
                proof {
                    lemma_wrote_more(start, added, glyphs("\n"@));
                    added = added + glyphs("\n"@);
                }
                let ghost rest = if !scene.compact && scene.config.enable_footers {
                    footers_rendering(scene.release, None, scene.config, scene.term)
                } else {
                    Seq::empty()
                };
                if !compact && config.enable_footers {
                    self.print_footers(writer, None, config);
                }
                proof {
                    lemma_wrote_more(start, added, rest);
                    added = added + rest;
                }
            },
        }
    }
}

impl Parser {
    /// Prints the releases: through `template` where one is given, as a flat
    /// list otherwise. Output that is not for a buffer ends with a line feed.
    pub fn print(&self, compact: bool, template: Option<&Value>, writer: &mut Output)
        requires
            self.config.valid(),
        ensures
            old(writer).wrote(
                *final(writer),
                log_rendering(
                    self.result.deep_view(),
                    root_of(template),
                    self.config.deep_view(),
                    old(writer).sink(),
                    compact,
                ),
            ),
    {
        let ghost start = writer@;
        let ghost releases = self.result.deep_view();
        let ghost cfg = self.config.deep_view();
        let ghost term = writer.takes_color();
        let n = self.result.len();
        let mut i: usize = 0;
        proof {
            lemma_wrote_nothing(start);
        }
        while i < n
            invariant
                i <= n,
                n == self.result.len(),
                self.config.valid(),
                releases == self.result.deep_view(),
                cfg == self.config.deep_view(),
                writer.sink() == old(writer).sink(),
                term == writer.takes_color(),
                old(writer).wf() ==> writer.wf(),
                writer@ == start + releases_rendering(
                    releases,
                    i as int,
                    root_of(template),
                    cfg,
                    term,
                    compact,
                ),
            decreases n - i,
        {
            let ghost done = releases_rendering(
                releases,
                i as int,
                root_of(template),
                cfg,
                term,
                compact,
            );
            proof {
                assert(releases[i as int] == self.result@[i as int].deep_view());
                lemma_wrote_more(
                    start,
                    done,
                    release_rendering(
                        (Scene { release: releases[i as int], config: cfg, term, compact }),
                        root_of(template),
                        i == 0,
                        i == releases.len() - 1,
                    ),
                );
            }
            self.result[i].print_to_term_and_write_to_vector(
                writer,
                compact,
                &self.config,
                template,
                (i, n),
            );
            i += 1;
        }
        let ghost all = releases_rendering(
            releases,
            releases.len() as int,
            root_of(template),
            cfg,
            term,
            compact,
        );
        if !writer.is_buffered() {
            writer.write_str("\n");
            proof {
                lemma_wrote_more(start, all, glyphs("\n"@));
            }
        } else {
            proof {
                lemma_wrote_more(start, all, Seq::<Piece>::empty());
            }
        }
    }

    /// Appends the tags of the sections of a template table to `vec`: those
    /// of the nested sections first, then that of the table itself.
    pub fn get_tags_from_toml(&self, table: &Vec<(String, Value)>, vec: Vec<String>) -> (r: Vec<
        String,
    >)
        ensures
            r.deep_view() == vec.deep_view() + crate::template::table_tags(entry_models(table@)),
    {
        crate::template::tags_of_table(table, vec)
    }
}

} // verus!
