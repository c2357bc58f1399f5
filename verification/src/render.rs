//! Rendering of the elements of a commit.
use crate::config::{Config, ConfigModel};
use crate::document::{
    has_tag, is_excluded, shown_in, BodyElement, BodyModel, CommitModel,
    ListElement, ListModel, Oid, ParagraphElement, ParagraphModel, ParsedCommit, SummaryElement,
    SummaryModel, TOML_DEFAULT_KEY,
};
use crate::format::{format_short_hex, short_hex};
use crate::output::{
    glyphs, lemma_wrote_more, lemma_wrote_nothing, paint, unpaint, Color, Output, Piece,
};
use crate::text::{has_string, lines, lines_of, same_str, to_chars};
use vstd::prelude::*;

verus! {

/// Whether printing an element wrote it or left it out.
#[derive(Clone, Copy, Debug, PartialEq, Eq)]
pub enum Printed {
    /// The element is left out, for one of its tags.
    Nothing,
    /// The element is written where it belongs to the section asked for.
    Something,
}

/// The two colors of an element: that of its category and that of its text.
#[derive(Clone, Copy, Debug, PartialEq, Eq)]
pub struct Palette {
    pub first: Color,
    pub second: Color,
}

/// The colors of an element, and whether they are shown.
pub struct Pen {
    pub first: Color,
    pub second: Color,
    pub shown: bool,
}

/// The pen that writes with `palette` to `out` under `config`: colors are
/// shown where the configuration asks for them and the output takes them.
pub open spec fn pen_of(palette: Palette, config: ConfigModel, out: Output) -> Pen {
    Pen {
        first: palette.first,
        second: palette.second,
        shown: config.colored_output && out.takes_color(),
    }
}

/// The section asked for, as a mathematical value.
pub open spec fn tag_view(tag: Option<&str>) -> Option<Seq<char>> {
    match tag {
        Some(t) => Some(t@),
        None => None,
    }
}

/// The commit hash as it follows an entry: nothing where hashes are not
/// shown or the commit is not known.
pub open spec fn hash_suffix(shown: bool, oid: Option<Oid>) -> Seq<Piece> {
    match oid {
        Some(id) if shown => glyphs(" ("@) + glyphs(short_hex(id)) + glyphs(")"@),
        _ => Seq::empty(),
    }
}

/// The prefix of a summary as it is written: nothing where prefixes are not
/// shown or the summary has none.
pub open spec fn prefix_part(config: ConfigModel, prefix: Seq<char>) -> Seq<Piece> {
    if config.show_prefix && prefix.len() > 0 {
        glyphs(prefix) + glyphs(" "@)
    } else {
        Seq::empty()
    }
}

/// A category between its delimiters, followed by a space.
pub open spec fn category_part(config: ConfigModel, category: Seq<char>) -> Seq<Piece> {
    glyphs(config.opening()) + glyphs(category) + glyphs(config.closing()) + glyphs(" "@)
}

/// What printing a summary writes.
pub open spec fn summary_rendering(
    s: SummaryModel,
    config: ConfigModel,
    tag: Option<Seq<char>>,
    pen: Pen,
) -> Seq<Piece> {
    if is_excluded(s.tags, config.excluded_commit_tags) || !shown_in(s.tags, tag) {
        Seq::empty()
    } else {
        glyphs("\n- "@) + prefix_part(config, s.prefix) + paint(pen.shown, pen.first)
            + category_part(config, s.category) + paint(pen.shown, pen.second) + glyphs(s.text)
            + hash_suffix(config.show_commit_hash, s.oid) + unpaint(pen.shown)
    }
}

/// The category of a list item as it is written: nothing where the item has none.
pub open spec fn item_category_part(config: ConfigModel, category: Seq<char>, pen: Pen) -> Seq<
    Piece,
> {
    if category.len() > 0 {
        paint(pen.shown, pen.first) + category_part(config, category) + paint(
            pen.shown,
            pen.second,
        )
    } else {
        Seq::empty()
    }
}

/// What printing a list item writes. Without a section the item is indented.
pub open spec fn item_rendering(
    item: ListModel,
    config: ConfigModel,
    tag: Option<Seq<char>>,
    pen: Pen,
) -> Seq<Piece> {
    if is_excluded(item.tags, config.excluded_commit_tags) || !shown_in(item.tags, tag) {
        Seq::empty()
    } else {
        glyphs("\n"@) + glyphs(
            if tag is None {
                "    "@
            } else {
                ""@
            },
        ) + glyphs("- "@) + item_category_part(config, item.category, pen) + glyphs(item.text)
            + hash_suffix(config.show_commit_hash && tag is Some, item.oid) + unpaint(pen.shown)
    }
}

/// What printing the items of a list writes.
pub open spec fn items_rendering(
    items: Seq<ListModel>,
    config: ConfigModel,
    tag: Option<Seq<char>>,
    pen: Pen,
) -> Seq<Piece>
    decreases items.len(),
{
    if items.len() == 0 {
        Seq::empty()
    } else {
        items_rendering(items.drop_last(), config, tag, pen) + item_rendering(
            items.last(),
            config,
            tag,
            pen,
        )
    }
}

/// `s` with each pair of spaces, from the left, replaced by a hyphen and a space.
pub open spec fn with_bullets(s: Seq<char>) -> Seq<char>
    decreases s.len(),
{
    if s.len() >= 2 && s[0] == ' ' && s[1] == ' ' {
        seq!['-', ' '] + with_bullets(s.skip(2))
    } else if s.len() >= 1 {
        seq![s[0]] + with_bullets(s.skip(1))
    } else {
        Seq::empty()
    }
}

/// A line of a paragraph as it is written: indented by four spaces without a
/// section and by two within one, where the first line becomes a list item.
pub open spec fn paragraph_line(line: Seq<char>, first: bool, in_section: bool) -> Seq<char> {
    if in_section {
        if first {
            with_bullets("  "@ + line)
        } else {
            "  "@ + line
        }
    } else {
        "    "@ + line
    }
}

/// What printing the lines of a paragraph writes.
pub open spec fn paragraph_lines_rendering(
    lines: Seq<Seq<char>>,
    in_section: bool,
    suffix: Seq<Piece>,
) -> Seq<Piece>
    decreases lines.len(),
{
    if lines.len() == 0 {
        Seq::empty()
    } else {
        paragraph_lines_rendering(lines.drop_last(), in_section, suffix) + glyphs("\n"@) + glyphs(
            paragraph_line(lines.last(), lines.len() == 1, in_section),
        ) + suffix
    }
}

/// What printing a paragraph writes.
pub open spec fn paragraph_rendering(
    p: ParagraphModel,
    config: ConfigModel,
    tag: Option<Seq<char>>,
) -> Seq<Piece> {
    if is_excluded(p.tags, config.excluded_commit_tags) || !shown_in(p.tags, tag) {
        Seq::empty()
    } else {
        paragraph_lines_rendering(
            lines_of(p.text),
            tag is Some,
            hash_suffix(config.show_commit_hash && tag is Some, p.oid),
        )
    }
}

/// What printing a block of a body writes.
pub open spec fn element_rendering(
    e: BodyModel,
    config: ConfigModel,
    tag: Option<Seq<char>>,
    pen: Pen,
) -> Seq<Piece> {
    match e {
        BodyModel::List(items) => items_rendering(items, config, tag, pen),
        BodyModel::Paragraph(p) => paragraph_rendering(p, config, tag),
    }
}

/// What printing the blocks of a body writes.
pub open spec fn body_rendering(
    body: Seq<BodyModel>,
    config: ConfigModel,
    tag: Option<Seq<char>>,
    pen: Pen,
) -> Seq<Piece>
    decreases body.len(),
{
    if body.len() == 0 {
        Seq::empty()
    } else {
        body_rendering(body.drop_last(), config, tag, pen) + element_rendering(
            body.last(),
            config,
            tag,
            pen,
        )
    }
}

/// What printing a commit writes: its summary and its body, or nothing where
/// the summary is left out for one of its tags.
pub open spec fn commit_rendering(
    c: CommitModel,
    config: ConfigModel,
    tag: Option<Seq<char>>,
    pen: Pen,
) -> Seq<Piece> {
    if is_excluded(c.summary.tags, config.excluded_commit_tags) {
        Seq::empty()
    } else {
        summary_rendering(c.summary, config, tag, pen) + body_rendering(c.body, config, tag, pen)
    }
}

/// What printing a commit writes in a listing: the summary alone where the
/// listing is compact, the whole commit otherwise.
pub open spec fn entry_rendering(
    c: CommitModel,
    config: ConfigModel,
    tag: Option<Seq<char>>,
    pen: Pen,
    compact: bool,
) -> Seq<Piece> {
    if compact {
        summary_rendering(c.summary, config, tag, pen)
    } else {
        commit_rendering(c, config, tag, pen)
    }
}

/// A commit without a body is written alike in a compact and in a detailed
/// listing.
pub proof fn lemma_compact_equals_detailed(
    c: CommitModel,
    config: ConfigModel,
    tag: Option<Seq<char>>,
    pen: Pen,
)
    requires
        c.body.len() == 0,
    ensures
        entry_rendering(c, config, tag, pen, true) == entry_rendering(c, config, tag, pen, false),
{
    assert(summary_rendering(c.summary, config, tag, pen) + Seq::<Piece>::empty()
        =~= summary_rendering(c.summary, config, tag, pen));
}

/// The palette of the elements of a commit.
pub fn default_palette() -> (r: Palette)
    ensures
        r == (Palette { first: Color::BrightBlue, second: Color::White }),
{
    Palette { first: Color::BrightBlue, second: Color::White }
}

/// Whether one of `tags` is among `excluded`.
pub fn any_excluded(tags: &Vec<String>, excluded: &Vec<String>) -> (r: bool)
    ensures
        r == is_excluded(tags.deep_view(), excluded.deep_view()),
{
    let mut i: usize = 0;
    while i < tags.len()
        invariant
            i <= tags.len(),
            forall|j: int|
                0 <= j < i ==> !excluded.deep_view().contains(#[trigger] tags.deep_view()[j]),
        decreases tags.len() - i,
    {
        if has_string(excluded, tags[i].as_str()) {
            assert(excluded.deep_view().contains(tags.deep_view()[i as int]));
            return true;
        }
        assert(tags.deep_view()[i as int] == tags@[i as int]@);
        i += 1;
    }
    false
}

/// Whether the configuration leaves out an element with the tags `tags`.
pub fn excluded_by(tags: &Vec<String>, config: &Config) -> (r: bool)
    ensures
        r == is_excluded(tags.deep_view(), config.deep_view().excluded_commit_tags),
{
    any_excluded(tags, &config.excluded_commit_tags)
}

/// Whether an element with the tags `tags` is printed in the section `tag`,
/// over the number of its tags.
pub proof fn lemma_shown(tags: Vec<String>, tag: Option<Seq<char>>)
    ensures
        shown_in(tags.deep_view(), tag) == if tag == Some(TOML_DEFAULT_KEY@) {
            tags.len() == 0
        } else {
            has_tag(tags.deep_view(), tag)
        },
{
    assert(tags.deep_view().len() == tags.len());
}

/// Whether an element with the tags `tags` belongs to the section `tag`.
pub fn tags_contain(tags: &Vec<String>, tag: Option<&str>) -> (r: bool)
    ensures
        r == has_tag(tags.deep_view(), tag_view(tag)),
{
    match tag {
        Some(t) => has_string(tags, t),
        None => true,
    }
}

/// Writes the commit hash as it follows an entry.
pub fn write_hash(t: &mut Output, shown: bool, oid: Option<Oid>)
    ensures
        old(t).wrote(*final(t), hash_suffix(shown, oid)),
{
    match oid {
        Some(id) => {
            if shown {
                let ghost start = t@;
                t.write_str(" (");
                t.write_chars(&format_short_hex(&id));
                t.write_str(")");
                assert(t@ =~= start + hash_suffix(shown, oid));
            } else {
                assert(t@ =~= t@ + hash_suffix(shown, oid));
            }
        },
        None => {
            assert(t@ =~= t@ + hash_suffix(shown, oid));
        },
    }
}

/// Writes a category between its delimiters, followed by a space.
pub fn write_category(t: &mut Output, config: &Config, category: &str)
    requires
        config.valid(),
    ensures
        old(t).wrote(*final(t), category_part(config.deep_view(), category@)),
{
    let ghost start = t@;
    t.write_str(config.category_delimiters[0].as_str());
    t.write_str(category);
    t.write_str(config.category_delimiters[1].as_str());
    t.write_str(" ");
    assert(t@ =~= start + category_part(config.deep_view(), category@));
}

/// Changes the color where the configuration asks for colors.
pub fn write_paint(t: &mut Output, config: &Config, color: Color)
    ensures
        old(t).wrote(*final(t), paint(config.colored_output && old(t).takes_color(), color)),
{
    if config.colored_output {
        t.fg(color);
    } else {
        assert(t@ =~= t@ + paint(false, color));
    }
}

/// Changes the color back where the configuration asks for colors.
pub fn write_unpaint(t: &mut Output, config: &Config)
    ensures
        old(t).wrote(*final(t), unpaint(config.colored_output && old(t).takes_color())),
{
    if config.colored_output {
        t.reset();
    } else {
        assert(t@ =~= t@ + unpaint(false));
    }
}

/// What can be printed as part of a changelog.
pub trait Print {
    /// What printing writes, for the section `tag` and with `pen`.
    spec fn rendering(&self, config: ConfigModel, tag: Option<Seq<char>>, pen: Pen) -> Seq<Piece>;

    /// Whether the configuration leaves the element out.
    spec fn left_out(&self, config: ConfigModel) -> bool;

    /// Whether the element, or a part of it, belongs to the section `tag`.
    spec fn holds_tag(&self, tag: Option<Seq<char>>) -> bool;

    /// Whether the element, or a part of it, has no tags.
    spec fn holds_untagged(&self) -> bool;

    /// Prints the element for the section `tag`, or as it is where no section
    /// is asked for.
    fn print(&self, t: &mut Output, config: &Config, tag: Option<&str>, palette: Palette) -> (r:
        Printed)
        requires
            config.valid(),
        ensures
            old(t).wrote(
                *final(t),
                self.rendering(
                    config.deep_view(),
                    tag_view(tag),
                    pen_of(palette, config.deep_view(), *old(t)),
                ),
            ),
            r == if self.left_out(config.deep_view()) {
                Printed::Nothing
            } else {
                Printed::Something
            },
    ;

    /// Prints the element in the colors of a commit.
    fn print_default(&self, t: &mut Output, config: &Config, tag: Option<&str>)
        requires
            config.valid(),
        ensures
            old(t).wrote(
                *final(t),
                self.rendering(
                    config.deep_view(),
                    tag_view(tag),
                    pen_of(
                        (Palette { first: Color::BrightBlue, second: Color::White }),
                        config.deep_view(),
                        *old(t),
                    ),
                ),
            ),
    {
        let _ = self.print(t, config, tag, default_palette());
    }

    /// Whether the element, or a part of it, belongs to the section `tag`.
    fn contains_tag(&self, tag: Option<&str>) -> (r: bool)
        ensures
            r == self.holds_tag(tag_view(tag)),
    ;

    /// Whether the element, or a part of it, has no tags.
    fn contains_untagged_elements(&self) -> (r: bool)
        ensures
            r == self.holds_untagged(),
    ;

    /// Whether the element falls to the section `tag` for want of tags: only
    /// the section `default` takes such elements.
    fn matches_default_tag(&self, tag: Option<&str>) -> (r: bool)
        ensures
            r == (tag_view(tag) == Some(TOML_DEFAULT_KEY@) && self.holds_untagged()),
    {
        match tag {
            Some(t) => same_str(t, TOML_DEFAULT_KEY) && self.contains_untagged_elements(),
            None => false,
        }
    }

    /// Whether the element is printed in the section `tag`: in the section
    /// `default` where it, or a part of it, has no tags; in another section
    /// where it, or a part of it, carries the tag of the section.
    fn should_be_printed(&self, tag: Option<&str>) -> (r: bool)
        ensures
            r == if tag_view(tag) == Some(TOML_DEFAULT_KEY@) {
                self.holds_untagged()
            } else {
                self.holds_tag(tag_view(tag))
            },
    {
        if self.matches_default_tag(tag) {
            true
        } else {
            let is_default = match tag {
                Some(t) => same_str(t, TOML_DEFAULT_KEY),
                None => false,
            };
            !is_default && self.contains_tag(tag)
        }
    }
}

impl Print for SummaryElement {
    open spec fn rendering(&self, config: ConfigModel, tag: Option<Seq<char>>, pen: Pen) -> Seq<
        Piece,
    > {
        summary_rendering(self.deep_view(), config, tag, pen)
    }

    open spec fn left_out(&self, config: ConfigModel) -> bool {
        is_excluded(self.tags.deep_view(), config.excluded_commit_tags)
    }

    open spec fn holds_tag(&self, tag: Option<Seq<char>>) -> bool {
        has_tag(self.tags.deep_view(), tag)
    }

    open spec fn holds_untagged(&self) -> bool {
        self.tags.len() == 0
    }

    fn print(&self, t: &mut Output, config: &Config, tag: Option<&str>, palette: Palette) -> (r:
        Printed) {
        let ghost start = t@;
        let ghost cfg = config.deep_view();
        let ghost pen = pen_of(palette, cfg, *t);
        if excluded_by(&self.tags, config) {
            proof {
                lemma_wrote_nothing(start);
            }
            assert(self.left_out(config.deep_view()));
            return Printed::Nothing;
        }
        assert(!self.left_out(config.deep_view()));
        proof {
            lemma_shown(self.tags, tag_view(tag));
        }
        if self.should_be_printed(tag) {
            t.write_str("\n- ");
            let ghost mut added = glyphs("\n- "@);
            let ghost inner = t@;
            if config.show_prefix && !self.prefix.as_str().is_empty() {
                t.write_str(self.prefix.as_str());
                t.write_str(" ");
                proof {
                    lemma_wrote_more(inner, glyphs(self.prefix@), glyphs(" "@));
                }
            }
            proof {
                lemma_wrote_more(start, added, prefix_part(cfg, self.prefix@));
                added = added + prefix_part(cfg, self.prefix@);
            }
            write_paint(t, config, palette.first);
            proof {
                lemma_wrote_more(start, added, paint(pen.shown, pen.first));
                added = added + paint(pen.shown, pen.first);
            }
            write_category(t, config, self.category.as_str());
            proof {
                lemma_wrote_more(start, added, category_part(cfg, self.category@));
                added = added + category_part(cfg, self.category@);
            }
            write_paint(t, config, palette.second);
            proof {
                lemma_wrote_more(start, added, paint(pen.shown, pen.second));
                added = added + paint(pen.shown, pen.second);
            }
            t.write_str(self.text.as_str());
            proof {
                lemma_wrote_more(start, added, glyphs(self.text@));
                added = added + glyphs(self.text@);
            }
            write_hash(t, config.show_commit_hash, self.oid);
            proof {
                lemma_wrote_more(start, added, hash_suffix(cfg.show_commit_hash, self.oid));
                added = added + hash_suffix(cfg.show_commit_hash, self.oid);
            }
            write_unpaint(t, config);
            proof {
                lemma_wrote_more(start, added, unpaint(pen.shown));
                added = added + unpaint(pen.shown);
            }
        } else {
            proof {
                lemma_wrote_nothing(start);
            }
        }
        Printed::Something
    }

    fn contains_tag(&self, tag: Option<&str>) -> (r: bool) {
        tags_contain(&self.tags, tag)
    }

    fn contains_untagged_elements(&self) -> (r: bool) {
        self.tags.len() == 0
    }
}

impl Print for ListElement {
    open spec fn rendering(&self, config: ConfigModel, tag: Option<Seq<char>>, pen: Pen) -> Seq<
        Piece,
    > {
        item_rendering(self.deep_view(), config, tag, pen)
    }

    open spec fn left_out(&self, config: ConfigModel) -> bool {
        is_excluded(self.tags.deep_view(), config.excluded_commit_tags)
    }

    open spec fn holds_tag(&self, tag: Option<Seq<char>>) -> bool {
        has_tag(self.tags.deep_view(), tag)
    }

    open spec fn holds_untagged(&self) -> bool {
        self.tags.len() == 0
    }

    fn print(&self, t: &mut Output, config: &Config, tag: Option<&str>, palette: Palette) -> (r:
        Printed) {
        let ghost start = t@;
        let ghost cfg = config.deep_view();
        let ghost pen = pen_of(palette, cfg, *t);
        if excluded_by(&self.tags, config) {
            proof {
                lemma_wrote_nothing(start);
            }
            assert(self.left_out(config.deep_view()));
            return Printed::Nothing;
        }
        assert(!self.left_out(config.deep_view()));
        proof {
            lemma_shown(self.tags, tag_view(tag));
        }
        if self.should_be_printed(tag) {
            t.write_str("\n");
            let ghost mut added = glyphs("\n"@);
            if tag.is_none() {
                t.write_str("    ");
            } else {
                t.write_str("");
            }
            proof {
                lemma_wrote_more(start, added, glyphs(
                    if tag_view(tag) is None {
                        "    "@
                    } else {
                        ""@
                    },
                ));
                added = added + glyphs(
                    if tag_view(tag) is None {
                        "    "@
                    } else {
                        ""@
                    },
                );
            }
            t.write_str("- ");
            proof {
                lemma_wrote_more(start, added, glyphs("- "@));
                added = added + glyphs("- "@);
            }
            if !self.category.as_str().is_empty() {
                let ghost inner = t@;
                write_paint(t, config, palette.first);
                write_category(t, config, self.category.as_str());
                write_paint(t, config, palette.second);
                assert(t@ =~= inner + item_category_part(cfg, self.category@, pen));
            }
            proof {
                lemma_wrote_more(start, added, item_category_part(cfg, self.category@, pen));
                added = added + item_category_part(cfg, self.category@, pen);
            }
            t.write_str(self.text.as_str());
            proof {
                lemma_wrote_more(start, added, glyphs(self.text@));
                added = added + glyphs(self.text@);
            }
            write_hash(t, config.show_commit_hash && tag.is_some(), self.oid);
            proof {
                lemma_wrote_more(start, added, hash_suffix(cfg.show_commit_hash && tag_view(tag) is Some, self.oid));
                added = added + hash_suffix(cfg.show_commit_hash && tag_view(tag) is Some, self.oid);
            }
            write_unpaint(t, config);
            proof {
                lemma_wrote_more(start, added, unpaint(pen.shown));
                added = added + unpaint(pen.shown);
            }
        } else {
            proof {
                lemma_wrote_nothing(start);
            }
        }
        Printed::Something
    }

    fn contains_tag(&self, tag: Option<&str>) -> (r: bool) {
        tags_contain(&self.tags, tag)
    }

    fn contains_untagged_elements(&self) -> (r: bool) {
        self.tags.len() == 0
    }
}

/// `s` with each pair of spaces, from the left, replaced by a hyphen and a space.
pub fn replace_pairs(s: &Vec<char>) -> (r: Vec<char>)
    ensures
        r@ == with_bullets(s@),
{
    let mut r: Vec<char> = Vec::new();
    let mut i: usize = 0;
    assert(s@.skip(0) =~= s@);
    assert(r@ + with_bullets(s@) =~= with_bullets(s@));
    while i < s.len()
        invariant
            i <= s.len(),
            with_bullets(s@) == r@ + with_bullets(s@.skip(i as int)),
        decreases s.len() - i,
    {
        let ghost rest = s@.skip(i as int);
        let ghost before = r@;
        if s[i] == ' ' && i + 1 < s.len() && s[i + 1] == ' ' {
            r.push('-');
            r.push(' ');
            assert(rest.skip(2) =~= s@.skip(i + 2));
            assert(r@ + with_bullets(s@.skip(i + 2)) =~= before + with_bullets(rest));
            i += 2;
        } else {
            r.push(s[i]);
            assert(rest.skip(1) =~= s@.skip(i + 1));
            assert(r@ + with_bullets(s@.skip(i + 1)) =~= before + with_bullets(rest));
            i += 1;
        }
    }
    assert(r@ + with_bullets(s@.skip(i as int)) =~= r@);
    r
}

/// A line of a paragraph as it is written.
pub fn indent_line(line: &Vec<char>, first: bool, in_section: bool) -> (r: Vec<char>)
    ensures
        r@ == paragraph_line(line@, first, in_section),
{
    let mut r: Vec<char> = Vec::new();
    proof {
        reveal_strlit("  ");
        reveal_strlit("    ");
    }
    if in_section {
        r.push(' ');
        r.push(' ');
        let mut copy = crate::text::slice_of(line, 0, line.len());
        assert(line@.subrange(0, line.len() as int) =~= line@);
        r.append(&mut copy);
        assert(r@ =~= "  "@ + line@);
        if first {
            replace_pairs(&r)
        } else {
            r
        }
    } else {
        r.push(' ');
        r.push(' ');
        r.push(' ');
        r.push(' ');
        let mut copy = crate::text::slice_of(line, 0, line.len());
        assert(line@.subrange(0, line.len() as int) =~= line@);
        r.append(&mut copy);
        assert(r@ =~= "    "@ + line@);
        r
    }
}

impl Print for ParagraphElement {
    open spec fn rendering(&self, config: ConfigModel, tag: Option<Seq<char>>, pen: Pen) -> Seq<
        Piece,
    > {
        paragraph_rendering(self.deep_view(), config, tag)
    }

    open spec fn left_out(&self, config: ConfigModel) -> bool {
        is_excluded(self.tags.deep_view(), config.excluded_commit_tags)
    }

    open spec fn holds_tag(&self, tag: Option<Seq<char>>) -> bool {
        has_tag(self.tags.deep_view(), tag)
    }

    open spec fn holds_untagged(&self) -> bool {
        self.tags.len() == 0
    }

    fn print(&self, t: &mut Output, config: &Config, tag: Option<&str>, palette: Palette) -> (r:
        Printed) {
        let ghost start = t@;
        let ghost cfg = config.deep_view();
        if excluded_by(&self.tags, config) {
            proof {
                lemma_wrote_nothing(start);
            }
            assert(self.left_out(config.deep_view()));
            return Printed::Nothing;
        }
        assert(!self.left_out(config.deep_view()));
        proof {
            lemma_shown(self.tags, tag_view(tag));
        }
        if self.should_be_printed(tag) {
            let text_lines = lines(&to_chars(self.text.as_str()));
            let in_section = tag.is_some();
            let ghost suffix = hash_suffix(cfg.show_commit_hash && in_section, self.oid);
            let mut i: usize = 0;
            assert(text_lines.deep_view().take(0) =~= Seq::empty());
            proof {
                lemma_wrote_nothing(start);
            }
            while i < text_lines.len()
                invariant
                    i <= text_lines.len(),
                    config.show_commit_hash == cfg.show_commit_hash,
                    t.sink() == old(t).sink(),
                    old(t).wf() ==> t.wf(),
                    suffix == hash_suffix(cfg.show_commit_hash && in_section, self.oid),
                    t@ == start + paragraph_lines_rendering(
                        text_lines.deep_view().take(i as int),
                        in_section,
                        suffix,
                    ),
                decreases text_lines.len() - i,
            {
                let ghost done = paragraph_lines_rendering(
                    text_lines.deep_view().take(i as int),
                    in_section,
                    suffix,
                );
                proof {
                    crate::text::lemma_chars_deep_view(text_lines@[i as int]);
                    assert(text_lines.deep_view().take(i + 1).drop_last()
                        =~= text_lines.deep_view().take(i as int));
                    assert(text_lines.deep_view().take(i + 1).last() == text_lines@[i as int]@);
                }
                let line = indent_line(&text_lines[i], i == 0, in_section);
                t.write_str("\n");
                t.write_chars(&line);
                write_hash(t, config.show_commit_hash && in_section, self.oid);
                assert(t@ =~= start + (done + glyphs("\n"@) + glyphs(line@) + suffix));
                i += 1;
            }
            assert(text_lines.deep_view().take(i as int) =~= text_lines.deep_view());
        } else {
            proof {
                lemma_wrote_nothing(start);
            }
        }
        Printed::Something
    }

    fn contains_tag(&self, tag: Option<&str>) -> (r: bool) {
        tags_contain(&self.tags, tag)
    }

    fn contains_untagged_elements(&self) -> (r: bool) {
        self.tags.len() == 0
    }
}

/// Prints the items of a list.
pub fn print_items(
    items: &Vec<ListElement>,
    t: &mut Output,
    config: &Config,
    tag: Option<&str>,
    palette: Palette,
)
    requires
        config.valid(),
    ensures
        old(t).wrote(
            *final(t),
            items_rendering(
                items.deep_view(),
                config.deep_view(),
                tag_view(tag),
                pen_of(palette, config.deep_view(), *old(t)),
            ),
        ),
{
    let ghost start = t@;
    let ghost cfg = config.deep_view();
    let ghost pen = pen_of(palette, cfg, *t);
    let mut i: usize = 0;
    proof {
        lemma_wrote_nothing(start);
        assert(items.deep_view().take(0) =~= Seq::empty());
    }
    while i < items.len()
        invariant
            i <= items.len(),
            config.valid(),
            cfg == config.deep_view(),
            t.sink() == old(t).sink(),
            old(t).wf() ==> t.wf(),
            pen == pen_of(palette, cfg, *t),
            t@ == start + items_rendering(items.deep_view().take(i as int), cfg, tag_view(tag), pen),
        decreases items.len() - i,
    {
        let ghost done = items_rendering(items.deep_view().take(i as int), cfg, tag_view(tag), pen);
        proof {
            assert(items.deep_view().take(i + 1).drop_last() =~= items.deep_view().take(i as int));
            assert(items.deep_view().take(i + 1).last() == items@[i as int].deep_view());
            lemma_wrote_more(start, done, item_rendering(items@[i as int].deep_view(), cfg, tag_view(tag), pen));
        }
        let _ = items[i].print(t, config, tag, palette);
        i += 1;
    }
    assert(items.deep_view().take(i as int) =~= items.deep_view());
}

impl Print for BodyElement {
    open spec fn rendering(&self, config: ConfigModel, tag: Option<Seq<char>>, pen: Pen) -> Seq<
        Piece,
    > {
        element_rendering(self.deep_view(), config, tag, pen)
    }

    open spec fn left_out(&self, config: ConfigModel) -> bool {
        false
    }

    open spec fn holds_tag(&self, tag: Option<Seq<char>>) -> bool {
        self.deep_view().has_tag(tag)
    }

    open spec fn holds_untagged(&self) -> bool {
        self.deep_view().has_untagged()
    }

    fn print(&self, t: &mut Output, config: &Config, tag: Option<&str>, palette: Palette) -> (r:
        Printed) {
        match self {
            BodyElement::List(items) => {
                print_items(items, t, config, tag, palette);
            },
            BodyElement::Paragraph(paragraph) => {
                let _ = paragraph.print(t, config, tag, palette);
            },
        }
        assert(!self.left_out(config.deep_view()));
        Printed::Something
    }

    fn contains_tag(&self, tag: Option<&str>) -> (r: bool) {
        match self {
            BodyElement::List(items) => {
                let mut i: usize = 0;
                while i < items.len()
                    invariant
                        i <= items.len(),
                        *self == BodyElement::List(*items),
                        forall|j: int|
                            0 <= j < i ==> !has_tag(
                                (#[trigger] items.deep_view()[j]).tags,
                                tag_view(tag),
                            ),
                    decreases items.len() - i,
                {
                    assert(items.deep_view()[i as int] == items@[i as int].deep_view());
                    if items[i].contains_tag(tag) {
                        assert(has_tag(items.deep_view()[i as int].tags, tag_view(tag)));
                        assert(self.deep_view() == BodyModel::List(items.deep_view()));
                        assert(self.deep_view().has_tag(tag_view(tag)));
                        return true;
                    }
                    i += 1;
                }
                false
            },
            BodyElement::Paragraph(paragraph) => paragraph.contains_tag(tag),
        }
    }

    fn contains_untagged_elements(&self) -> (r: bool) {
        match self {
            BodyElement::List(items) => {
                let mut i: usize = 0;
                while i < items.len()
                    invariant
                        i <= items.len(),
                        *self == BodyElement::List(*items),
                        forall|j: int|
                            0 <= j < i ==> (#[trigger] items.deep_view()[j]).tags.len() != 0,
                    decreases items.len() - i,
                {
                    assert(items.deep_view()[i as int] == items@[i as int].deep_view());
                    assert(items@[i as int].tags.deep_view().len() == items@[i as int].tags.len());
                    if items[i].contains_untagged_elements() {
                        assert(items.deep_view()[i as int].tags.len() == 0);
                        assert(self.deep_view() == BodyModel::List(items.deep_view()));
                        assert(self.deep_view().has_untagged());
                        return true;
                    }
                    i += 1;
                }
                false
            },
            BodyElement::Paragraph(paragraph) => {
                assert(paragraph.tags.deep_view().len() == paragraph.tags.len());
                paragraph.contains_untagged_elements()
            },
        }
    }
}

/// Prints the blocks of a body.
pub fn print_body(
    body: &Vec<BodyElement>,
    t: &mut Output,
    config: &Config,
    tag: Option<&str>,
    palette: Palette,
)
    requires
        config.valid(),
    ensures
        old(t).wrote(
            *final(t),
            body_rendering(
                body.deep_view(),
                config.deep_view(),
                tag_view(tag),
                pen_of(palette, config.deep_view(), *old(t)),
            ),
        ),
{
    let ghost start = t@;
    let ghost cfg = config.deep_view();
    let ghost pen = pen_of(palette, cfg, *t);
    let mut i: usize = 0;
    proof {
        lemma_wrote_nothing(start);
        assert(body.deep_view().take(0) =~= Seq::empty());
    }
    while i < body.len()
        invariant
            i <= body.len(),
            config.valid(),
            cfg == config.deep_view(),
            t.sink() == old(t).sink(),
            old(t).wf() ==> t.wf(),
            pen == pen_of(palette, cfg, *t),
            t@ == start + body_rendering(body.deep_view().take(i as int), cfg, tag_view(tag), pen),
        decreases body.len() - i,
    {
        let ghost done = body_rendering(body.deep_view().take(i as int), cfg, tag_view(tag), pen);
        proof {
            assert(body.deep_view().take(i + 1).drop_last() =~= body.deep_view().take(i as int));
            assert(body.deep_view().take(i + 1).last() == body@[i as int].deep_view());
            lemma_wrote_more(start, done, element_rendering(body@[i as int].deep_view(), cfg, tag_view(tag), pen));
        }
        let _ = body[i].print(t, config, tag, palette);
        i += 1;
    }
    assert(body.deep_view().take(i as int) =~= body.deep_view());
}

impl Print for ParsedCommit {
    open spec fn rendering(&self, config: ConfigModel, tag: Option<Seq<char>>, pen: Pen) -> Seq<
        Piece,
    > {
        commit_rendering(self.deep_view(), config, tag, pen)
    }

    open spec fn left_out(&self, config: ConfigModel) -> bool {
        is_excluded(self.summary.tags.deep_view(), config.excluded_commit_tags)
    }

    open spec fn holds_tag(&self, tag: Option<Seq<char>>) -> bool {
        self.deep_view().has_tag(tag)
    }

    open spec fn holds_untagged(&self) -> bool {
        self.deep_view().has_untagged()
    }

    fn print(&self, t: &mut Output, config: &Config, tag: Option<&str>, palette: Palette) -> (r:
        Printed) {
        let ghost start = t@;
        let ghost cfg = config.deep_view();
        let ghost pen = pen_of(palette, cfg, *t);
        match self.summary.print(t, config, tag, palette) {
            Printed::Nothing => {
                assert(self.summary.left_out(cfg));
                assert(self.left_out(cfg));
                Printed::Nothing
            },
            Printed::Something => {
                assert(!self.summary.left_out(cfg));
                assert(!self.left_out(cfg));
                print_body(&self.body, t, config, tag, palette);
                proof {
                    lemma_wrote_more(
                        start,
                        summary_rendering(self.summary.deep_view(), cfg, tag_view(tag), pen),
                        body_rendering(self.body.deep_view(), cfg, tag_view(tag), pen),
                    );
                }
                Printed::Something
            },
        }
    }

    fn contains_tag(&self, tag: Option<&str>) -> (r: bool) {
        if self.summary.contains_tag(tag) {
            return true;
        }
        let mut i: usize = 0;
        while i < self.body.len()
            invariant
                i <= self.body.len(),
                forall|j: int|
                    0 <= j < i ==> !(#[trigger] self.body.deep_view()[j]).has_tag(tag_view(tag)),
            decreases self.body.len() - i,
        {
            assert(self.body.deep_view()[i as int] == self.body@[i as int].deep_view());
            if self.body[i].contains_tag(tag) {
                assert(self.body.deep_view()[i as int].has_tag(tag_view(tag)));
                assert(self.deep_view().body == self.body.deep_view());
                assert(self.deep_view().has_tag(tag_view(tag)));
                return true;
            }
            i += 1;
        }
        false
    }

    fn contains_untagged_elements(&self) -> (r: bool) {
        assert(self.summary.tags.deep_view().len() == self.summary.tags.len());
        if self.summary.contains_untagged_elements() {
            return true;
        }
        let mut i: usize = 0;
        while i < self.body.len()
            invariant
                i <= self.body.len(),
                forall|j: int| 0 <= j < i ==> !(#[trigger] self.body.deep_view()[j]).has_untagged(),
            decreases self.body.len() - i,
        {
            assert(self.body.deep_view()[i as int] == self.body@[i as int].deep_view());
            if self.body[i].contains_untagged_elements() {
                assert(self.body.deep_view()[i as int].has_untagged());
                assert(self.deep_view().body == self.body.deep_view());
                assert(self.deep_view().has_untagged());
                return true;
            }
            i += 1;
        }
        false
    }
}

/// Prints a commit as an entry of a listing: its summary alone where the
/// listing is compact, the whole commit otherwise.
pub fn print_entry(
    commit: &ParsedCommit,
    t: &mut Output,
    config: &Config,
    tag: Option<&str>,
    compact: bool,
)
    requires
        config.valid(),
    ensures
        old(t).wrote(
            *final(t),
            entry_rendering(
                commit.deep_view(),
                config.deep_view(),
                tag_view(tag),
                pen_of(
                    (Palette { first: Color::BrightBlue, second: Color::White }),
                    config.deep_view(),
                    *old(t),
                ),
                compact,
            ),
        ),
{
    if compact {
        commit.summary.print_default(t, config, tag);
    } else {
        commit.print_default(t, config, tag);
    }
}

} // verus!
