//! The document that a commit message is parsed into, and the release that
//! gathers the commits of one tag.
use crate::text::lemma_deep_view_push;
use vstd::prelude::*;

verus! {

/// The tag of a template section that takes the elements without tags.
pub const TOML_DEFAULT_KEY: &'static str = "default";

/// The name of the release that holds the commits no tag contains yet.
pub const UNRELEASED: &'static str = "Unreleased";

/// The identifier of a commit: the twenty bytes of its hash.
#[derive(Clone, Copy, Debug, PartialEq, Eq, PartialOrd, Ord)]
pub struct Oid {
    pub bytes: [u8; 20],
}

/// A day of the calendar.
#[derive(Clone, Copy, Debug, PartialEq, Eq, PartialOrd, Ord)]
pub struct Date {
    pub year: i32,
    /// From 1 to 12.
    pub month: u32,
    /// From 1 to 31.
    pub day: u32,
}

/// The first line of a commit message.
#[derive(Clone, Debug, PartialEq, Eq, PartialOrd, Ord)]
pub struct SummaryElement {
    pub oid: Option<Oid>,
    /// The ticket that the commit belongs to, such as `JIRA-1234`, or nothing.
    pub prefix: String,
    pub category: String,
    pub text: String,
    pub tags: Vec<String>,
}

/// One item of a list in the body of a commit message.
#[derive(Clone, Debug, PartialEq, Eq, PartialOrd, Ord)]
pub struct ListElement {
    pub oid: Option<Oid>,
    /// The category of the item, or nothing.
    pub category: String,
    pub text: String,
    pub tags: Vec<String>,
}

/// A paragraph in the body of a commit message.
#[derive(Clone, Debug, PartialEq, Eq, PartialOrd, Ord)]
pub struct ParagraphElement {
    pub oid: Option<Oid>,
    pub text: String,
    pub tags: Vec<String>,
}

/// A block of the body of a commit message.
#[derive(Clone, Debug, PartialEq, Eq, PartialOrd, Ord)]
pub enum BodyElement {
    List(Vec<ListElement>),
    Paragraph(ParagraphElement),
}

/// A line of the form `key: value` at the end of a commit message.
#[derive(Clone, Debug, PartialEq, Eq, PartialOrd, Ord)]
pub struct FooterElement {
    pub oid: Option<Oid>,
    pub key: String,
    pub value: String,
}

/// A parsed commit message.
#[derive(Clone, Debug, PartialEq, Eq, PartialOrd, Ord)]
pub struct ParsedCommit {
    pub oid: Option<Oid>,
    pub summary: SummaryElement,
    pub body: Vec<BodyElement>,
    pub footer: Vec<FooterElement>,
}

/// A release: the commits that one tag contains and no later tag does.
#[derive(Clone, Debug, PartialEq, Eq, PartialOrd, Ord)]
pub struct ParsedTag {
    pub name: String,
    pub date: Date,
    /// The parsed commits, once the messages are parsed.
    pub commits: Vec<ParsedCommit>,
    /// The places of the commits' messages in the list of work.
    pub message_ids: Vec<usize>,
}

/// What a [`SummaryElement`] holds, as mathematical values.
pub struct SummaryModel {
    pub oid: Option<Oid>,
    pub prefix: Seq<char>,
    pub category: Seq<char>,
    pub text: Seq<char>,
    pub tags: Seq<Seq<char>>,
}

/// What a [`ListElement`] holds, as mathematical values.
pub struct ListModel {
    pub oid: Option<Oid>,
    pub category: Seq<char>,
    pub text: Seq<char>,
    pub tags: Seq<Seq<char>>,
}

/// What a [`ParagraphElement`] holds, as mathematical values.
pub struct ParagraphModel {
    pub oid: Option<Oid>,
    pub text: Seq<char>,
    pub tags: Seq<Seq<char>>,
}

/// What a [`BodyElement`] holds, as mathematical values.
pub enum BodyModel {
    List(Seq<ListModel>),
    Paragraph(ParagraphModel),
}

/// What a [`FooterElement`] holds, as mathematical values.
pub struct FooterModel {
    pub oid: Option<Oid>,
    pub key: Seq<char>,
    pub value: Seq<char>,
}

/// What a [`ParsedCommit`] holds, as mathematical values.
pub struct CommitModel {
    pub oid: Option<Oid>,
    pub summary: SummaryModel,
    pub body: Seq<BodyModel>,
    pub footer: Seq<FooterModel>,
}

/// What a [`ParsedTag`] holds, as mathematical values.
pub struct TagModel {
    pub name: Seq<char>,
    pub date: Date,
    pub commits: Seq<CommitModel>,
    pub message_ids: Seq<usize>,
}

impl DeepView for Oid {
    type V = Oid;

    open spec fn deep_view(&self) -> Oid {
        *self
    }
}

impl DeepView for SummaryElement {
    type V = SummaryModel;

    open spec fn deep_view(&self) -> SummaryModel {
        SummaryModel {
            oid: self.oid,
            prefix: self.prefix@,
            category: self.category@,
            text: self.text@,
            tags: self.tags.deep_view(),
        }
    }
}

impl DeepView for ListElement {
    type V = ListModel;

    open spec fn deep_view(&self) -> ListModel {
        ListModel {
            oid: self.oid,
            category: self.category@,
            text: self.text@,
            tags: self.tags.deep_view(),
        }
    }
}

impl DeepView for ParagraphElement {
    type V = ParagraphModel;

    open spec fn deep_view(&self) -> ParagraphModel {
        ParagraphModel { oid: self.oid, text: self.text@, tags: self.tags.deep_view() }
    }
}

impl DeepView for BodyElement {
    type V = BodyModel;

    open spec fn deep_view(&self) -> BodyModel {
        match self {
            BodyElement::List(items) => BodyModel::List(items.deep_view()),
            BodyElement::Paragraph(paragraph) => BodyModel::Paragraph(paragraph.deep_view()),
        }
    }
}

impl DeepView for FooterElement {
    type V = FooterModel;

    open spec fn deep_view(&self) -> FooterModel {
        FooterModel { oid: self.oid, key: self.key@, value: self.value@ }
    }
}

impl DeepView for ParsedCommit {
    type V = CommitModel;

    open spec fn deep_view(&self) -> CommitModel {
        CommitModel {
            oid: self.oid,
            summary: self.summary.deep_view(),
            body: self.body.deep_view(),
            footer: self.footer.deep_view(),
        }
    }
}

impl DeepView for ParsedTag {
    type V = TagModel;

    open spec fn deep_view(&self) -> TagModel {
        TagModel {
            name: self.name@,
            date: self.date,
            commits: self.commits.deep_view(),
            message_ids: self.message_ids@,
        }
    }
}

/// Whether an element with the tags `tags` belongs to the section `tag`:
/// every element belongs where no section is asked for.
pub open spec fn has_tag(tags: Seq<Seq<char>>, tag: Option<Seq<char>>) -> bool {
    match tag {
        Some(t) => tags.contains(t),
        None => true,
    }
}

/// Whether an element with the tags `tags` falls to the section `tag` because
/// it has no tags: only the section `default` takes such elements.
pub open spec fn falls_to_default(tags: Seq<Seq<char>>, tag: Option<Seq<char>>) -> bool {
    tag == Some(TOML_DEFAULT_KEY@) && tags.len() == 0
}

/// Whether an element with the tags `tags` is printed in the section `tag`.
/// The section `default` takes the elements without tags, and no others;
/// every other section takes the elements that carry its tag; and every
/// element is printed where no section is asked for.
pub open spec fn shown_in(tags: Seq<Seq<char>>, tag: Option<Seq<char>>) -> bool {
    if tag == Some(TOML_DEFAULT_KEY@) {
        tags.len() == 0
    } else {
        has_tag(tags, tag)
    }
}

/// Whether an element with the tags `tags` is left out because one of its
/// tags is among `excluded`.
pub open spec fn is_excluded(tags: Seq<Seq<char>>, excluded: Seq<Seq<char>>) -> bool {
    exists|i: int| 0 <= i < tags.len() && excluded.contains(#[trigger] tags[i])
}

impl BodyModel {
    /// Whether one of the elements of the block belongs to the section `tag`.
    pub open spec fn has_tag(self, tag: Option<Seq<char>>) -> bool {
        match self {
            BodyModel::List(items) => exists|i: int|
                0 <= i < items.len() && has_tag(#[trigger] items[i].tags, tag),
            BodyModel::Paragraph(paragraph) => has_tag(paragraph.tags, tag),
        }
    }

    /// Whether one of the elements of the block has no tags.
    pub open spec fn has_untagged(self) -> bool {
        match self {
            BodyModel::List(items) => exists|i: int|
                0 <= i < items.len() && (#[trigger] items[i]).tags.len() == 0,
            BodyModel::Paragraph(paragraph) => paragraph.tags.len() == 0,
        }
    }

    /// The tags of the elements of the block, in order.
    pub open spec fn tags(self) -> Seq<Seq<char>> {
        match self {
            BodyModel::List(items) => list_tags(items),
            BodyModel::Paragraph(paragraph) => paragraph.tags,
        }
    }
}

/// The tags of the items of a list, in order.
pub open spec fn list_tags(items: Seq<ListModel>) -> Seq<Seq<char>>
    decreases items.len(),
{
    if items.len() == 0 {
        Seq::empty()
    } else {
        list_tags(items.drop_last()) + items.last().tags
    }
}

/// The tags of the elements of a body, in order.
pub open spec fn body_tags(body: Seq<BodyModel>) -> Seq<Seq<char>>
    decreases body.len(),
{
    if body.len() == 0 {
        Seq::empty()
    } else {
        body_tags(body.drop_last()) + body.last().tags()
    }
}

impl CommitModel {
    /// Whether the summary or an element of the body belongs to the section `tag`.
    pub open spec fn has_tag(self, tag: Option<Seq<char>>) -> bool {
        has_tag(self.summary.tags, tag) || exists|i: int|
            0 <= i < self.body.len() && (#[trigger] self.body[i]).has_tag(tag)
    }

    /// Whether the summary or an element of the body has no tags.
    pub open spec fn has_untagged(self) -> bool {
        self.summary.tags.len() == 0 || exists|i: int|
            0 <= i < self.body.len() && (#[trigger] self.body[i]).has_untagged()
    }

    /// The tags of the summary and of the elements of the body, in order.
    pub open spec fn tags(self) -> Seq<Seq<char>> {
        self.summary.tags + body_tags(self.body)
    }
}

/// The tags of the commits of a release, in order.
pub open spec fn commits_tags(commits: Seq<CommitModel>) -> Seq<Seq<char>>
    decreases commits.len(),
{
    if commits.len() == 0 {
        Seq::empty()
    } else {
        commits_tags(commits.drop_last()) + commits.last().tags()
    }
}

/// An element with tags is never printed in the section `default`, whatever
/// its tags are: it is printed in the sections whose tag it carries, `default`
/// not among them.
pub proof fn lemma_tagged_never_default(tags: Seq<Seq<char>>, tag: Option<Seq<char>>)
    requires
        tags.len() > 0,
    ensures
        !falls_to_default(tags, tag),
        !shown_in(tags, Some(TOML_DEFAULT_KEY@)),
        shown_in(tags, tag) == (tag != Some(TOML_DEFAULT_KEY@) && has_tag(tags, tag)),
{
}

/// An element without tags is printed in the section `default`, in no other
/// section, and wherever no section is asked for.
pub proof fn lemma_untagged_only_default(tags: Seq<Seq<char>>, tag: Option<Seq<char>>)
    requires
        tags.len() == 0,
    ensures
        shown_in(tags, tag) <==> (tag is None || tag == Some(TOML_DEFAULT_KEY@)),
        falls_to_default(tags, Some(TOML_DEFAULT_KEY@)),
{
}

impl SummaryElement {
    /// A copy of the summary.
    pub fn duplicate(&self) -> (r: SummaryElement)
        ensures
            r.deep_view() == self.deep_view(),
    {
        SummaryElement {
            oid: self.oid,
            prefix: self.prefix.clone(),
            category: self.category.clone(),
            text: self.text.clone(),
            tags: self.tags.clone(),
        }
    }
}

impl ListElement {
    /// A copy of the list item.
    pub fn duplicate(&self) -> (r: ListElement)
        ensures
            r.deep_view() == self.deep_view(),
    {
        ListElement {
            oid: self.oid,
            category: self.category.clone(),
            text: self.text.clone(),
            tags: self.tags.clone(),
        }
    }
}

impl ParagraphElement {
    /// A copy of the paragraph.
    pub fn duplicate(&self) -> (r: ParagraphElement)
        ensures
            r.deep_view() == self.deep_view(),
    {
        ParagraphElement { oid: self.oid, text: self.text.clone(), tags: self.tags.clone() }
    }
}

impl BodyElement {
    /// A copy of the block.
    pub fn duplicate(&self) -> (r: BodyElement)
        ensures
            r.deep_view() == self.deep_view(),
    {
        match self {
            BodyElement::List(items) => {
                let mut copy: Vec<ListElement> = Vec::new();
                let mut i: usize = 0;
                while i < items.len()
                    invariant
                        i <= items.len(),
                        copy.deep_view() == items.deep_view().take(i as int),
                    decreases items.len() - i,
                {
                    let item = items[i].duplicate();
                    let ghost before = copy;
                    copy.push(item);
                    proof {
                        lemma_deep_view_push(before, copy, item);
                        assert(items.deep_view().take(i as int).push(item.deep_view())
                            =~= items.deep_view().take(i + 1));
                    }
                    i += 1;
                }
                assert(items.deep_view().take(i as int) =~= items.deep_view());
                BodyElement::List(copy)
            },
            BodyElement::Paragraph(paragraph) => BodyElement::Paragraph(paragraph.duplicate()),
        }
    }
}

impl FooterElement {
    /// A copy of the footer.
    pub fn duplicate(&self) -> (r: FooterElement)
        ensures
            r.deep_view() == self.deep_view(),
    {
        FooterElement { oid: self.oid, key: self.key.clone(), value: self.value.clone() }
    }
}

impl ParsedCommit {
    /// A copy of the commit.
    pub fn duplicate(&self) -> (r: ParsedCommit)
        ensures
            r.deep_view() == self.deep_view(),
    {
        let mut body: Vec<BodyElement> = Vec::new();
        let mut i: usize = 0;
        while i < self.body.len()
            invariant
                i <= self.body.len(),
                body.deep_view() == self.body.deep_view().take(i as int),
            decreases self.body.len() - i,
        {
            let element = self.body[i].duplicate();
            let ghost before = body;
            body.push(element);
            proof {
                lemma_deep_view_push(before, body, element);
                assert(self.body.deep_view().take(i as int).push(element.deep_view())
                    =~= self.body.deep_view().take(i + 1));
            }
            i += 1;
        }
        assert(self.body.deep_view().take(i as int) =~= self.body.deep_view());
        let mut footer: Vec<FooterElement> = Vec::new();
        let mut j: usize = 0;
        while j < self.footer.len()
            invariant
                j <= self.footer.len(),
                footer.deep_view() == self.footer.deep_view().take(j as int),
            decreases self.footer.len() - j,
        {
            let element = self.footer[j].duplicate();
            let ghost before = footer;
            footer.push(element);
            proof {
                lemma_deep_view_push(before, footer, element);
                assert(self.footer.deep_view().take(j as int).push(element.deep_view())
                    =~= self.footer.deep_view().take(j + 1));
            }
            j += 1;
        }
        assert(self.footer.deep_view().take(j as int) =~= self.footer.deep_view());
        ParsedCommit { oid: self.oid, summary: self.summary.duplicate(), body, footer }
    }
}

} // verus!
