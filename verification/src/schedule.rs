//! Parses the messages of a list of work, each on its own, and puts the
//! parsed commits into the releases that recorded them.
use crate::correlate::{WorkItem, WorkModel};
use crate::document::{CommitModel, ParsedCommit, ParsedTag, TagModel};
use crate::order::{insert_pos, is_sorted, lemma_insert_keeps_sorted, lemma_insert_pos};
use crate::parser::{outcome, parse_message, ParseError, ParseErrorModel, Parser};
use crate::text::{lemma_deep_view_push, str_less};
use rayon::iter::{IntoParallelRefIterator, ParallelIterator};
use vstd::prelude::*;

verus! {

/// What parsing the message of `item` gives.
pub open spec fn slot_of(parser: Parser, item: WorkModel) -> Result<CommitModel, ParseErrorModel> {
    parse_message(parser.config.deep_view(), item.message, Some(item.oid))
}

/// What the results of parsing hold, as mathematical values.
pub open spec fn outcomes(slots: Seq<Result<ParsedCommit, ParseError>>) -> Seq<
    Result<CommitModel, ParseErrorModel>,
> {
    Seq::new(slots.len(), |k: int| outcome(slots[k]))
}

/// The commits at the places `ids` of `slots`, in the order of `ids`. A place
/// whose message could not be parsed gives no commit, nor does a place that
/// `slots` does not have.
pub open spec fn resolved(ids: Seq<usize>, slots: Seq<Result<CommitModel, ParseErrorModel>>) -> Seq<
    CommitModel,
>
    decreases ids.len(),
{
    if ids.len() == 0 {
        Seq::empty()
    } else {
        match slot_at(slots, ids.last() as int) {
            Some(commit) => resolved(ids.drop_last(), slots).push(commit),
            None => resolved(ids.drop_last(), slots),
        }
    }
}

/// The commit at the place `id` of `slots`, if `slots` has the place and its
/// message could be parsed.
pub open spec fn slot_at(slots: Seq<Result<CommitModel, ParseErrorModel>>, id: int) -> Option<
    CommitModel,
> {
    if 0 <= id < slots.len() {
        match slots[id] {
            Ok(commit) => Some(commit),
            Err(_) => None,
        }
    } else {
        None
    }
}

/// The categories of the summaries of `commits`.
pub open spec fn categories_of(commits: Seq<CommitModel>) -> Seq<Seq<char>> {
    Seq::new(commits.len(), |k: int| commits[k].summary.category)
}

/// `commits` in the order of their categories. Commits of one category keep
/// their places among each other.
pub open spec fn sorted_by_category(commits: Seq<CommitModel>) -> Seq<CommitModel>
    decreases commits.len(),
{
    if commits.len() == 0 {
        commits
    } else {
        let r = sorted_by_category(commits.drop_last());
        r.insert(insert_pos(categories_of(r), commits.last().summary.category), commits.last())
    }
}

/// `commits` in the order asked for: by category, or as they are.
pub open spec fn arranged(commits: Seq<CommitModel>, by_name: bool) -> Seq<CommitModel> {
    if by_name {
        sorted_by_category(commits)
    } else {
        commits
    }
}

/// The release `t` with the commits that it recorded, or `None` where none
/// of their messages could be parsed.
pub open spec fn assembled_release(
    t: TagModel,
    slots: Seq<Result<CommitModel, ParseErrorModel>>,
    by_name: bool,
) -> Option<TagModel> {
    let commits = t.commits + resolved(t.message_ids, slots);
    if commits.len() == 0 {
        None
    } else {
        Some(TagModel { commits: arranged(commits, by_name), ..t })
    }
}

/// `releases` with the commits that they recorded, those without commits
/// left out.
pub open spec fn assembled(
    releases: Seq<TagModel>,
    slots: Seq<Result<CommitModel, ParseErrorModel>>,
    by_name: bool,
) -> Seq<TagModel>
    decreases releases.len(),
{
    if releases.len() == 0 {
        Seq::empty()
    } else {
        match assembled_release(releases.last(), slots, by_name) {
            Some(t) => assembled(releases.drop_last(), slots, by_name).push(t),
            None => assembled(releases.drop_last(), slots, by_name),
        }
    }
}

/// The commits of `releases`, release by release.
pub open spec fn log_commits(releases: Seq<TagModel>) -> Seq<CommitModel>
    decreases releases.len(),
{
    if releases.len() == 0 {
        Seq::empty()
    } else {
        log_commits(releases.drop_last()) + releases.last().commits
    }
}

/// The commits at places in a row are those at the first places, then those
/// at the places after them.
pub proof fn lemma_resolved_add(
    a: Seq<usize>,
    b: Seq<usize>,
    slots: Seq<Result<CommitModel, ParseErrorModel>>,
)
    ensures
        resolved(a + b, slots) == resolved(a, slots) + resolved(b, slots),
    decreases b.len(),
{
    if b.len() == 0 {
        assert(a + b =~= a);
        assert(resolved(a, slots) + resolved(b, slots) =~= resolved(a, slots));
    } else {
        lemma_resolved_add(a, b.drop_last(), slots);
        assert((a + b).drop_last() =~= a + b.drop_last());
        assert((a + b).last() == b.last());
        match slot_at(slots, b.last() as int) {
            Some(commit) => {
                assert(resolved(a + b, slots) =~= resolved(a, slots) + resolved(b, slots));
            },
            None => {},
        }
    }
}

/// The commits of the assembled releases are those at the places that the
/// releases record: in the order of the places where the commits are not
/// sorted, and each as often as its place is recorded in any case. The
/// releases must have no commits before.
pub proof fn lemma_assembled_commits(
    releases: Seq<TagModel>,
    slots: Seq<Result<CommitModel, ParseErrorModel>>,
    by_name: bool,
)
    requires
        forall|j: int| 0 <= j < releases.len() ==> (#[trigger] releases[j]).commits.len() == 0,
    ensures
        log_commits(assembled(releases, slots, by_name)).to_multiset() == resolved(
            crate::correlate::flat_ids(releases),
            slots,
        ).to_multiset(),
        !by_name ==> log_commits(assembled(releases, slots, by_name)) == resolved(
            crate::correlate::flat_ids(releases),
            slots,
        ),
    decreases releases.len(),
{
    if releases.len() > 0 {
        let rest = releases.drop_last();
        let t = releases.last();
        assert forall|j: int| 0 <= j < rest.len() implies (#[trigger] rest[j]).commits.len()
            == 0 by {
            assert(rest[j] == releases[j]);
        }
        lemma_assembled_commits(rest, slots, by_name);
        lemma_resolved_add(crate::correlate::flat_ids(rest), t.message_ids, slots);
        let before = resolved(crate::correlate::flat_ids(rest), slots);
        let found = resolved(t.message_ids, slots);
        let done = log_commits(assembled(rest, slots, by_name));
        assert(t.commits + found =~= found);
        lemma_sorted_by_category(found);
        vstd::seq_lib::lemma_multiset_commutative(before, found);
        if found.len() == 0 {
            assert(before + found =~= before);
        } else {
            let kept = arranged(found, by_name);
            let all = assembled(releases, slots, by_name);
            assert(all.drop_last() =~= assembled(rest, slots, by_name));
            assert(all.last().commits == kept);
            assert(log_commits(all) == done + kept);
            vstd::seq_lib::lemma_multiset_commutative(done, kept);
        }
    } else {
        assert(crate::correlate::flat_ids(releases) =~= Seq::<usize>::empty());
    }
}

/// Assembling leaves out releases and adds none.
pub proof fn lemma_assembled_len(
    releases: Seq<TagModel>,
    slots: Seq<Result<CommitModel, ParseErrorModel>>,
    by_name: bool,
)
    ensures
        assembled(releases, slots, by_name).len() <= releases.len(),
    decreases releases.len(),
{
    if releases.len() > 0 {
        lemma_assembled_len(releases.drop_last(), slots, by_name);
    }
}

/// Sorting by category gives the same commits, each as often as before, with
/// categories in order.
pub proof fn lemma_sorted_by_category(commits: Seq<CommitModel>)
    ensures
        sorted_by_category(commits).to_multiset() == commits.to_multiset(),
        sorted_by_category(commits).len() == commits.len(),
        is_sorted(categories_of(sorted_by_category(commits))),
    decreases commits.len(),
{
    if commits.len() > 0 {
        let r = sorted_by_category(commits.drop_last());
        let c = commits.last();
        lemma_sorted_by_category(commits.drop_last());
        let p = insert_pos(categories_of(r), c.summary.category);
        lemma_insert_pos(categories_of(r), c.summary.category);
        lemma_insert_keeps_sorted(categories_of(r), c.summary.category);
        vstd::seq_lib::to_multiset_insert(r, p, c);
        vstd::seq_lib::to_multiset_build(commits.drop_last(), c);
        assert(commits.drop_last().push(c) =~= commits);
        assert(categories_of(r.insert(p, c)) =~= categories_of(r).insert(p, c.summary.category));
    } else {
        assert(categories_of(commits) =~= Seq::empty());
    }
}

/// Hands the items of `worklist` to the threads of `rayon`, by `par_iter`,
/// `map` and `collect`: each item is parsed by [`Parser::parse_item`], and the
/// results come back in the order of the items.
#[verifier::external_body]
pub(crate) fn parse_each(parser: &Parser, worklist: &Vec<WorkItem>) -> (r: Vec<
    Result<ParsedCommit, ParseError>,
>)
    requires
        parser.config.valid(),
    ensures
        r.len() == worklist.len(),
        forall|k: int|
            0 <= k < r.len() ==> outcome(#[trigger] r@[k]) == slot_of(
                *parser,
                worklist.deep_view()[k],
            ),
{
    worklist.par_iter().map(|item| parser.parse_item(item)).collect()
}

/// The place at which a commit of the category `category` joins `commits`.
pub fn find_commit_pos(commits: &Vec<ParsedCommit>, category: &str) -> (r: usize)
    ensures
        r == insert_pos(categories_of(commits.deep_view()), category@),
        r <= commits.len(),
{
    let ghost keys = categories_of(commits.deep_view());
    let mut j: usize = commits.len();
    assert(keys.take(j as int) =~= keys);
    while j > 0 && str_less(category, commits[j - 1].summary.category.as_str())
        invariant
            j <= commits.len(),
            keys == categories_of(commits.deep_view()),
            insert_pos(keys, category@) == insert_pos(keys.take(j as int), category@),
        decreases j,
    {
        assert(keys.take(j as int).drop_last() =~= keys.take(j - 1));
        assert(keys.take(j as int).last() == commits@[j - 1].summary.category@);
        j -= 1;
    }
    proof {
        if j > 0 {
            assert(keys.take(j as int).last() == commits@[j - 1].summary.category@);
        }
    }
    j
}

/// Puts `commit` into `commits`: at its place by category, or at the end.
pub fn place_commit(commits: &mut Vec<ParsedCommit>, commit: ParsedCommit, by_name: bool)
    ensures
        final(commits).deep_view() == if by_name {
            old(commits).deep_view().insert(
                insert_pos(categories_of(old(commits).deep_view()), commit.summary.category@),
                commit.deep_view(),
            )
        } else {
            old(commits).deep_view().push(commit.deep_view())
        },
{
    let ghost before = commits.deep_view();
    if by_name {
        let pos = find_commit_pos(commits, commit.summary.category.as_str());
        commits.insert(pos, commit);
        assert(commits.deep_view() =~= before.insert(pos as int, commit.deep_view()));
    } else {
        commits.push(commit);
        assert(commits.deep_view() =~= before.push(commit.deep_view()));
    }
}

/// The release `t` with the commits that it recorded.
pub fn assemble_release(
    t: &ParsedTag,
    slots: &Vec<Result<ParsedCommit, ParseError>>,
    by_name: bool,
) -> (r: Option<ParsedTag>)
    ensures
        r.deep_view() == assembled_release(t.deep_view(), outcomes(slots@), by_name),
{
    let ghost given = t.commits.deep_view();
    let ghost found = outcomes(slots@);
    let mut commits: Vec<ParsedCommit> = Vec::new();
    let mut i: usize = 0;
    assert(given.take(0) =~= Seq::empty());
    assert(commits.deep_view() =~= Seq::empty());
    while i < t.commits.len()
        invariant
            i <= t.commits.len(),
            given == t.commits.deep_view(),
            commits.deep_view() == arranged(given.take(i as int), by_name),
        decreases t.commits.len() - i,
    {
        let commit = t.commits[i].duplicate();
        proof {
            assert(given.take(i + 1).drop_last() =~= given.take(i as int));
            assert(given.take(i + 1).last() == commit.deep_view());
            assert(given.take(i as int).push(commit.deep_view()) =~= given.take(i + 1));
        }
        place_commit(&mut commits, commit, by_name);
        i += 1;
    }
    assert(given.take(i as int) =~= given);
    let mut k: usize = 0;
    assert(t.message_ids@.take(0) =~= Seq::empty());
    assert(given + resolved(Seq::empty(), found) =~= given);
    while k < t.message_ids.len()
        invariant
            k <= t.message_ids.len(),
            given == t.commits.deep_view(),
            found == outcomes(slots@),
            commits.deep_view() == arranged(
                given + resolved(t.message_ids@.take(k as int), found),
                by_name,
            ),
        decreases t.message_ids.len() - k,
    {
        let id = t.message_ids[k];
        let ghost ids = t.message_ids@.take(k as int);
        proof {
            assert(t.message_ids@.take(k + 1).drop_last() =~= ids);
            assert(t.message_ids@.take(k + 1).last() == id);
            if id < slots.len() {
                assert(found[id as int] == outcome(slots@[id as int]));
            }
        }
        if id < slots.len() {
            match &slots[id] {
                Ok(parsed) => {
                    let commit = parsed.duplicate();
                    proof {
                        let all = given + resolved(ids, found);
                        let more = given + resolved(t.message_ids@.take(k + 1), found);
                        assert(more =~= all.push(commit.deep_view()));
                        assert(more.drop_last() =~= all);
                    }
                    place_commit(&mut commits, commit, by_name);
                },
                Err(_) => {},
            }
        }
        k += 1;
    }
    assert(t.message_ids@.take(k as int) =~= t.message_ids@);
    proof {
        lemma_sorted_by_category(given + resolved(t.message_ids@, found));
    }
    if commits.len() == 0 {
        None
    } else {
        Some(
            ParsedTag {
                name: t.name.clone(),
                date: t.date,
                commits,
                message_ids: t.message_ids.clone(),
            },
        )
    }
}

/// Puts the parsed commits into the releases that recorded them. A release
/// of which no message could be parsed is left out. With `by_name` the
/// commits of each release are sorted by category.
pub fn assemble(
    releases: &Vec<ParsedTag>,
    slots: &Vec<Result<ParsedCommit, ParseError>>,
    by_name: bool,
) -> (r: Vec<ParsedTag>)
    ensures
        r.deep_view() == assembled(releases.deep_view(), outcomes(slots@), by_name),
{
    let mut r: Vec<ParsedTag> = Vec::new();
    let mut j: usize = 0;
    assert(releases.deep_view().take(0) =~= Seq::empty());
    assert(r.deep_view() =~= Seq::empty());
    while j < releases.len()
        invariant
            j <= releases.len(),
            r.deep_view() == assembled(
                releases.deep_view().take(j as int),
                outcomes(slots@),
                by_name,
            ),
        decreases releases.len() - j,
    {
        proof {
            assert(releases.deep_view().take(j + 1).drop_last() =~= releases.deep_view().take(
                j as int,
            ));
            assert(releases.deep_view().take(j + 1).last() == releases@[j as int].deep_view());
        }
        match assemble_release(&releases[j], slots, by_name) {
            Some(t) => {
                let ghost before = r;
                r.push(t);
                proof {
                    lemma_deep_view_push(before, r, t);
                }
            },
            None => {},
        }
        j += 1;
    }
    assert(releases.deep_view().take(j as int) =~= releases.deep_view());
    r
}

impl Parser {
    /// Parses the message of an item of work.
    pub fn parse_item(&self, item: &WorkItem) -> (r: Result<ParsedCommit, ParseError>)
        requires
            self.config.valid(),
        ensures
            outcome(r) == slot_of(*self, item.deep_view()),
    {
        self.parse_commit_message(item.message.as_str(), Some(item.oid))
    }

    /// Parses the messages of a list of work, each on its own. The results
    /// stand in the order of the list.
    pub fn parse_worklist(&self, worklist: &Vec<WorkItem>) -> (r: Vec<
        Result<ParsedCommit, ParseError>,
    >)
        requires
            self.config.valid(),
        ensures
            r.len() == worklist.len(),
            forall|k: int|
                0 <= k < r.len() ==> outcome(#[trigger] r@[k]) == slot_of(
                    *self,
                    worklist.deep_view()[k],
                ),
    {
        parse_each(self, worklist)
    }
}

} // verus!
