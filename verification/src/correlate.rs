//! Groups the commits of a history by the release that contains them.
//!
//! The commits are read in the order given. A commit that carries a tag starts
//! a new release; the commits before the first tag belong to the release
//! `Unreleased`. The messages of the commits are gathered in a list of work,
//! and each release records the places of its messages in that list.
use crate::document::{Date, Oid, ParsedTag, TagModel, UNRELEASED};
use crate::text::{contains, contains_seq, lemma_deep_view_push, same_str, to_chars};
use vstd::prelude::*;

verus! {

/// A commit of the history.
#[derive(Clone, Debug, PartialEq, Eq)]
pub struct LogEntry {
    pub id: Oid,
    pub message: String,
    /// The day of the commit.
    pub date: Date,
}

/// What a [`LogEntry`] holds, as mathematical values.
pub struct LogEntryModel {
    pub id: Oid,
    pub message: Seq<char>,
    pub date: Date,
}

impl DeepView for LogEntry {
    type V = LogEntryModel;

    open spec fn deep_view(&self) -> LogEntryModel {
        LogEntryModel { id: self.id, message: self.message@, date: self.date }
    }
}

/// A message that waits to be parsed, and the commit it belongs to.
#[derive(Clone, Debug, PartialEq, Eq)]
pub struct WorkItem {
    pub message: String,
    pub oid: Oid,
}

/// What a [`WorkItem`] holds, as mathematical values.
pub struct WorkModel {
    pub message: Seq<char>,
    pub oid: Oid,
}

impl DeepView for WorkItem {
    type V = WorkModel;

    open spec fn deep_view(&self) -> WorkModel {
        WorkModel { message: self.message@, oid: self.oid }
    }
}

/// The releases of a history and the list of work they refer to.
#[derive(Clone, Debug, PartialEq, Eq)]
pub struct Correlation {
    pub releases: Vec<ParsedTag>,
    pub worklist: Vec<WorkItem>,
}

/// What a [`Correlation`] holds, as mathematical values.
pub struct CorrelationModel {
    pub releases: Seq<TagModel>,
    pub worklist: Seq<WorkModel>,
}

impl DeepView for Correlation {
    type V = CorrelationModel;

    open spec fn deep_view(&self) -> CorrelationModel {
        CorrelationModel {
            releases: self.releases.deep_view(),
            worklist: self.worklist.deep_view(),
        }
    }
}

/// What a scan reads and what steers it.
pub struct ScanInput {
    pub commits: Seq<LogEntryModel>,
    /// The tags of the repository: the commit that each one names, and its name.
    pub tags: Seq<(Oid, Seq<char>)>,
    /// A tag whose name contains this starts no release.
    pub skip_pattern: Seq<char>,
    /// How many releases the scan opens at most after the first commit.
    pub max_tags: u32,
    /// Whether the scan goes on whatever `max_tags` says.
    pub all: bool,
    /// Whether the commits of the release `Unreleased` are left out.
    pub skip_unreleased: bool,
    /// The day of the release `Unreleased`.
    pub today: Date,
}

/// What became of a commit that the scan has read.
pub enum Fate {
    /// Its message stands at this place in the list of work.
    Queued(int),
    /// It was left out, as a commit of the release `Unreleased`.
    Dropped,
}

/// The state of a scan.
pub struct ScanModel {
    /// The releases that are closed, in the order in which they were opened.
    pub sealed: Seq<TagModel>,
    /// The release that is open.
    pub current: TagModel,
    pub worklist: Seq<WorkModel>,
    /// How many releases tags have opened.
    pub opened: nat,
    /// Whether the scan has ended at a tag that `max_tags` refuses.
    pub halted: bool,
    /// What became of each commit read so far, by its index.
    pub fate: Seq<Fate>,
    /// The index of the commit that each message in the list of work is of.
    pub sources: Seq<int>,
}

/// A release without commits.
pub open spec fn empty_release(name: Seq<char>, date: Date) -> TagModel {
    TagModel { name, date, commits: Seq::empty(), message_ids: Seq::empty() }
}

/// The state in which a scan starts: the release `Unreleased` is open.
pub open spec fn scan_start(p: ScanInput) -> ScanModel {
    ScanModel {
        sealed: Seq::empty(),
        current: empty_release(UNRELEASED@, p.today),
        worklist: Seq::empty(),
        opened: 0,
        halted: false,
        fate: Seq::empty(),
        sources: Seq::empty(),
    }
}

/// Whether the tag `t` starts a release at the commit `i`: it names that
/// commit, and its name does not contain the pattern to skip.
pub open spec fn is_boundary(p: ScanInput, i: int, t: int) -> bool {
    p.tags[t].0 == p.commits[i].id && !contains_seq(p.tags[t].1, p.skip_pattern)
}

/// The releases that are closed once the open one is: it joins them if it has
/// commits.
pub open spec fn sealed_with_current(s: ScanModel) -> Seq<TagModel> {
    if s.current.message_ids.len() > 0 {
        s.sealed.push(s.current)
    } else {
        s.sealed
    }
}

/// The state after the scan has met the tag `t` at the commit `i`. A tag that
/// starts a release closes the open one; then the scan ends if it is past the
/// first commit, not all releases are asked for, and `max_tags` releases are
/// opened already; else the release of the tag is opened.
pub open spec fn meet_tag(p: ScanInput, s: ScanModel, i: int, t: int) -> ScanModel {
    if s.halted || !is_boundary(p, i, t) {
        s
    } else if !p.all && i > 0 && s.opened >= p.max_tags {
        ScanModel { sealed: sealed_with_current(s), halted: true, ..s }
    } else {
        ScanModel {
            sealed: sealed_with_current(s),
            current: empty_release(p.tags[t].1, p.commits[i].date),
            opened: s.opened + 1,
            ..s
        }
    }
}

/// The state after the scan has met the first `m` tags at the commit `i`.
pub open spec fn meet_tags(p: ScanInput, s: ScanModel, i: int, m: int) -> ScanModel
    decreases m,
{
    if m <= 0 {
        s
    } else {
        meet_tag(p, meet_tags(p, s, i, m - 1), i, m - 1)
    }
}

/// The state after the scan has read the commit `i`: it meets the tags, and
/// unless it has ended, the commit is left out if commits of `Unreleased` are
/// and that release is open, and its message joins the list of work and the
/// open release otherwise.
pub open spec fn read_commit(p: ScanInput, s: ScanModel, i: int) -> ScanModel {
    if s.halted {
        s
    } else {
        let m = meet_tags(p, s, i, p.tags.len() as int);
        if m.halted {
            m
        } else if p.skip_unreleased && m.current.name == UNRELEASED@ {
            ScanModel { fate: m.fate.push(Fate::Dropped), ..m }
        } else {
            ScanModel {
                worklist: m.worklist.push(
                    WorkModel { message: p.commits[i].message, oid: p.commits[i].id },
                ),
                current: TagModel {
                    message_ids: m.current.message_ids.push(m.worklist.len() as usize),
                    ..m.current
                },
                fate: m.fate.push(Fate::Queued(m.worklist.len() as int)),
                sources: m.sources.push(i),
                ..m
            }
        }
    }
}

/// The state after the scan has read the first `n` commits.
pub open spec fn scan(p: ScanInput, n: int) -> ScanModel
    decreases n,
{
    if n <= 0 {
        scan_start(p)
    } else {
        read_commit(p, scan(p, n - 1), n - 1)
    }
}

/// The releases that a scan leaves: the closed ones, and the open one if it
/// has commits and is not among the closed ones already.
pub open spec fn releases_of(s: ScanModel) -> Seq<TagModel> {
    if s.current.message_ids.len() > 0 && !s.sealed.contains(s.current) {
        s.sealed.push(s.current)
    } else {
        s.sealed
    }
}

/// The releases of a history and the list of work they refer to.
pub open spec fn correlation(p: ScanInput) -> CorrelationModel {
    let s = scan(p, p.commits.len() as int);
    CorrelationModel { releases: releases_of(s), worklist: s.worklist }
}

/// The first `n` numbers, from 0 on.
pub open spec fn iota(n: int) -> Seq<usize> {
    Seq::new(
        if n >= 0 {
            n as nat
        } else {
            0
        },
        |k: int| k as usize,
    )
}

/// The places in the list of work that `releases` record, in order.
pub open spec fn flat_ids(releases: Seq<TagModel>) -> Seq<usize>
    decreases releases.len(),
{
    if releases.len() == 0 {
        Seq::empty()
    } else {
        flat_ids(releases.drop_last()) + releases.last().message_ids
    }
}

/// The number of places in the list of work that the closed releases of `s`
/// take up.
pub open spec fn sealed_ids(s: ScanModel) -> int {
    if s.halted {
        s.worklist.len() as int
    } else {
        s.worklist.len() - s.current.message_ids.len()
    }
}

/// What holds of the releases of a scan at every moment: no release has
/// parsed commits yet; the closed releases have commits, and record the first
/// places of the list of work, in order; the open release records the places
/// after those; and a scan that has ended has closed the open release.
pub open spec fn releases_wf(s: ScanModel) -> bool {
    &&& s.worklist.len() <= usize::MAX
    &&& s.current.commits.len() == 0
    &&& forall|j: int| 0 <= j < s.sealed.len() ==> (#[trigger] s.sealed[j]).commits.len() == 0
    &&& forall|j: int| 0 <= j < s.sealed.len() ==> (#[trigger] s.sealed[j]).message_ids.len() > 0
    &&& 0 <= sealed_ids(s)
    &&& flat_ids(s.sealed) == iota(sealed_ids(s))
    &&& forall|j: int, k: int|
        0 <= j < s.sealed.len() && 0 <= k < s.sealed[j].message_ids.len() ==> (
        #[trigger] s.sealed[j].message_ids[k]) < sealed_ids(s)
    &&& !s.halted ==> forall|k: int|
        0 <= k < s.current.message_ids.len() ==> #[trigger] s.current.message_ids[k] == sealed_ids(
            s,
        ) + k
    &&& s.halted && s.current.message_ids.len() > 0 ==> s.sealed.contains(s.current)
}

/// What holds of the commits of a scan that has read `n` of them: each commit
/// read has one fate; the messages in the list of work are those of the
/// commits that were queued, in order; and a scan that has ended has not read
/// the commit it ended at, nor any after it.
pub open spec fn fates_wf(p: ScanInput, s: ScanModel, n: int) -> bool {
    &&& s.sources.len() == s.worklist.len()
    &&& s.worklist.len() <= s.fate.len() <= n
    &&& !s.halted ==> s.fate.len() == n
    &&& s.halted ==> s.fate.len() < n && !p.all && s.fate.len() > 0
    &&& forall|i: int|
        0 <= i < s.fate.len() ==> match #[trigger] s.fate[i] {
            Fate::Queued(k) => 0 <= k < s.worklist.len() && s.sources[k] == i,
            Fate::Dropped => p.skip_unreleased,
        }
    &&& forall|k: int|
        0 <= k < s.worklist.len() ==> 0 <= #[trigger] s.sources[k] < s.fate.len()
            && s.fate[s.sources[k]] == Fate::Queued(k) && s.worklist[k] == (WorkModel {
            message: p.commits[s.sources[k]].message,
            oid: p.commits[s.sources[k]].id,
        })
    &&& forall|k: int, l: int| 0 <= k < l < s.sources.len() ==> s.sources[k] < s.sources[l]
}

/// Closing the open release keeps the releases well formed, with nothing open.
proof fn lemma_seal(s: ScanModel)
    requires
        releases_wf(s),
        !s.halted,
    ensures
        flat_ids(sealed_with_current(s)) == iota(s.worklist.len() as int),
        forall|j: int|
            0 <= j < sealed_with_current(s).len() ==> (#[trigger] sealed_with_current(
                s,
            )[j]).commits.len() == 0,
        forall|j: int|
            0 <= j < sealed_with_current(s).len() ==> (#[trigger] sealed_with_current(
                s,
            )[j]).message_ids.len() > 0,
        forall|j: int, k: int|
            0 <= j < sealed_with_current(s).len() && 0 <= k < sealed_with_current(
                s,
            )[j].message_ids.len() ==> (#[trigger] sealed_with_current(s)[j].message_ids[k])
                < s.worklist.len(),
        s.current.message_ids.len() > 0 ==> sealed_with_current(s).contains(s.current),
{
    let w = sealed_with_current(s);
    if s.current.message_ids.len() > 0 {
        assert(w.drop_last() =~= s.sealed);
        assert(w.last() == s.current);
        assert(flat_ids(w) =~= iota(s.worklist.len() as int));
        assert(w[w.len() - 1] == s.current);
    } else {
        assert(iota(sealed_ids(s)) =~= iota(s.worklist.len() as int));
    }
}

/// Meeting a tag keeps the releases well formed.
proof fn lemma_meet_tag_wf(p: ScanInput, s: ScanModel, i: int, t: int)
    requires
        releases_wf(s),
    ensures
        releases_wf(meet_tag(p, s, i, t)),
        meet_tag(p, s, i, t).worklist == s.worklist,
        meet_tag(p, s, i, t).fate == s.fate,
        meet_tag(p, s, i, t).sources == s.sources,
        meet_tag(p, s, i, t).halted ==> s.halted || (!p.all && i > 0),
{
    if !s.halted && is_boundary(p, i, t) {
        lemma_seal(s);
    }
}

/// Meeting the tags keeps the releases well formed.
proof fn lemma_meet_tags_wf(p: ScanInput, s: ScanModel, i: int, m: int)
    requires
        releases_wf(s),
    ensures
        releases_wf(meet_tags(p, s, i, m)),
        meet_tags(p, s, i, m).worklist == s.worklist,
        meet_tags(p, s, i, m).fate == s.fate,
        meet_tags(p, s, i, m).sources == s.sources,
        meet_tags(p, s, i, m).halted ==> s.halted || (!p.all && i > 0),
    decreases m,
{
    if m > 0 {
        lemma_meet_tags_wf(p, s, i, m - 1);
        lemma_meet_tag_wf(p, meet_tags(p, s, i, m - 1), i, m - 1);
    }
}

/// Reading a commit keeps the releases and the commits well formed.
proof fn lemma_read_commit_wf(p: ScanInput, s: ScanModel, i: int)
    requires
        releases_wf(s),
        fates_wf(p, s, i),
        0 <= i < p.commits.len() <= usize::MAX,
    ensures
        releases_wf(read_commit(p, s, i)),
        fates_wf(p, read_commit(p, s, i), i + 1),
{
    if !s.halted {
        let m = meet_tags(p, s, i, p.tags.len() as int);
        lemma_meet_tags_wf(p, s, i, p.tags.len() as int);
        let r = read_commit(p, s, i);
        if m.halted {
        } else if p.skip_unreleased && m.current.name == UNRELEASED@ {
        } else {
            assert(sealed_ids(r) == sealed_ids(m));
            assert forall|k: int| 0 <= k < r.worklist.len() implies 0 <= #[trigger] r.sources[k]
                < r.fate.len() && r.fate[r.sources[k]] == Fate::Queued(k) && r.worklist[k] == (
            WorkModel {
                message: p.commits[r.sources[k]].message,
                oid: p.commits[r.sources[k]].id,
            }) by {
                if k < m.worklist.len() {
                    assert(r.sources[k] == m.sources[k]);
                }
            }
            assert forall|i2: int| 0 <= i2 < r.fate.len() implies match #[trigger] r.fate[i2] {
                Fate::Queued(k) => 0 <= k < r.worklist.len() && r.sources[k] == i2,
                Fate::Dropped => p.skip_unreleased,
            } by {
                if i2 < m.fate.len() {
                    assert(r.fate[i2] == m.fate[i2]);
                }
            }
            assert forall|k: int, l: int| 0 <= k < l < r.sources.len() implies r.sources[k]
                < r.sources[l] by {
                assert(r.sources[k] == m.sources[k]);
                if l < m.sources.len() {
                    assert(r.sources[l] == m.sources[l]);
                }
            }
        }
    }
}

/// The releases and the commits of a scan are well formed at every moment.
pub proof fn lemma_scan_wf(p: ScanInput, n: int)
    requires
        0 <= n <= p.commits.len() <= usize::MAX,
    ensures
        releases_wf(scan(p, n)),
        fates_wf(p, scan(p, n), n),
    decreases n,
{
    if n > 0 {
        lemma_scan_wf(p, n - 1);
        lemma_read_commit_wf(p, scan(p, n - 1), n - 1);
    } else {
        assert(flat_ids(scan_start(p).sealed) =~= iota(0));
    }
}

/// A scan that has ended meets no more tags.
proof fn lemma_halted_stays_within(p: ScanInput, s: ScanModel, i: int, t: int, m: int)
    requires
        0 <= t <= m,
        meet_tags(p, s, i, t).halted,
    ensures
        meet_tags(p, s, i, m) == meet_tags(p, s, i, t),
    decreases m - t,
{
    if t < m {
        lemma_halted_stays_within(p, s, i, t, m - 1);
    }
}

/// A scan that has ended reads nothing more.
pub proof fn lemma_halted_stays(p: ScanInput, k: int, n: int)
    requires
        0 <= k <= n,
        scan(p, k).halted,
    ensures
        scan(p, n) == scan(p, k),
    decreases n - k,
{
    if k < n {
        lemma_halted_stays(p, k, n - 1);
    }
}

/// How many of the first `m` tags start a release at the commit `i`.
pub open spec fn boundaries_at(p: ScanInput, i: int, m: int) -> nat
    decreases m,
{
    if m <= 0 {
        0
    } else {
        boundaries_at(p, i, m - 1) + if is_boundary(p, i, m - 1) {
            1nat
        } else {
            0nat
        }
    }
}

/// How many tags start a release at one of the first `n` commits.
pub open spec fn boundaries_before(p: ScanInput, n: int) -> nat
    decreases n,
{
    if n <= 0 {
        0
    } else {
        boundaries_before(p, n - 1) + boundaries_at(p, n - 1, p.tags.len() as int)
    }
}

/// The number of releases that a scan opens at most, unless all are asked
/// for: `max_tags`, or the number of tags at the first commit if that is more.
pub open spec fn release_limit(p: ScanInput) -> nat {
    if boundaries_before(p, 1) > p.max_tags {
        boundaries_before(p, 1)
    } else {
        p.max_tags as nat
    }
}

proof fn lemma_boundaries_at_grow(p: ScanInput, i: int, m: int, k: int)
    requires
        m <= k,
    ensures
        boundaries_at(p, i, m) <= boundaries_at(p, i, k),
    decreases k - m,
{
    if m < k {
        lemma_boundaries_at_grow(p, i, m, k - 1);
    }
}

/// What holds of the count of opened releases once the scan has met the
/// first `m` tags at the commit `i`, having read the commits before it.
spec fn count_wf(p: ScanInput, s: ScanModel, i: int, m: int, was_halted: bool) -> bool {
    &&& !s.halted ==> s.opened == boundaries_before(p, i) + boundaries_at(p, i, m)
    &&& s.halted && !was_halted ==> !p.all && i > 0 && s.opened >= p.max_tags
        && boundaries_before(p, i) <= s.opened < boundaries_before(p, i) + boundaries_at(p, i, m)
    &&& !p.all ==> s.opened <= release_limit(p)
}

proof fn lemma_meet_tags_count(p: ScanInput, s: ScanModel, i: int, m: int)
    requires
        0 <= i,
        0 <= m <= p.tags.len(),
        !s.halted,
        s.opened == boundaries_before(p, i),
        !p.all ==> s.opened <= release_limit(p),
    ensures
        count_wf(p, meet_tags(p, s, i, m), i, m, false),
    decreases m,
{
    if m > 0 {
        lemma_meet_tags_count(p, s, i, m - 1);
        let before = meet_tags(p, s, i, m - 1);
        if !before.halted && is_boundary(p, i, m - 1) {
            if !p.all && i == 0 {
                lemma_boundaries_at_grow(p, 0, m, p.tags.len() as int);
                assert(boundaries_before(p, 1) == boundaries_before(p, 0) + boundaries_at(
                    p,
                    0,
                    p.tags.len() as int,
                ));
            }
        }
    }
}

/// What holds of the count of opened releases once the scan has read `n` commits.
spec fn scan_count_wf(p: ScanInput, s: ScanModel, n: int) -> bool {
    &&& !s.halted ==> s.opened == boundaries_before(p, n)
    &&& s.halted ==> !p.all && s.fate.len() > 0 && s.opened >= p.max_tags && boundaries_before(
        p,
        s.fate.len() as int,
    ) <= s.opened < boundaries_before(p, s.fate.len() as int + 1)
    &&& !p.all ==> s.opened <= release_limit(p)
}

proof fn lemma_scan_count(p: ScanInput, n: int)
    requires
        0 <= n <= p.commits.len() <= usize::MAX,
    ensures
        scan_count_wf(p, scan(p, n), n),
    decreases n,
{
    if n > 0 {
        lemma_scan_count(p, n - 1);
        lemma_scan_wf(p, n - 1);
        let s = scan(p, n - 1);
        if !s.halted {
            let m = meet_tags(p, s, n - 1, p.tags.len() as int);
            lemma_meet_tags_count(p, s, n - 1, p.tags.len() as int);
            lemma_meet_tags_wf(p, s, n - 1, p.tags.len() as int);
        }
    }
}

/// Every place in the list of work is recorded once, and every commit read
/// has one fate.
///
/// The places that the releases record, taken release by release, are the
/// places of the list of work from the first to the last, each once. The
/// message at each place is that of one commit, and the commits of the
/// messages come in the order of the history. Every commit that the scan has
/// read is either queued, at a place of its own, or dropped, which happens
/// only where the commits of `Unreleased` are left out. A scan that has not
/// ended early has read every commit.
pub proof fn lemma_partition(p: ScanInput)
    requires
        p.commits.len() <= usize::MAX,
    ensures
        ({
            let s = scan(p, p.commits.len() as int);
            let c = correlation(p);
            &&& flat_ids(c.releases) == iota(c.worklist.len() as int)
            &&& c.worklist == s.worklist
            &&& s.sources.len() == s.worklist.len()
            &&& s.fate.len() <= p.commits.len()
            &&& !s.halted ==> s.fate.len() == p.commits.len()
            &&& forall|i: int|
                0 <= i < s.fate.len() ==> match #[trigger] s.fate[i] {
                    Fate::Queued(k) => 0 <= k < s.worklist.len() && s.sources[k] == i,
                    Fate::Dropped => p.skip_unreleased,
                }
            &&& forall|k: int|
                0 <= k < s.worklist.len() ==> 0 <= #[trigger] s.sources[k] < s.fate.len()
                    && s.fate[s.sources[k]] == Fate::Queued(k) && s.worklist[k] == (WorkModel {
                    message: p.commits[s.sources[k]].message,
                    oid: p.commits[s.sources[k]].id,
                })
            &&& forall|k: int, l: int| 0 <= k < l < s.sources.len() ==> s.sources[k] < s.sources[l]
        }),
{
    let s = scan(p, p.commits.len() as int);
    lemma_scan_wf(p, p.commits.len() as int);
    if !s.halted && s.current.message_ids.len() > 0 {
        assert forall|j: int| 0 <= j < s.sealed.len() implies s.sealed[j] != s.current by {
            assert(s.sealed[j].message_ids[0] < sealed_ids(s));
            assert(s.current.message_ids[0] == sealed_ids(s));
        }
        let r = releases_of(s);
        assert(r.drop_last() =~= s.sealed);
        assert(r.last() == s.current);
        assert(flat_ids(r) =~= iota(s.worklist.len() as int));
    } else if !s.halted {
        assert(iota(sealed_ids(s)) =~= iota(s.worklist.len() as int));
    }
}

/// Every place that a release records is a place of the list of work.
pub proof fn lemma_ids_within(p: ScanInput)
    requires
        p.commits.len() <= usize::MAX,
    ensures
        forall|j: int, k: int|
            0 <= j < correlation(p).releases.len() && 0 <= k < correlation(
                p,
            ).releases[j].message_ids.len() ==> (#[trigger] correlation(
                p,
            ).releases[j].message_ids[k]) < correlation(p).worklist.len(),
{
    let s = scan(p, p.commits.len() as int);
    lemma_scan_wf(p, p.commits.len() as int);
    let r = releases_of(s);
    assert forall|j: int, k: int|
        0 <= j < r.len() && 0 <= k < r[j].message_ids.len() implies (#[trigger] r[j].message_ids[k])
        < s.worklist.len() by {
        if j < s.sealed.len() {
            assert(r[j] == s.sealed[j]);
            assert(s.sealed[j].message_ids[k] < sealed_ids(s));
        } else {
            assert(r[j] == s.current);
            assert(!s.halted) by {
                if s.halted {
                    assert(s.sealed.contains(s.current));
                }
            }
            assert(s.current.message_ids[k] == sealed_ids(s) + k);
        }
    }
}

/// Where no two commits of the history have the same identifier, no two
/// messages in the list of work are of the same commit.
pub proof fn lemma_distinct_ids(p: ScanInput)
    requires
        p.commits.len() <= usize::MAX,
        forall|i: int, j: int|
            0 <= i < j < p.commits.len() ==> (#[trigger] p.commits[i]).id != (
            #[trigger] p.commits[j]).id,
    ensures
        forall|k: int, l: int|
            0 <= k < l < correlation(p).worklist.len() ==> (#[trigger] correlation(
                p,
            ).worklist[k]).oid != (#[trigger] correlation(p).worklist[l]).oid,
{
    let s = scan(p, p.commits.len() as int);
    lemma_scan_wf(p, p.commits.len() as int);
    assert forall|k: int, l: int| 0 <= k < l < s.worklist.len() implies (
    #[trigger] s.worklist[k]).oid != (#[trigger] s.worklist[l]).oid by {
        assert(s.sources[k] < s.sources[l]);
        assert(0 <= s.sources[k] && s.sources[l] < s.fate.len());
        assert(s.worklist[k].oid == p.commits[s.sources[k]].id);
        assert(s.worklist[l].oid == p.commits[s.sources[l]].id);
    }
}

/// The releases that a scan leaves hold no parsed commits yet.
pub proof fn lemma_no_commits_yet(p: ScanInput)
    requires
        p.commits.len() <= usize::MAX,
    ensures
        forall|j: int|
            0 <= j < correlation(p).releases.len() ==> (#[trigger] correlation(
                p,
            ).releases[j]).commits.len() == 0,
{
    let s = scan(p, p.commits.len() as int);
    lemma_scan_wf(p, p.commits.len() as int);
    let r = releases_of(s);
    assert forall|j: int| 0 <= j < r.len() implies (#[trigger] r[j]).commits.len() == 0 by {
        if j < s.sealed.len() {
            assert(r[j] == s.sealed[j]);
        }
    }
}

/// A scan opens no more releases than it may, and ends at the first tag that
/// would open one more.
///
/// Where all releases are asked for, the scan never ends early. Otherwise it
/// opens at most [`release_limit`] releases. A scan that has not ended early
/// has opened a release for every tag that starts one. A scan that has ended
/// early has done so at a tag of a commit after the first, with exactly
/// [`release_limit`] releases opened, and has read neither that commit nor
/// any after it: no message in the list of work is of such a commit.
pub proof fn lemma_limit(p: ScanInput)
    requires
        p.commits.len() <= usize::MAX,
    ensures
        ({
            let n = p.commits.len() as int;
            let s = scan(p, n);
            let h = s.fate.len() as int;
            &&& p.all ==> !s.halted
            &&& !p.all ==> s.opened <= release_limit(p)
            &&& !s.halted ==> h == n && s.opened == boundaries_before(p, n)
            &&& s.halted ==> 0 < h < n && s.opened == release_limit(p) && boundaries_before(p, h)
                <= s.opened < boundaries_before(p, h + 1)
            &&& forall|k: int| 0 <= k < s.worklist.len() ==> #[trigger] s.sources[k] < h
        }),
{
    let n = p.commits.len() as int;
    let s = scan(p, n);
    lemma_scan_wf(p, n);
    lemma_scan_count(p, n);
    if s.halted {
        lemma_boundaries_before_grow(p, 1, s.fate.len() as int);
    }
}

proof fn lemma_boundaries_before_grow(p: ScanInput, m: int, k: int)
    requires
        m <= k,
    ensures
        boundaries_before(p, m) <= boundaries_before(p, k),
    decreases k - m,
{
    if m < k {
        lemma_boundaries_before_grow(p, m, k - 1);
    }
}

/// Whether two identifiers are the same.
pub fn same_oid(a: &Oid, b: &Oid) -> (r: bool)
    ensures
        r == (*a == *b),
{
    let mut k: usize = 0;
    while k < 20
        invariant
            k <= 20,
            forall|j: int| 0 <= j < k ==> a.bytes@[j] == b.bytes@[j],
        decreases 20 - k,
    {
        if a.bytes[k] != b.bytes[k] {
            return false;
        }
        k += 1;
    }
    assert(a.bytes@ =~= b.bytes@);
    assert(a.bytes == b.bytes);
    true
}

/// For each tag, whether its name contains the pattern to skip.
pub fn skipped_tags(tags: &Vec<(Oid, String)>, skip_pattern: &str) -> (r: Vec<bool>)
    ensures
        r.len() == tags.len(),
        forall|t: int|
            0 <= t < tags.len() ==> #[trigger] r@[t] == contains_seq(
                tags.deep_view()[t].1,
                skip_pattern@,
            ),
{
    let pattern = to_chars(skip_pattern);
    let mut r: Vec<bool> = Vec::new();
    let mut t: usize = 0;
    while t < tags.len()
        invariant
            t <= tags.len(),
            r.len() == t,
            pattern@ == skip_pattern@,
            forall|u: int|
                0 <= u < t ==> #[trigger] r@[u] == contains_seq(
                    tags.deep_view()[u].1,
                    skip_pattern@,
                ),
        decreases tags.len() - t,
    {
        let name = to_chars(tags[t].1.as_str());
        assert(tags.deep_view()[t as int].1 == name@);
        r.push(contains(&name, &pattern));
        t += 1;
    }
    r
}

/// A release without commits.
pub fn new_release(name: String, date: Date) -> (r: ParsedTag)
    ensures
        r.deep_view() == empty_release(name@, date),
{
    let r = ParsedTag { name, date, commits: Vec::new(), message_ids: Vec::new() };
    assert(r.commits.deep_view() =~= Seq::empty());
    r
}

/// Whether two scans are steered alike: by the same tags, pattern and limits.
pub open spec fn same_rules(p: ScanInput, q: ScanInput) -> bool {
    &&& p.tags == q.tags
    &&& p.skip_pattern == q.skip_pattern
    &&& p.max_tags == q.max_tags
    &&& p.all == q.all
    &&& p.skip_unreleased == q.skip_unreleased
    &&& p.today == q.today
}

/// Meeting the tags at a commit rests on the identifier and the day of the
/// commit, not on its message.
pub proof fn lemma_meet_tags_same(p: ScanInput, q: ScanInput, s: ScanModel, i: int, m: int)
    requires
        same_rules(p, q),
        p.commits[i].id == q.commits[i].id,
        p.commits[i].date == q.commits[i].date,
    ensures
        meet_tags(p, s, i, m) == meet_tags(q, s, i, m),
    decreases m,
{
    if m > 0 {
        lemma_meet_tags_same(p, q, s, i, m - 1);
    }
}

/// What a scan has made of the first `n` commits rests on these commits alone.
pub proof fn lemma_scan_prefix(p: ScanInput, q: ScanInput, n: int)
    requires
        same_rules(p, q),
        forall|i: int| 0 <= i < n ==> p.commits[i] == q.commits[i],
    ensures
        scan(p, n) == scan(q, n),
    decreases n,
{
    if n > 0 {
        lemma_scan_prefix(p, q, n - 1);
        lemma_meet_tags_same(p, q, scan(p, n - 1), n - 1, p.tags.len() as int);
    }
}

/// A scan that has ended did so at the commit after the last one it read: it
/// had not ended before that commit, and nothing has changed since.
pub proof fn lemma_halt_point(p: ScanInput, n: int)
    requires
        0 <= n <= p.commits.len() <= usize::MAX,
        scan(p, n).halted,
    ensures
        ({
            let h = scan(p, n).fate.len() as int;
            &&& 0 <= h < n
            &&& !scan(p, h).halted
            &&& scan(p, h + 1) == scan(p, n)
        }),
    decreases n,
{
    if n > 0 {
        lemma_scan_wf(p, n - 1);
        lemma_scan_wf(p, n);
        if scan(p, n - 1).halted {
            lemma_halt_point(p, n - 1);
        } else {
            lemma_meet_tags_wf(p, scan(p, n - 1), n - 1, p.tags.len() as int);
        }
    }
}

/// The commits after the one at which a scan ends change nothing, nor does
/// the message of that commit: a history that agrees with the one scanned up
/// to that commit, and on its identifier and day, gives the same releases and
/// the same list of work.
pub proof fn lemma_rest_is_not_read(p: ScanInput, q: ScanInput)
    requires
        same_rules(p, q),
        p.commits.len() <= usize::MAX,
        q.commits.len() <= usize::MAX,
        scan(p, p.commits.len() as int).halted,
        ({
            let h = scan(p, p.commits.len() as int).fate.len() as int;
            &&& h < q.commits.len()
            &&& forall|i: int| 0 <= i < h ==> p.commits[i] == q.commits[i]
            &&& p.commits[h].id == q.commits[h].id
            &&& p.commits[h].date == q.commits[h].date
        }),
    ensures
        correlation(q) == correlation(p),
        scan(q, q.commits.len() as int) == scan(p, p.commits.len() as int),
{
    let n = p.commits.len() as int;
    let h = scan(p, n).fate.len() as int;
    lemma_halt_point(p, n);
    lemma_scan_prefix(p, q, h);
    lemma_meet_tags_same(p, q, scan(p, h), h, p.tags.len() as int);
    assert(scan(q, h + 1) == scan(p, h + 1));
    lemma_halted_stays(q, h + 1, q.commits.len() as int);
}

/// A scan leaves at most one release more than tags have opened: the first
/// one, and one for each tag that opened a release. Where not all releases
/// are asked for, that is at most one more than [`release_limit`].
pub proof fn lemma_release_count(p: ScanInput)
    requires
        p.commits.len() <= usize::MAX,
    ensures
        correlation(p).releases.len() <= scan(p, p.commits.len() as int).opened + 1,
        !p.all ==> correlation(p).releases.len() <= release_limit(p) + 1,
{
    lemma_sealed_count(p, p.commits.len() as int);
    lemma_limit(p);
}

/// Whether the releases that are closed are no more than the tags that have
/// opened a release, but for the release that a scan that has ended closed.
spec fn sealed_count_wf(s: ScanModel) -> bool {
    if s.halted {
        s.sealed.len() <= s.opened + 1 && (s.current.message_ids.len() == 0
            || s.sealed.contains(s.current))
    } else {
        s.sealed.len() <= s.opened
    }
}

proof fn lemma_meet_tags_sealed_count(p: ScanInput, s: ScanModel, i: int, m: int)
    requires
        sealed_count_wf(s),
        releases_wf(s),
    ensures
        sealed_count_wf(meet_tags(p, s, i, m)),
    decreases m,
{
    if m > 0 {
        lemma_meet_tags_sealed_count(p, s, i, m - 1);
        lemma_meet_tags_wf(p, s, i, m - 1);
        let before = meet_tags(p, s, i, m - 1);
        if !before.halted && is_boundary(p, i, m - 1) {
            lemma_seal(before);
        }
    }
}

proof fn lemma_sealed_count(p: ScanInput, n: int)
    requires
        0 <= n <= p.commits.len() <= usize::MAX,
    ensures
        sealed_count_wf(scan(p, n)),
    decreases n,
{
    if n > 0 {
        lemma_sealed_count(p, n - 1);
        lemma_scan_wf(p, n - 1);
        let s = scan(p, n - 1);
        if !s.halted {
            lemma_meet_tags_sealed_count(p, s, n - 1, p.tags.len() as int);
            lemma_meet_tags_wf(p, s, n - 1, p.tags.len() as int);
        }
    }
}

/// The smaller of the number of releases opened and the limit.
spec fn capped(opened: nat, max_tags: u32) -> nat {
    if opened <= max_tags {
        opened
    } else {
        max_tags as nat
    }
}

/// Whether the releases held by a scan are those of the state `s`.
spec fn holds_state(
    sealed: Vec<ParsedTag>,
    current: ParsedTag,
    opened: u32,
    halted: bool,
    max_tags: u32,
    s: ScanModel,
) -> bool {
    &&& halted == s.halted
    &&& sealed.deep_view() == s.sealed
    &&& !halted ==> current.deep_view() == s.current
    &&& opened as nat == capped(s.opened, max_tags)
}

/// Whether `skipped` says of each tag whether its name holds the pattern of `p`.
spec fn marks_skipped(skipped: Vec<bool>, tags: Vec<(Oid, String)>, p: ScanInput) -> bool {
    &&& tags.deep_view() == p.tags
    &&& skipped.len() == tags.len()
    &&& forall|t: int|
        0 <= t < tags.len() ==> #[trigger] skipped@[t] == contains_seq(p.tags[t].1, p.skip_pattern)
}

/// Whether the releases held at the commit `i` of `p` are those of the
/// state `s`, in which the scan has not ended, and the tags are marked.
spec fn ready_to_meet(
    tags: Vec<(Oid, String)>,
    skipped: Vec<bool>,
    id: Oid,
    date: Date,
    first: bool,
    max_tags: u32,
    all: bool,
    sealed: Vec<ParsedTag>,
    current: ParsedTag,
    opened: u32,
    p: ScanInput,
    s: ScanModel,
    i: int,
) -> bool {
    &&& marks_skipped(skipped, tags, p)
    &&& max_tags == p.max_tags
    &&& all == p.all
    &&& 0 <= i
    &&& first == (i == 0)
    &&& p.commits[i].id == id
    &&& p.commits[i].date == date
    &&& !s.halted
    &&& holds_state(sealed, current, opened, false, max_tags, s)
}

/// Meets the tags at the commit `i` of `p`: the releases go from the state
/// `s` to the state after the tags. Says whether the scan has ended.
fn meet(
    tags: &Vec<(Oid, String)>,
    skipped: &Vec<bool>,
    id: Oid,
    date: Date,
    first: bool,
    max_tags: u32,
    all: bool,
    sealed: &mut Vec<ParsedTag>,
    current: &mut ParsedTag,
    opened: &mut u32,
    Ghost(p): Ghost<ScanInput>,
    Ghost(s): Ghost<ScanModel>,
    Ghost(i): Ghost<int>,
) -> (halted: bool)
    ensures
        ready_to_meet(
            *tags,
            *skipped,
            id,
            date,
            first,
            max_tags,
            all,
            *old(sealed),
            *old(current),
            *old(opened),
            p,
            s,
            i,
        ) ==> holds_state(
            *final(sealed),
            *final(current),
            *final(opened),
            halted,
            max_tags,
            meet_tags(p, s, i, tags.len() as int),
        ),
{
    let ghost ok = ready_to_meet(
        *tags,
        *skipped,
        id,
        date,
        first,
        max_tags,
        all,
        *sealed,
        *current,
        *opened,
        p,
        s,
        i,
    );
    let mut halted = false;
    let mut t: usize = 0;
    while t < tags.len() && !halted
        invariant
            t <= tags.len(),
            ok ==> marks_skipped(*skipped, *tags, p),
            ok ==> max_tags == p.max_tags && all == p.all && 0 <= i && first == (i == 0),
            ok ==> p.commits[i].id == id && p.commits[i].date == date && !s.halted,
            ok ==> holds_state(
                *sealed,
                *current,
                *opened,
                halted,
                max_tags,
                meet_tags(p, s, i, t as int),
            ),
        decreases tags.len() - t,
    {
        proof {
            if ok {
                assert(tags.deep_view()[t as int].0 == tags@[t as int].0);
                assert(tags.deep_view()[t as int].1 == tags@[t as int].1@);
            }
        }
        if t < skipped.len() && !skipped[t] && same_oid(&tags[t].0, &id) {
            proof {
                if ok {
                    assert(is_boundary(p, i, t as int));
                }
            }
            let stop = !all && !first && *opened >= max_tags;
            let mut finished = if stop {
                new_release(String::new(), date)
            } else {
                new_release(tags[t].1.clone(), date)
            };
            core::mem::swap(current, &mut finished);
            if finished.message_ids.len() > 0 {
                let ghost old_sealed = *sealed;
                sealed.push(finished);
                proof {
                    lemma_deep_view_push(old_sealed, *sealed, finished);
                }
            }
            if stop {
                halted = true;
            } else if *opened < max_tags {
                *opened = *opened + 1;
            }
        } else {
            proof {
                if ok {
                    assert(!is_boundary(p, i, t as int));
                }
            }
        }
        t += 1;
    }
    proof {
        if ok && halted {
            lemma_halted_stays_within(p, s, i, t as int, tags.len() as int);
        }
    }
    halted
}

/// A copy of the tags.
pub fn copy_tags(tags: &Vec<(Oid, String)>) -> (r: Vec<(Oid, String)>)
    ensures
        r.deep_view() == tags.deep_view(),
{
    let mut r: Vec<(Oid, String)> = Vec::new();
    let mut t: usize = 0;
    while t < tags.len()
        invariant
            t <= tags.len(),
            r.deep_view() == tags.deep_view().take(t as int),
        decreases tags.len() - t,
    {
        let tag = (tags[t].0, tags[t].1.clone());
        let ghost before = r;
        r.push(tag);
        proof {
            lemma_deep_view_push(before, r, tag);
            assert(tags.deep_view().take(t as int).push(tag.deep_view()) =~= tags.deep_view().take(
                t + 1,
            ));
        }
        t += 1;
    }
    assert(tags.deep_view().take(t as int) =~= tags.deep_view());
    r
}

/// A scan that reads the commits of a history one by one, so that the reader
/// of the history can stop where the scan ends.
pub struct Scan {
    tags: Vec<(Oid, String)>,
    skipped: Vec<bool>,
    max_tags: u32,
    all: bool,
    skip_unreleased: bool,
    sealed: Vec<ParsedTag>,
    current: ParsedTag,
    worklist: Vec<WorkItem>,
    opened: u32,
    halted: bool,
    count: usize,
    input: Ghost<ScanInput>,
}

impl Scan {
    /// What steers the scan, and the commits it has been given so far.
    pub closed spec fn input(&self) -> ScanInput {
        self.input@
    }

    /// The state of the scan: that after the commits it has been given.
    pub open spec fn state(&self) -> ScanModel {
        scan(self.input(), self.input().commits.len() as int)
    }

    /// A scan is well formed when it holds the releases and the list of work
    /// of its state. Every scan that [`Scan::new`] made and [`Scan::read`]
    /// has fed is.
    pub closed spec fn wf(&self) -> bool {
        &&& self.count == self.input@.commits.len()
        &&& marks_skipped(self.skipped, self.tags, self.input@)
        &&& self.max_tags == self.input@.max_tags
        &&& self.all == self.input@.all
        &&& self.skip_unreleased == self.input@.skip_unreleased
        &&& self.worklist.deep_view() == self.state().worklist
        &&& holds_state(
            self.sealed,
            self.current,
            self.opened,
            self.halted,
            self.max_tags,
            self.state(),
        )
    }

    /// Whether the scan takes one more commit: it has not ended, and has read
    /// fewer commits than can be counted.
    pub open spec fn takes_more(&self) -> bool {
        !self.state().halted && self.input().commits.len() < usize::MAX
    }

    /// A scan that has read nothing yet. `tags` holds, for each tag of the
    /// repository, the commit it names and its name; `today` is the day of
    /// the release `Unreleased`.
    pub fn new(
        tags: &Vec<(Oid, String)>,
        skip_pattern: &str,
        max_tags: u32,
        all: bool,
        skip_unreleased: bool,
        today: Date,
    ) -> (r: Scan)
        ensures
            r.wf(),
            r.input() == (ScanInput {
                commits: Seq::empty(),
                tags: tags.deep_view(),
                skip_pattern: skip_pattern@,
                max_tags,
                all,
                skip_unreleased,
                today,
            }),
    {
        let ghost p = ScanInput {
            commits: Seq::empty(),
            tags: tags.deep_view(),
            skip_pattern: skip_pattern@,
            max_tags,
            all,
            skip_unreleased,
            today,
        };
        let own = copy_tags(tags);
        let skipped = skipped_tags(&own, skip_pattern);
        let sealed: Vec<ParsedTag> = Vec::new();
        let worklist: Vec<WorkItem> = Vec::new();
        assert(sealed.deep_view() =~= Seq::empty());
        assert(worklist.deep_view() =~= Seq::empty());
        Scan {
            tags: own,
            skipped,
            max_tags,
            all,
            skip_unreleased,
            sealed,
            current: new_release(UNRELEASED.to_owned(), today),
            worklist,
            opened: 0,
            halted: false,
            count: 0,
            input: Ghost(p),
        }
    }

    /// Whether the scan has ended at a tag that the limit refuses.
    pub fn is_halted(&self) -> (r: bool)
        ensures
            self.wf() ==> r == self.state().halted,
    {
        self.halted
    }

    /// The number of messages in the list of work.
    pub fn queued(&self) -> (r: usize)
        ensures
            self.wf() ==> r == self.state().worklist.len(),
    {
        proof {
            assert(self.worklist.deep_view().len() == self.worklist.len());
        }
        self.worklist.len()
    }

    /// Gives the scan the next commit of the history, and says whether the
    /// scan goes on. A scan that takes no more commits stays as it is.
    pub fn read(&mut self, entry: &LogEntry) -> (goes_on: bool)
        ensures
            old(self).wf() ==> final(self).wf(),
            old(self).wf() ==> goes_on == !final(self).state().halted,
            old(self).wf() ==> final(self).input() == if old(self).takes_more() {
                ScanInput {
                    commits: old(self).input().commits.push(entry.deep_view()),
                    ..old(self).input()
                }
            } else {
                old(self).input()
            },
    {
        if self.halted || self.count == usize::MAX {
            return !self.halted;
        }
        let ghost before = self.input@;
        let ghost i = self.count as int;
        let ghost p = ScanInput { commits: before.commits.push(entry.deep_view()), ..before };
        let ghost s = scan(before, i);
        let ghost was_wf = self.wf();
        proof {
            if was_wf {
                lemma_scan_prefix(before, p, i);
                assert(scan(p, i) == s);
                assert(p.commits[i] == entry.deep_view());
            }
            self.input = Ghost(p);
        }
        let halted = meet(
            &self.tags,
            &self.skipped,
            entry.id,
            entry.date,
            self.count == 0,
            self.max_tags,
            self.all,
            &mut self.sealed,
            &mut self.current,
            &mut self.opened,
            Ghost(p),
            Ghost(s),
            Ghost(i),
        );
        self.halted = halted;
        proof {
            if was_wf {
                lemma_scan_wf(before, i);
                lemma_meet_tags_wf(p, s, i, p.tags.len() as int);
                assert(self.tags.deep_view().len() == self.tags.len());
                assert(self.worklist.deep_view().len() == self.worklist.len());
            }
        }
        if !halted && !(self.skip_unreleased && same_str(self.current.name.as_str(), UNRELEASED)) {
            let id = self.worklist.len();
            let item = WorkItem { message: entry.message.clone(), oid: entry.id };
            let ghost old_worklist = self.worklist;
            self.worklist.push(item);
            self.current.message_ids.push(id);
            proof {
                lemma_deep_view_push(old_worklist, self.worklist, item);
            }
        }
        self.count = self.count + 1;
        !halted
    }
}

impl Scan {
    /// The releases and the list of work that the scan leaves.
    pub fn finish(self) -> (r: Correlation)
        ensures
            self.wf() ==> r.deep_view() == correlation(self.input()),
    {
        let ghost p = self.input@;
        let ghost ok = self.wf();
        let Scan { sealed, current, worklist, halted, .. } = self;
        let mut sealed = sealed;
        proof {
            if ok {
                lemma_scan_wf(p, p.commits.len() as int);
                let s = scan(p, p.commits.len() as int);
                if !halted && s.current.message_ids.len() > 0 {
                    assert forall|j: int| 0 <= j < s.sealed.len() implies s.sealed[j]
                        != s.current by {
                        assert(s.sealed[j].message_ids[0] < sealed_ids(s));
                        assert(s.current.message_ids[0] == sealed_ids(s));
                    }
                }
            }
        }
        if !halted && current.message_ids.len() > 0 {
            let ghost old_sealed = sealed;
            sealed.push(current);
            proof {
                lemma_deep_view_push(old_sealed, sealed, current);
            }
        }
        Correlation { releases: sealed, worklist }
    }
}

/// Groups the commits of a history by the release that contains them.
///
/// `tags` holds, for each tag of the repository, the commit it names and its
/// name. `today` is the day of the release `Unreleased`.
pub fn correlate(
    commits: &Vec<LogEntry>,
    tags: &Vec<(Oid, String)>,
    skip_pattern: &str,
    max_tags: u32,
    all: bool,
    skip_unreleased: bool,
    today: Date,
) -> (r: Correlation)
    ensures
        r.deep_view() == correlation(
            (ScanInput {
                commits: commits.deep_view(),
                tags: tags.deep_view(),
                skip_pattern: skip_pattern@,
                max_tags,
                all,
                skip_unreleased,
                today,
            }),
        ),
{
    let ghost full = ScanInput {
        commits: commits.deep_view(),
        tags: tags.deep_view(),
        skip_pattern: skip_pattern@,
        max_tags,
        all,
        skip_unreleased,
        today,
    };
    let mut scan = Scan::new(tags, skip_pattern, max_tags, all, skip_unreleased, today);
    let mut goes_on = true;
    let mut i: usize = 0;
    assert(full.commits.take(0) =~= Seq::empty());
    while i < commits.len() && goes_on
        invariant
            i <= commits.len(),
            full.commits == commits.deep_view(),
            scan.wf(),
            goes_on == !scan.state().halted,
            scan.input() == (ScanInput { commits: full.commits.take(i as int), ..full }),
        decreases commits.len() - i,
    {
        assert(full.commits.take(i as int).len() == i);
        goes_on = scan.read(&commits[i]);
        assert(full.commits.take(i as int).push(commits@[i as int].deep_view())
            =~= full.commits.take(i + 1));
        i += 1;
    }
    proof {
        let part = scan.input();
        assert(part.commits.len() == i);
        lemma_scan_prefix(full, part, i as int);
        if !goes_on {
            lemma_halted_stays(full, i as int, commits.len() as int);
        } else {
            assert(full.commits.take(i as int) =~= full.commits);
        }
        assert(full.commits.len() == commits.len());
    }
    scan.finish()
}

} // verus!
