use gitjournal::correlate::{copy_tags, correlate, Correlation, LogEntry, Scan, WorkItem};
use gitjournal::document::{Date, Oid, ParsedTag};

fn oid(n: u8) -> Oid {
    Oid { bytes: [n; 20] }
}

fn day(d: u32) -> Date {
    Date {
        year: 2016,
        month: 10,
        day: d,
    }
}

fn entry(n: u8) -> LogEntry {
    LogEntry {
        id: oid(n),
        message: format!("Added commit {}", n),
        date: day(n as u32),
    }
}

fn item(n: u8) -> WorkItem {
    WorkItem {
        message: format!("Added commit {}", n),
        oid: oid(n),
    }
}

fn release(name: &str, date: Date, ids: Vec<usize>) -> ParsedTag {
    ParsedTag {
        name: name.to_owned(),
        date,
        commits: vec![],
        message_ids: ids,
    }
}

fn today() -> Date {
    Date {
        year: 2017,
        month: 1,
        day: 2,
    }
}

/// Five commits, the newest first; the second carries `v2`, the fourth `v1`.
fn history() -> (Vec<LogEntry>, Vec<(Oid, String)>) {
    (
        vec![entry(5), entry(4), entry(3), entry(2), entry(1)],
        vec![(oid(2), "v1".to_owned()), (oid(4), "v2".to_owned())],
    )
}

#[test]
fn scan_stops_at_the_tag_after_the_limit() {
    let (commits, tags) = history();
    let found = correlate(&commits, &tags, "rc", 1, false, false, today());
    assert_eq!(
        found,
        Correlation {
            releases: vec![
                release("Unreleased", today(), vec![0]),
                release("v2", day(4), vec![1, 2]),
            ],
            worklist: vec![item(5), item(4), item(3)],
        }
    );
}

#[test]
fn all_releases_are_read_when_asked_for() {
    let (commits, tags) = history();
    let found = correlate(&commits, &tags, "rc", 0, true, false, today());
    assert_eq!(
        found,
        Correlation {
            releases: vec![
                release("Unreleased", today(), vec![0]),
                release("v2", day(4), vec![1, 2]),
                release("v1", day(2), vec![3, 4]),
            ],
            worklist: vec![item(5), item(4), item(3), item(2), item(1)],
        }
    );
}

#[test]
fn limit_of_zero_stops_at_the_first_tag_after_the_first_commit() {
    let (commits, tags) = history();
    let found = correlate(&commits, &tags, "rc", 0, false, false, today());
    assert_eq!(
        found,
        Correlation {
            releases: vec![release("Unreleased", today(), vec![0])],
            worklist: vec![item(5)],
        }
    );
}

#[test]
fn tag_at_the_first_commit_never_stops_the_scan() {
    let commits = vec![entry(3), entry(2), entry(1)];
    let tags = vec![(oid(3), "v2".to_owned()), (oid(2), "v1".to_owned())];
    let found = correlate(&commits, &tags, "rc", 0, false, false, today());
    assert_eq!(
        found,
        Correlation {
            releases: vec![release("v2", day(3), vec![0])],
            worklist: vec![item(3)],
        }
    );
    let found = correlate(&commits, &tags, "rc", 2, false, false, today());
    assert_eq!(
        found,
        Correlation {
            releases: vec![
                release("v2", day(3), vec![0]),
                release("v1", day(2), vec![1, 2]),
            ],
            worklist: vec![item(3), item(2), item(1)],
        }
    );
}

#[test]
fn unreleased_commits_can_be_left_out() {
    let (commits, tags) = history();
    let found = correlate(&commits, &tags, "rc", 1, false, true, today());
    assert_eq!(
        found,
        Correlation {
            releases: vec![release("v2", day(4), vec![0, 1])],
            worklist: vec![item(4), item(3)],
        }
    );
    let found = correlate(&commits, &tags, "rc", 2, false, true, today());
    assert_eq!(
        found,
        Correlation {
            releases: vec![
                release("v2", day(4), vec![0, 1]),
                release("v1", day(2), vec![2, 3]),
            ],
            worklist: vec![item(4), item(3), item(2), item(1)],
        }
    );
}

#[test]
fn skipped_tag_starts_no_release() {
    let commits = vec![entry(4), entry(3), entry(2), entry(1)];
    let tags = vec![
        (oid(3), "v2-rc1".to_owned()),
        (oid(2), "v1".to_owned()),
    ];
    let found = correlate(&commits, &tags, "rc", 5, false, false, today());
    assert_eq!(
        found,
        Correlation {
            releases: vec![
                release("Unreleased", today(), vec![0, 1]),
                release("v1", day(2), vec![2, 3]),
            ],
            worklist: vec![item(4), item(3), item(2), item(1)],
        }
    );
}

#[test]
fn empty_pattern_skips_every_tag() {
    let (commits, tags) = history();
    let found = correlate(&commits, &tags, "", 1, false, false, today());
    assert_eq!(
        found,
        Correlation {
            releases: vec![release("Unreleased", today(), vec![0, 1, 2, 3, 4])],
            worklist: vec![item(5), item(4), item(3), item(2), item(1)],
        }
    );
}

#[test]
fn two_tags_at_one_commit() {
    let commits = vec![entry(3), entry(2), entry(1)];
    let tags = vec![
        (oid(2), "v1".to_owned()),
        (oid(2), "v1.0".to_owned()),
    ];
    let found = correlate(&commits, &tags, "rc", 1, true, false, today());
    assert_eq!(
        found,
        Correlation {
            releases: vec![
                release("Unreleased", today(), vec![0]),
                release("v1.0", day(2), vec![1, 2]),
            ],
            worklist: vec![item(3), item(2), item(1)],
        }
    );
    let found = correlate(&commits, &tags, "rc", 1, false, false, today());
    assert_eq!(
        found,
        Correlation {
            releases: vec![release("Unreleased", today(), vec![0])],
            worklist: vec![item(3)],
        }
    );
}

#[test]
fn no_commits_no_releases() {
    let found = correlate(&vec![], &vec![], "rc", 1, false, false, today());
    assert_eq!(
        found,
        Correlation {
            releases: vec![],
            worklist: vec![],
        }
    );
}

#[test]
fn every_place_of_the_worklist_is_recorded_once() {
    let mut commits = vec![];
    let mut tags = vec![];
    for n in 1..=40u8 {
        commits.push(entry(n));
        if n % 7 == 0 {
            tags.push((oid(n), format!("v{}", n)));
        }
        if n % 10 == 0 {
            tags.push((oid(n), format!("rc{}", n)));
        }
    }
    for skip_unreleased in [false, true] {
        for max_tags in [0u32, 1, 3, 100] {
            for all in [false, true] {
                let found = correlate(&commits, &tags, "rc", max_tags, all, skip_unreleased, today());
                let mut ids = vec![];
                for release in &found.releases {
                    assert!(!release.message_ids.is_empty());
                    ids.extend(release.message_ids.clone());
                }
                let expected: Vec<usize> = (0..found.worklist.len()).collect();
                assert_eq!(ids, expected);
                let mut last = 0u8;
                for work in &found.worklist {
                    assert!(work.oid.bytes[0] > last);
                    last = work.oid.bytes[0];
                    assert_eq!(work.message, format!("Added commit {}", last));
                }
                let tagged = found
                    .releases
                    .iter()
                    .filter(|r| r.name != "Unreleased")
                    .count();
                if !all {
                    assert!(tagged <= max_tags as usize);
                }
            }
        }
    }
}

#[test]
fn scan_reads_commit_by_commit() {
    let (commits, tags) = history();
    let mut scan = Scan::new(&tags, "rc", 1, false, false, today());
    assert!(!scan.is_halted());
    assert_eq!(scan.queued(), 0);
    assert!(scan.read(&commits[0]));
    assert_eq!(scan.queued(), 1);
    assert!(scan.read(&commits[1]));
    assert!(scan.read(&commits[2]));
    assert_eq!(scan.queued(), 3);
    assert!(!scan.is_halted());
    assert!(!scan.read(&commits[3]));
    assert!(scan.is_halted());
    assert_eq!(scan.queued(), 3);
    // a scan that has ended takes no more commits
    assert!(!scan.read(&commits[4]));
    assert!(!scan.read(&commits[0]));
    assert_eq!(scan.queued(), 3);
    assert_eq!(
        scan.finish(),
        correlate(&commits, &tags, "rc", 1, false, false, today())
    );
}

#[test]
fn scan_step_by_step_is_the_whole_scan() {
    let mut commits = vec![];
    let mut tags = vec![];
    for n in 1..=30u8 {
        commits.push(entry(n));
        if n % 4 == 0 {
            tags.push((oid(n), format!("v{}", n)));
        }
        if n % 6 == 0 {
            tags.push((oid(n), format!("rc{}", n)));
        }
    }
    for skip_unreleased in [false, true] {
        for max_tags in [0u32, 2, 100] {
            for all in [false, true] {
                let mut scan = Scan::new(&tags, "rc", max_tags, all, skip_unreleased, today());
                let mut read = 0;
                for commit in &commits {
                    read += 1;
                    if !scan.read(commit) {
                        break;
                    }
                }
                let whole = correlate(&commits, &tags, "rc", max_tags, all, skip_unreleased, today());
                assert_eq!(scan.finish(), whole);
                // what follows the commit at which the scan ends is not read
                let mut changed = commits[..read].to_vec();
                if let Some(last) = changed.last_mut() {
                    if read < commits.len() || (!all && max_tags < 7) {
                        last.message = "another message".to_owned();
                    }
                }
                if read < commits.len() {
                    changed.push(LogEntry {
                        id: oid(99),
                        message: "never read".to_owned(),
                        date: day(1),
                    });
                    assert_eq!(
                        correlate(&changed, &tags, "rc", max_tags, all, skip_unreleased, today()),
                        whole
                    );
                }
                if !all {
                    assert!(whole.releases.len() <= max_tags as usize + 1);
                }
            }
        }
    }
}

#[test]
fn tags_are_copied() {
    let (_, tags) = history();
    assert_eq!(copy_tags(&tags), tags);
    assert_eq!(copy_tags(&vec![]), vec![]);
}
