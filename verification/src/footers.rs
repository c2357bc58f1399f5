//! The footers of the commits of a release, gathered by key.
use crate::config::{Config, ConfigModel};
use crate::document::{CommitModel, FooterElement, FooterModel, ParsedCommit, ParsedTag, TagModel};
use crate::format::{format_short_hex, short_hex};
use crate::order::{sort_strings, sort_unique, sorted_strings, sorted_unique};
use crate::output::{
    glyphs, lemma_wrote_more, lemma_wrote_nothing, paint, unpaint, Color, Output, Piece,
};
use crate::template::{lemma_models, models, Value, ValueModel};
use crate::text::{
    append_str, from_chars, has_string, join, lemma_deep_view_push, same_str, to_chars,
};
use vstd::prelude::*;

verus! {

/// The number of characters after which a line of footer values is broken at
/// the next space.
pub const WRAP_AFTER: usize = 100;

/// The strings among `keys`, in order.
pub open spec fn valid_keys(keys: Seq<ValueModel>) -> Seq<Seq<char>>
    decreases keys.len(),
{
    if keys.len() == 0 {
        Seq::empty()
    } else {
        match keys.last() {
            ValueModel::String(key) => valid_keys(keys.drop_last()).push(key),
            _ => valid_keys(keys.drop_last()),
        }
    }
}

/// The value of a footer as it is printed: with the commit hash where hashes
/// are shown and the commit is known.
pub open spec fn footer_value(f: FooterModel, config: ConfigModel) -> Seq<char> {
    match f.oid {
        Some(id) if config.show_commit_hash => f.value + " ("@ + short_hex(id) + ")"@,
        _ => f.value,
    }
}

/// Whether a footer with the key `key` is gathered: every footer is where no
/// keys are asked for.
pub open spec fn is_taken(key: Seq<char>, keys: Seq<Seq<char>>) -> bool {
    keys.len() == 0 || keys.contains(key)
}

/// The keys and values of the footers among `footers` that are gathered.
pub open spec fn taken_footers(
    footers: Seq<FooterModel>,
    keys: Seq<Seq<char>>,
    config: ConfigModel,
) -> Seq<(Seq<char>, Seq<char>)>
    decreases footers.len(),
{
    if footers.len() == 0 {
        Seq::empty()
    } else if is_taken(footers.last().key, keys) {
        taken_footers(footers.drop_last(), keys, config).push(
            (footers.last().key, footer_value(footers.last(), config)),
        )
    } else {
        taken_footers(footers.drop_last(), keys, config)
    }
}

/// The keys and values of the footers of `commits` that are gathered, in the
/// order of the commits.
pub open spec fn gathered_footers(
    commits: Seq<CommitModel>,
    keys: Seq<Seq<char>>,
    config: ConfigModel,
) -> Seq<(Seq<char>, Seq<char>)>
    decreases commits.len(),
{
    if commits.len() == 0 {
        Seq::empty()
    } else {
        gathered_footers(commits.drop_last(), keys, config) + taken_footers(
            commits.last().footer,
            keys,
            config,
        )
    }
}

/// The keys of `entries`, in order.
pub open spec fn keys_of(entries: Seq<(Seq<char>, Seq<char>)>) -> Seq<Seq<char>>
    decreases entries.len(),
{
    if entries.len() == 0 {
        Seq::empty()
    } else {
        keys_of(entries.drop_last()).push(entries.last().0)
    }
}

/// The values that `entries` have for `key`, in order.
pub open spec fn values_for(entries: Seq<(Seq<char>, Seq<char>)>, key: Seq<char>) -> Seq<Seq<char>>
    decreases entries.len(),
{
    if entries.len() == 0 {
        Seq::empty()
    } else if entries.last().0 == key {
        values_for(entries.drop_last(), key).push(entries.last().1)
    } else {
        values_for(entries.drop_last(), key)
    }
}

/// `s` from index `i` on, broken into lines: a space that follows more than
/// [`WRAP_AFTER`] characters of a line becomes a line feed. `count` is the
/// number of characters of the line so far.
pub open spec fn wrapped_from(s: Seq<char>, i: int, count: int) -> Seq<char>
    decreases s.len() - i,
{
    if 0 <= i < s.len() {
        if count > WRAP_AFTER && s[i] == ' ' {
            seq!['\n'] + wrapped_from(s, i + 1, 0)
        } else {
            seq![s[i]] + wrapped_from(s, i + 1, count + 1)
        }
    } else {
        Seq::empty()
    }
}

/// `s` broken into lines.
pub open spec fn wrapped(s: Seq<char>) -> Seq<char> {
    wrapped_from(s, 0, 0)
}

/// What printing the footers of one key writes: the key, and below it the
/// values in order, parted by commas.
pub open spec fn group_rendering(
    key: Seq<char>,
    values: Seq<Seq<char>>,
    config: ConfigModel,
    term: bool,
) -> Seq<Piece> {
    paint(config.colored_output && term, Color::BrightRed) + glyphs("\n"@) + glyphs(key) + glyphs(
        ":\n"@,
    ) + unpaint(term) + glyphs(wrapped(join(values, ", "@))) + glyphs("\n"@)
}

/// What printing the footers of the keys `keys` writes.
pub open spec fn groups_rendering(
    keys: Seq<Seq<char>>,
    entries: Seq<(Seq<char>, Seq<char>)>,
    config: ConfigModel,
    term: bool,
) -> Seq<Piece>
    decreases keys.len(),
{
    if keys.len() == 0 {
        Seq::empty()
    } else {
        groups_rendering(keys.drop_last(), entries, config, term) + group_rendering(
            keys.last(),
            sorted_strings(values_for(entries, keys.last())),
            config,
            term,
        )
    }
}

/// The keys that a section asks for, as strings.
pub open spec fn asked_keys(footer_keys: Option<Seq<ValueModel>>) -> Seq<Seq<char>> {
    match footer_keys {
        Some(keys) => valid_keys(keys),
        None => Seq::empty(),
    }
}

/// What printing the footers of a release writes: for each key among those
/// asked for, or for each key at all where none is asked for, the values that
/// the commits have for it. The keys come in order, and so do the values of
/// each key.
pub open spec fn footers_rendering(
    release: TagModel,
    footer_keys: Option<Seq<ValueModel>>,
    config: ConfigModel,
    term: bool,
) -> Seq<Piece> {
    let entries = gathered_footers(release.commits, asked_keys(footer_keys), config);
    groups_rendering(sorted_unique(keys_of(entries)), entries, config, term)
}

/// The strings among `keys`, in order.
pub fn string_values(keys: &Vec<Value>) -> (r: Vec<String>)
    ensures
        r.deep_view() == valid_keys(models(keys@)),
{
    let ghost all = models(keys@);
    let mut r: Vec<String> = Vec::new();
    let mut i: usize = 0;
    proof {
        lemma_models(keys@);
        assert(all.take(0) =~= Seq::empty());
        assert(r.deep_view() =~= Seq::empty());
    }
    while i < keys.len()
        invariant
            i <= keys.len(),
            all == models(keys@),
            all.len() == keys.len(),
            forall|k: int| 0 <= k < keys.len() ==> (#[trigger] all[k]) == keys@[k].model(),
            r.deep_view() == valid_keys(all.take(i as int)),
        decreases keys.len() - i,
    {
        proof {
            assert(all.take(i + 1).drop_last() =~= all.take(i as int));
            assert(all.take(i + 1).last() == keys@[i as int].model());
        }
        match &keys[i] {
            Value::String(key) => {
                let copy = key.clone();
                let ghost before = r;
                r.push(copy);
                proof {
                    lemma_deep_view_push(before, r, copy);
                }
            },
            _ => {
                assert(!(keys@[i as int].model() is String));
            },
        }
        i += 1;
    }
    assert(all.take(i as int) =~= all);
    r
}

/// The value of a footer as it is printed.
pub fn footer_text(f: &FooterElement, config: &Config) -> (r: String)
    ensures
        r@ == footer_value(f.deep_view(), config.deep_view()),
{
    match f.oid {
        Some(id) => {
            if config.show_commit_hash {
                let mut chars = to_chars(f.value.as_str());
                append_str(&mut chars, " (");
                let mut hex = format_short_hex(&id);
                chars.append(&mut hex);
                append_str(&mut chars, ")");
                assert(chars@ =~= f.value@ + " ("@ + short_hex(id) + ")"@);
                from_chars(&chars)
            } else {
                f.value.clone()
            }
        },
        None => f.value.clone(),
    }
}

/// Appends to `entries` the keys and values of the footers among `footers`
/// that are gathered.
pub fn take_footers(
    entries: &mut Vec<(String, String)>,
    footers: &Vec<FooterElement>,
    keys: &Vec<String>,
    config: &Config,
)
    ensures
        final(entries).deep_view() == old(entries).deep_view() + taken_footers(
            footers.deep_view(),
            keys.deep_view(),
            config.deep_view(),
        ),
{
    let ghost start = entries.deep_view();
    let ghost all = footers.deep_view();
    let mut i: usize = 0;
    proof {
        assert(all.take(0) =~= Seq::empty());
        assert(start + taken_footers(all.take(0), keys.deep_view(), config.deep_view()) =~= start);
    }
    while i < footers.len()
        invariant
            i <= footers.len(),
            all == footers.deep_view(),
            entries.deep_view() == start + taken_footers(
                all.take(i as int),
                keys.deep_view(),
                config.deep_view(),
            ),
        decreases footers.len() - i,
    {
        proof {
            assert(all.take(i + 1).drop_last() =~= all.take(i as int));
            assert(all.take(i + 1).last() == footers@[i as int].deep_view());
            assert(keys.deep_view().len() == keys.len());
        }
        if keys.len() == 0 || has_string(keys, footers[i].key.as_str()) {
            let entry = (footers[i].key.clone(), footer_text(&footers[i], config));
            let ghost before = *entries;
            entries.push(entry);
            proof {
                lemma_deep_view_push(before, *entries, entry);
                assert(entries.deep_view() =~= start + taken_footers(
                    all.take(i + 1),
                    keys.deep_view(),
                    config.deep_view(),
                ));
            }
        }
        i += 1;
    }
    assert(all.take(i as int) =~= all);
}

/// The keys and values of the footers of `commits` that are gathered.
pub fn gather_footers(commits: &Vec<ParsedCommit>, keys: &Vec<String>, config: &Config) -> (r: Vec<
    (String, String),
>)
    ensures
        r.deep_view() == gathered_footers(
            commits.deep_view(),
            keys.deep_view(),
            config.deep_view(),
        ),
{
    let ghost all = commits.deep_view();
    let mut r: Vec<(String, String)> = Vec::new();
    let mut i: usize = 0;
    proof {
        assert(all.take(0) =~= Seq::empty());
        assert(r.deep_view() =~= Seq::empty());
    }
    while i < commits.len()
        invariant
            i <= commits.len(),
            all == commits.deep_view(),
            r.deep_view() == gathered_footers(
                all.take(i as int),
                keys.deep_view(),
                config.deep_view(),
            ),
        decreases commits.len() - i,
    {
        proof {
            assert(all.take(i + 1).drop_last() =~= all.take(i as int));
            assert(all.take(i + 1).last() == commits@[i as int].deep_view());
        }
        take_footers(&mut r, &commits[i].footer, keys, config);
        i += 1;
    }
    assert(all.take(i as int) =~= all);
    r
}

/// The keys of `entries`, in order.
pub fn entry_keys(entries: &Vec<(String, String)>) -> (r: Vec<String>)
    ensures
        r.deep_view() == keys_of(entries.deep_view()),
{
    let ghost all = entries.deep_view();
    let mut r: Vec<String> = Vec::new();
    let mut i: usize = 0;
    proof {
        assert(all.take(0) =~= Seq::empty());
        assert(r.deep_view() =~= Seq::empty());
    }
    while i < entries.len()
        invariant
            i <= entries.len(),
            all == entries.deep_view(),
            r.deep_view() == keys_of(all.take(i as int)),
        decreases entries.len() - i,
    {
        proof {
            assert(all.take(i + 1).drop_last() =~= all.take(i as int));
            assert(all.take(i + 1).last() == entries@[i as int].deep_view());
        }
        let key = entries[i].0.clone();
        let ghost before = r;
        r.push(key);
        proof {
            lemma_deep_view_push(before, r, key);
        }
        i += 1;
    }
    assert(all.take(i as int) =~= all);
    r
}

/// The values that `entries` have for `key`, in order.
pub fn entry_values(entries: &Vec<(String, String)>, key: &str) -> (r: Vec<String>)
    ensures
        r.deep_view() == values_for(entries.deep_view(), key@),
{
    let ghost all = entries.deep_view();
    let mut r: Vec<String> = Vec::new();
    let mut i: usize = 0;
    proof {
        assert(all.take(0) =~= Seq::empty());
        assert(r.deep_view() =~= Seq::empty());
    }
    while i < entries.len()
        invariant
            i <= entries.len(),
            all == entries.deep_view(),
            r.deep_view() == values_for(all.take(i as int), key@),
        decreases entries.len() - i,
    {
        proof {
            assert(all.take(i + 1).drop_last() =~= all.take(i as int));
            assert(all.take(i + 1).last() == entries@[i as int].deep_view());
        }
        if same_str(entries[i].0.as_str(), key) {
            let value = entries[i].1.clone();
            let ghost before = r;
            r.push(value);
            proof {
                lemma_deep_view_push(before, r, value);
            }
        }
        i += 1;
    }
    assert(all.take(i as int) =~= all);
    r
}

/// The strings `parts` with `separator` between each two of them.
pub fn join_strings(parts: &Vec<String>, separator: &str) -> (r: Vec<char>)
    ensures
        r@ == join(parts.deep_view(), separator@),
{
    let ghost all = parts.deep_view();
    let mut r: Vec<char> = Vec::new();
    let mut i: usize = 0;
    assert(all.take(0) =~= Seq::empty());
    while i < parts.len()
        invariant
            i <= parts.len(),
            all == parts.deep_view(),
            r@ == join(all.take(i as int), separator@),
        decreases parts.len() - i,
    {
        proof {
            assert(all.take(i + 1).drop_last() =~= all.take(i as int));
            assert(all.take(i + 1).last() == parts@[i as int]@);
            assert(all.take(i + 1).len() == i + 1);
            if i == 0 {
                assert(all.take(1)[0] == parts@[0]@);
            }
        }
        if i > 0 {
            append_str(&mut r, separator);
        }
        append_str(&mut r, parts[i].as_str());
        proof {
            if i == 0 {
                assert(r@ =~= parts@[0]@);
            }
        }
        i += 1;
    }
    assert(all.take(i as int) =~= all);
    r
}

/// `s` broken into lines.
pub fn wrap(s: &Vec<char>) -> (r: Vec<char>)
    ensures
        r@ == wrapped(s@),
{
    let mut r: Vec<char> = Vec::new();
    let mut count: usize = 0;
    let mut i: usize = 0;
    assert(r@ + wrapped_from(s@, 0, 0) =~= wrapped(s@));
    while i < s.len()
        invariant
            i <= s.len(),
            count <= i,
            wrapped(s@) == r@ + wrapped_from(s@, i as int, count as int),
        decreases s.len() - i,
    {
        let ghost before = r@;
        if count > WRAP_AFTER && s[i] == ' ' {
            r.push('\n');
            assert(r@ + wrapped_from(s@, i + 1, 0) =~= before + wrapped_from(
                s@,
                i as int,
                count as int,
            ));
            count = 0;
        } else {
            r.push(s[i]);
            assert(r@ + wrapped_from(s@, i + 1, count + 1) =~= before + wrapped_from(
                s@,
                i as int,
                count as int,
            ));
            count += 1;
        }
        i += 1;
    }
    assert(r@ + wrapped_from(s@, i as int, count as int) =~= r@);
    r
}

/// Prints the footers of one key.
pub fn print_group(t: &mut Output, key: &str, values: &Vec<String>, config: &Config)
    ensures
        old(t).wrote(
            *final(t),
            group_rendering(key@, values.deep_view(), config.deep_view(), old(t).takes_color()),
        ),
{
    let ghost start = t@;
    let ghost cfg = config.deep_view();
    let ghost term = t.takes_color();
    if config.colored_output {
        t.fg(Color::BrightRed);
    } else {
        proof {
            lemma_wrote_nothing(start);
        }
    }
    let ghost mut added = paint(cfg.colored_output && term, Color::BrightRed);
    t.write_str("\n");
    proof {
        lemma_wrote_more(start, added, glyphs("\n"@));
        added = added + glyphs("\n"@);
    }
    t.write_str(key);
    proof {
        lemma_wrote_more(start, added, glyphs(key@));
        added = added + glyphs(key@);
    }
    t.write_str(":\n");
    proof {
        lemma_wrote_more(start, added, glyphs(":\n"@));
        added = added + glyphs(":\n"@);
    }
    t.reset();
    proof {
        lemma_wrote_more(start, added, unpaint(term));
        added = added + unpaint(term);
    }
    let line = wrap(&join_strings(values, ", "));
    t.write_chars(&line);
    proof {
        lemma_wrote_more(start, added, glyphs(line@));
        added = added + glyphs(line@);
    }
    t.write_str("\n");
    proof {
        lemma_wrote_more(start, added, glyphs("\n"@));
        added = added + glyphs("\n"@);
    }
}

impl ParsedTag {
    /// Prints the footers of the commits of the release, gathered by key.
    /// With `footer_keys`, only the footers of those keys are printed.
    pub fn print_footers(
        &self,
        writer: &mut Output,
        footer_keys: Option<&Vec<Value>>,
        config: &Config,
    )
        ensures
            old(writer).wrote(
                *final(writer),
                footers_rendering(
                    self.deep_view(),
                    match footer_keys {
                        Some(keys) => Some(models(keys@)),
                        None => None,
                    },
                    config.deep_view(),
                    old(writer).takes_color(),
                ),
            ),
    {
        let ghost start = writer@;
        let ghost cfg = config.deep_view();
        let ghost term = writer.takes_color();
        let valid = match footer_keys {
            Some(keys) => string_values(keys),
            None => Vec::new(),
        };
        assert(valid.deep_view() =~= asked_keys(
            match footer_keys {
                Some(keys) => Some(models(keys@)),
                None => None,
            },
        ));
        let entries = gather_footers(&self.commits, &valid, config);
        let keys = sort_unique(&entry_keys(&entries));
        let ghost all = keys.deep_view();
        let mut i: usize = 0;
        proof {
            assert(all.take(0) =~= Seq::empty());
            lemma_wrote_nothing(start);
        }
        while i < keys.len()
            invariant
                i <= keys.len(),
                all == keys.deep_view(),
                cfg == config.deep_view(),
                writer.sink() == old(writer).sink(),
                term == writer.takes_color(),
                old(writer).wf() ==> writer.wf(),
                writer@ == start + groups_rendering(
                    all.take(i as int),
                    entries.deep_view(),
                    cfg,
                    term,
                ),
            decreases keys.len() - i,
        {
            let ghost done = groups_rendering(all.take(i as int), entries.deep_view(), cfg, term);
            proof {
                assert(all.take(i + 1).drop_last() =~= all.take(i as int));
                assert(all.take(i + 1).last() == keys@[i as int]@);
            }
            let values = sort_strings(&entry_values(&entries, keys[i].as_str()));
            proof {
                lemma_wrote_more(
                    start,
                    done,
                    group_rendering(keys@[i as int]@, values.deep_view(), cfg, term),
                );
            }
            print_group(writer, keys[i].as_str(), &values, config);
            i += 1;
        }
        assert(all.take(i as int) =~= all);
    }
}

} // verus!
