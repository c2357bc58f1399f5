//! The order of strings, and sorting by it.
use crate::text::{lex_less, str_less};
use vstd::prelude::*;

verus! {

/// No string comes before itself.
pub proof fn lemma_less_irreflexive(a: Seq<char>)
    ensures
        !lex_less(a, a),
    decreases a.len(),
{
    if a.len() > 0 {
        lemma_less_irreflexive(a.drop_first());
    }
}

/// The order of strings is transitive.
pub proof fn lemma_less_transitive(a: Seq<char>, b: Seq<char>, c: Seq<char>)
    requires
        lex_less(a, b),
        lex_less(b, c),
    ensures
        lex_less(a, c),
    decreases a.len(),
{
    if a.len() > 0 && b.len() > 0 && c.len() > 0 && a[0] == b[0] && b[0] == c[0] {
        lemma_less_transitive(a.drop_first(), b.drop_first(), c.drop_first());
    }
}

/// Of two different strings one comes before the other.
pub proof fn lemma_less_total(a: Seq<char>, b: Seq<char>)
    requires
        !lex_less(a, b),
        !lex_less(b, a),
    ensures
        a == b,
    decreases a.len(),
{
    if a.len() > 0 && b.len() > 0 {
        let x = a.drop_first();
        let y = b.drop_first();
        assert(a[0] == b[0]);
        assert(!lex_less(x, y));
        assert(!lex_less(y, x));
        lemma_less_total(x, y);
        assert(a.len() == b.len());
        assert forall|i: int| 0 <= i < a.len() implies a[i] == b[i] by {
            if i > 0 {
                assert(a[i] == x[i - 1]);
                assert(b[i] == y[i - 1]);
            }
        }
        assert(a =~= b);
    } else {
        assert(a.len() == 0 && b.len() == 0);
        assert(a =~= b);
    }
}

/// Of two strings at most one comes before the other.
pub proof fn lemma_less_asymmetric(a: Seq<char>, b: Seq<char>)
    requires
        lex_less(a, b),
    ensures
        !lex_less(b, a),
{
    if lex_less(b, a) {
        lemma_less_transitive(a, b, a);
        lemma_less_irreflexive(a);
    }
}

/// What comes before a string comes before every string that is not before it.
pub proof fn lemma_less_then_not_after(a: Seq<char>, b: Seq<char>, c: Seq<char>)
    requires
        lex_less(a, b),
        !lex_less(c, b),
    ensures
        lex_less(a, c),
{
    if lex_less(b, c) {
        lemma_less_transitive(a, b, c);
    } else {
        lemma_less_total(b, c);
    }
}

/// Whether no string of `keys` comes before one that stands before it.
pub open spec fn is_sorted(keys: Seq<Seq<char>>) -> bool {
    forall|i: int, j: int| 0 <= i < j < keys.len() ==> !lex_less(#[trigger] keys[j], #[trigger] keys[i])
}

/// Whether each string of `keys` comes before those that stand after it.
pub open spec fn is_strictly_sorted(keys: Seq<Seq<char>>) -> bool {
    forall|i: int, j: int| 0 <= i < j < keys.len() ==> lex_less(#[trigger] keys[i], #[trigger] keys[j])
}

/// The place at which `key` joins `keys`: after the last string that `key`
/// does not come before.
pub open spec fn insert_pos(keys: Seq<Seq<char>>, key: Seq<char>) -> int
    decreases keys.len(),
{
    if keys.len() > 0 && lex_less(key, keys.last()) {
        insert_pos(keys.drop_last(), key)
    } else {
        keys.len() as int
    }
}

/// `s` in order. Strings that are equal keep their places among each other.
pub open spec fn sorted_strings(s: Seq<Seq<char>>) -> Seq<Seq<char>>
    decreases s.len(),
{
    if s.len() == 0 {
        s
    } else {
        let r = sorted_strings(s.drop_last());
        r.insert(insert_pos(r, s.last()), s.last())
    }
}

/// `s` without the strings that equal the one before them.
pub open spec fn without_repeats(s: Seq<Seq<char>>) -> Seq<Seq<char>>
    decreases s.len(),
{
    if s.len() == 0 {
        s
    } else {
        let r = without_repeats(s.drop_last());
        if r.len() > 0 && r.last() == s.last() {
            r
        } else {
            r.push(s.last())
        }
    }
}

/// The strings of `s`, each once, in order.
pub open spec fn sorted_unique(s: Seq<Seq<char>>) -> Seq<Seq<char>> {
    without_repeats(sorted_strings(s))
}

/// Where `key` joins `keys`: `key` comes before every string from that place
/// on, and not before the one just before it.
pub proof fn lemma_insert_pos(keys: Seq<Seq<char>>, key: Seq<char>)
    ensures
        0 <= insert_pos(keys, key) <= keys.len(),
        forall|k: int| insert_pos(keys, key) <= k < keys.len() ==> lex_less(key, #[trigger] keys[k]),
        insert_pos(keys, key) > 0 ==> !lex_less(key, keys[insert_pos(keys, key) - 1]),
    decreases keys.len(),
{
    if keys.len() > 0 && lex_less(key, keys.last()) {
        let t = keys.drop_last();
        lemma_insert_pos(t, key);
        assert forall|k: int| insert_pos(keys, key) <= k < keys.len() implies lex_less(
            key,
            #[trigger] keys[k],
        ) by {
            if k < t.len() {
                assert(keys[k] == t[k]);
            }
        }
        if insert_pos(keys, key) > 0 {
            assert(keys[insert_pos(keys, key) - 1] == t[insert_pos(t, key) - 1]);
        }
    }
}

/// A sorted sequence that a string joins at its place stays sorted.
pub proof fn lemma_insert_keeps_sorted(keys: Seq<Seq<char>>, key: Seq<char>)
    requires
        is_sorted(keys),
    ensures
        is_sorted(keys.insert(insert_pos(keys, key), key)),
{
    let p = insert_pos(keys, key);
    lemma_insert_pos(keys, key);
    let r = keys.insert(p, key);
    assert forall|i: int, j: int| 0 <= i < j < r.len() implies !lex_less(
        #[trigger] r[j],
        #[trigger] r[i],
    ) by {
        if j == p {
            // r[j] is the key, r[i] stands before its place
            assert(r[i] == keys[i]);
            if lex_less(key, keys[i]) {
                if i < p - 1 {
                    assert(!lex_less(keys[p - 1], keys[i]));
                    lemma_less_then_not_after(key, keys[i], keys[p - 1]);
                }
            }
        } else if i == p {
            assert(r[j] == keys[j - 1]);
            lemma_less_asymmetric(key, keys[j - 1]);
        } else if j < p {
            assert(r[i] == keys[i] && r[j] == keys[j]);
        } else if i < p {
            assert(r[i] == keys[i] && r[j] == keys[j - 1]);
        } else {
            assert(r[i] == keys[i - 1] && r[j] == keys[j - 1]);
        }
    }
}

/// Sorting gives a sorted sequence with the same strings, each as often as before.
pub proof fn lemma_sorted_strings(s: Seq<Seq<char>>)
    ensures
        is_sorted(sorted_strings(s)),
        sorted_strings(s).to_multiset() == s.to_multiset(),
        sorted_strings(s).len() == s.len(),
    decreases s.len(),
{
    if s.len() > 0 {
        let r = sorted_strings(s.drop_last());
        lemma_sorted_strings(s.drop_last());
        lemma_insert_pos(r, s.last());
        lemma_insert_keeps_sorted(r, s.last());
        vstd::seq_lib::to_multiset_insert(r, insert_pos(r, s.last()), s.last());
        vstd::seq_lib::to_multiset_build(s.drop_last(), s.last());
        assert(s.drop_last().push(s.last()) =~= s);
    }
}

/// A sorted sequence without its repeats is strictly sorted and has the same
/// strings.
pub proof fn lemma_without_repeats(s: Seq<Seq<char>>)
    requires
        is_sorted(s),
    ensures
        is_strictly_sorted(without_repeats(s)),
        without_repeats(s).to_set() == s.to_set(),
        s.len() > 0 ==> without_repeats(s).len() > 0 && without_repeats(s).last() == s.last(),
    decreases s.len(),
{
    if s.len() > 0 {
        let t = s.drop_last();
        let x = s.last();
        assert(is_sorted(t)) by {
            assert forall|i: int, j: int| 0 <= i < j < t.len() implies !lex_less(
                #[trigger] t[j],
                #[trigger] t[i],
            ) by {
                assert(t[i] == s[i] && t[j] == s[j]);
            }
        }
        lemma_without_repeats(t);
        let r = without_repeats(t);
        let w = without_repeats(s);
        assert(t.push(x) =~= s);
        t.lemma_push_to_set_commute(x);
        if r.len() > 0 && r.last() == x {
            assert(t.to_set().contains(x)) by {
                assert(t.last() == x);
                assert(t.contains(t[t.len() - 1]));
            }
            assert(s.to_set() =~= t.to_set());
        } else {
            r.lemma_push_to_set_commute(x);
            assert forall|i: int, j: int| 0 <= i < j < w.len() implies lex_less(
                #[trigger] w[i],
                #[trigger] w[j],
            ) by {
                if j == r.len() {
                    assert(w[i] == r[i]);
                    // the last of r is the last of t, which is not after x
                    assert(r.last() == t.last());
                    assert(t.last() == s[s.len() - 2]);
                    assert(!lex_less(s[s.len() - 1], s[s.len() - 2]));
                    if !lex_less(r.last(), x) {
                        lemma_less_total(r.last(), x);
                    }
                    if i < r.len() - 1 {
                        assert(lex_less(r[i], r[r.len() - 1]));
                        lemma_less_transitive(r[i], r.last(), x);
                    }
                } else {
                    assert(w[i] == r[i] && w[j] == r[j]);
                }
            }
        }
    } else {
        assert(is_strictly_sorted(without_repeats(s)));
    }
}

/// The strings of a sequence, each once and in order: the result is strictly
/// sorted and has the strings of the sequence, no others.
pub proof fn lemma_sorted_unique(s: Seq<Seq<char>>)
    ensures
        is_strictly_sorted(sorted_unique(s)),
        sorted_unique(s).to_set() == s.to_set(),
{
    lemma_sorted_strings(s);
    lemma_without_repeats(sorted_strings(s));
    let t = sorted_strings(s);
    assert(t.to_set() =~= s.to_set()) by {
        assert forall|x: Seq<char>| t.to_set().contains(x) == s.to_set().contains(x) by {
            vstd::seq_lib::to_multiset_contains(t, x);
            vstd::seq_lib::to_multiset_contains(s, x);
        }
    }
}

/// The place at which `key` joins `keys`.
pub fn find_insert_pos(keys: &Vec<String>, key: &str) -> (r: usize)
    ensures
        r == insert_pos(keys.deep_view(), key@),
        r <= keys.len(),
{
    let mut j: usize = keys.len();
    assert(keys.deep_view().take(j as int) =~= keys.deep_view());
    while j > 0 && str_less(key, keys[j - 1].as_str())
        invariant
            j <= keys.len(),
            insert_pos(keys.deep_view(), key@) == insert_pos(keys.deep_view().take(j as int), key@),
        decreases j,
    {
        assert(keys.deep_view().take(j as int).drop_last() =~= keys.deep_view().take(j - 1));
        assert(keys.deep_view().take(j as int).last() == keys@[j - 1]@);
        j -= 1;
    }
    proof {
        if j > 0 {
            assert(keys.deep_view().take(j as int).last() == keys@[j - 1]@);
        }
    }
    j
}

/// The strings of `v` in order.
pub fn sort_strings(v: &Vec<String>) -> (r: Vec<String>)
    ensures
        r.deep_view() == sorted_strings(v.deep_view()),
{
    let mut r: Vec<String> = Vec::new();
    let mut i: usize = 0;
    assert(v.deep_view().take(0) =~= Seq::empty());
    assert(r.deep_view() =~= Seq::empty());
    while i < v.len()
        invariant
            i <= v.len(),
            r.deep_view() == sorted_strings(v.deep_view().take(i as int)),
        decreases v.len() - i,
    {
        let x = v[i].clone();
        let pos = find_insert_pos(&r, x.as_str());
        let ghost before = r.deep_view();
        r.insert(pos, x);
        proof {
            assert(r.deep_view() =~= before.insert(pos as int, x@));
            assert(v.deep_view().take(i + 1).drop_last() =~= v.deep_view().take(i as int));
            assert(v.deep_view().take(i + 1).last() == x@);
        }
        i += 1;
    }
    assert(v.deep_view().take(i as int) =~= v.deep_view());
    r
}

/// `v` without the strings that equal the one before them.
pub fn drop_repeats(v: &Vec<String>) -> (r: Vec<String>)
    ensures
        r.deep_view() == without_repeats(v.deep_view()),
{
    let mut r: Vec<String> = Vec::new();
    let mut i: usize = 0;
    assert(v.deep_view().take(0) =~= Seq::empty());
    assert(r.deep_view() =~= Seq::empty());
    while i < v.len()
        invariant
            i <= v.len(),
            r.deep_view() == without_repeats(v.deep_view().take(i as int)),
        decreases v.len() - i,
    {
        proof {
            assert(v.deep_view().take(i + 1).drop_last() =~= v.deep_view().take(i as int));
            assert(v.deep_view().take(i + 1).last() == v@[i as int]@);
            if r.len() > 0 {
                assert(r.deep_view().last() == r@[r.len() - 1]@);
            }
        }
        let n = r.len();
        if n > 0 && r[n - 1] == v[i] {
        } else {
            let x = v[i].clone();
            let ghost before = r.deep_view();
            r.push(x);
            assert(r.deep_view() =~= before.push(x@));
        }
        i += 1;
    }
    assert(v.deep_view().take(i as int) =~= v.deep_view());
    r
}

/// The strings of `v`, each once, in order.
pub fn sort_unique(v: &Vec<String>) -> (r: Vec<String>)
    ensures
        r.deep_view() == sorted_unique(v.deep_view()),
        is_strictly_sorted(r.deep_view()),
        r.deep_view().to_set() == v.deep_view().to_set(),
{
    proof {
        lemma_sorted_unique(v.deep_view());
    }
    drop_repeats(&sort_strings(v))
}

} // verus!
