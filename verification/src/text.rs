//! Character sequences: conversion from and to strings, character classes,
//! trimming and splitting.
use vstd::prelude::*;

verus! {

/// The classes of characters that the commit message grammar distinguishes.
#[derive(Clone, Copy, Debug, PartialEq, Eq)]
pub enum CharClass {
    /// A space or a tab.
    Blank,
    /// An ASCII letter.
    Alpha,
    /// An ASCII decimal digit.
    Digit,
    /// A character with the Unicode property `White_Space`.
    Space,
}

/// Whether `c` has the Unicode property `White_Space`, as `char::is_whitespace` tells it.
pub uninterp spec fn is_white_space(c: char) -> bool;

pub open spec fn is_blank(c: char) -> bool {
    c == ' ' || c == '\t'
}

pub open spec fn is_alpha(c: char) -> bool {
    ('a' <= c && c <= 'z') || ('A' <= c && c <= 'Z')
}

pub open spec fn is_digit(c: char) -> bool {
    '0' <= c && c <= '9'
}

pub open spec fn in_class(class: CharClass, c: char) -> bool {
    match class {
        CharClass::Blank => is_blank(c),
        CharClass::Alpha => is_alpha(c),
        CharClass::Digit => is_digit(c),
        CharClass::Space => is_white_space(c),
    }
}

/// The first index at or after `i` whose character is not in `class`, or the
/// length of `s` when every character from `i` on is.
pub open spec fn run_end(s: Seq<char>, i: int, class: CharClass) -> int
    decreases s.len() - i,
{
    if 0 <= i < s.len() && in_class(class, s[i]) {
        run_end(s, i + 1, class)
    } else {
        i
    }
}

/// The least index `k <= j` such that every character in `k..j` is in `class`.
pub open spec fn run_start(s: Seq<char>, j: int, class: CharClass) -> int
    decreases j,
{
    if 0 < j <= s.len() && in_class(class, s[j - 1]) {
        run_start(s, j - 1, class)
    } else {
        j
    }
}

/// `s` without its leading and trailing white space.
pub open spec fn trimmed(s: Seq<char>) -> Seq<char> {
    let a = run_end(s, 0, CharClass::Space);
    let b = run_start(s, s.len() as int, CharClass::Space);
    if a < b {
        s.subrange(a, b)
    } else {
        Seq::empty()
    }
}

/// Whether `pattern` stands in `s` at index `i`.
pub open spec fn occurs_at(s: Seq<char>, i: int, pattern: Seq<char>) -> bool {
    0 <= i && i + pattern.len() <= s.len() && s.subrange(i, i + pattern.len()) == pattern
}

/// Whether `pattern` stands somewhere in `s`.
pub open spec fn contains_seq(s: Seq<char>, pattern: Seq<char>) -> bool {
    exists|i: int| occurs_at(s, i, pattern)
}

/// The first index at or after `i` that holds `c`, or the length of `s`.
pub open spec fn next_char(s: Seq<char>, i: int, c: char) -> int
    decreases s.len() - i,
{
    if 0 <= i < s.len() && s[i] != c {
        next_char(s, i + 1, c)
    } else {
        i
    }
}

/// The pieces of `s` between the occurrences of `c`, from index `start` on.
/// There is always at least one piece.
pub open spec fn split_from(s: Seq<char>, start: int, c: char) -> Seq<Seq<char>>
    decreases s.len() - start,
{
    let b = next_char(s, start, c);
    if 0 <= start <= b < s.len() {
        seq![s.subrange(start, b)] + split_from(s, b + 1, c)
    } else if 0 <= start <= s.len() {
        seq![s.subrange(start, s.len() as int)]
    } else {
        seq![Seq::empty()]
    }
}

/// The pieces of `s` between the occurrences of `c`.
pub open spec fn split_on(s: Seq<char>, c: char) -> Seq<Seq<char>> {
    split_from(s, 0, c)
}

/// Whether an empty line ends a block at index `i`: two line feeds in a row.
pub open spec fn is_break(s: Seq<char>, i: int) -> bool {
    0 <= i && i + 1 < s.len() && s[i] == '\n' && s[i + 1] == '\n'
}

/// The first index at or after `i` where a block ends, or the length of `s`.
pub open spec fn next_break(s: Seq<char>, i: int) -> int
    decreases s.len() - i,
{
    if 0 <= i < s.len() && !is_break(s, i) {
        next_break(s, i + 1)
    } else {
        i
    }
}

/// The blocks of `s` from index `start` on: the pieces between pairs of line
/// feeds, taken from left to right.
pub open spec fn blocks_from(s: Seq<char>, start: int) -> Seq<Seq<char>>
    decreases s.len() - start,
{
    let b = next_break(s, start);
    if 0 <= start <= b && is_break(s, b) {
        seq![s.subrange(start, b)] + blocks_from(s, b + 2)
    } else if 0 <= start <= s.len() {
        seq![s.subrange(start, s.len() as int)]
    } else {
        seq![Seq::empty()]
    }
}

/// The blocks of a message. There is always at least one.
pub open spec fn blocks_of(s: Seq<char>) -> Seq<Seq<char>> {
    blocks_from(s, 0)
}

/// `line` without the carriage return that ends it, if one does.
pub open spec fn without_cr(line: Seq<char>) -> Seq<char> {
    if line.len() > 0 && line.last() == '\r' {
        line.drop_last()
    } else {
        line
    }
}

/// The lines of `s` from index `start` on. A line ends with a line feed, or
/// with a carriage return and a line feed; neither belongs to the line. What
/// follows the last line feed is a line unless it is empty.
pub open spec fn lines_from(s: Seq<char>, start: int) -> Seq<Seq<char>>
    decreases s.len() - start,
{
    let b = next_char(s, start, '\n');
    if 0 <= start <= b < s.len() {
        seq![without_cr(s.subrange(start, b))] + lines_from(s, b + 1)
    } else if 0 <= start < s.len() {
        seq![s.subrange(start, s.len() as int)]
    } else {
        Seq::empty()
    }
}

/// The lines of `s`.
pub open spec fn lines_of(s: Seq<char>) -> Seq<Seq<char>> {
    lines_from(s, 0)
}

/// The sequences in `parts` with `separator` between each two of them.
pub open spec fn join(parts: Seq<Seq<char>>, separator: Seq<char>) -> Seq<char>
    decreases parts.len(),
{
    if parts.len() == 0 {
        Seq::empty()
    } else if parts.len() == 1 {
        parts[0]
    } else {
        join(parts.drop_last(), separator) + separator + parts.last()
    }
}

/// Whether a block holds no empty line: no two line feeds in a row.
pub open spec fn is_one_block(s: Seq<char>) -> bool {
    forall|i: int| 0 <= i < s.len() ==> !#[trigger] is_break(s, i)
}

/// Whether `parts` can be written as the blocks of a message and read again:
/// there is at least one, none holds an empty line, and none but the last
/// ends with a line feed.
pub open spec fn blocks_wf(parts: Seq<Seq<char>>) -> bool {
    &&& parts.len() > 0
    &&& forall|k: int| 0 <= k < parts.len() ==> is_one_block(#[trigger] parts[k])
    &&& forall|k: int|
        0 <= k < parts.len() - 1 ==> !((#[trigger] parts[k]).len() > 0 && parts[k].last() == '\n')
}

/// Where the next block ends: at the first place where two line feeds stand.
pub proof fn lemma_next_break(s: Seq<char>, i: int, j: int)
    requires
        0 <= i <= j <= s.len(),
        forall|k: int| i <= k < j ==> !#[trigger] is_break(s, k),
        j < s.len() ==> is_break(s, j),
    ensures
        next_break(s, i) == j,
    decreases j - i,
{
    if i < j {
        lemma_next_break(s, i + 1, j);
    }
}

/// The end of the next block of what follows a text is found as if the text
/// were not there.
pub proof fn lemma_next_break_after(a: Seq<char>, b: Seq<char>, i: int)
    requires
        0 <= i <= b.len(),
    ensures
        next_break(a + b, a.len() + i) == a.len() + next_break(b, i),
    decreases b.len() - i,
{
    let s = a + b;
    if i < b.len() {
        assert(s[a.len() + i] == b[i]);
        if i + 1 < b.len() {
            assert(s[a.len() + i + 1] == b[i + 1]);
        }
        assert(is_break(s, a.len() + i) == is_break(b, i));
        if !is_break(b, i) {
            lemma_next_break_after(a, b, i + 1);
        }
    }
}

/// The blocks of what follows a text are found as if the text were not there.
pub proof fn lemma_blocks_after(a: Seq<char>, b: Seq<char>, i: int)
    requires
        0 <= i <= b.len(),
    ensures
        blocks_from(a + b, a.len() + i) == blocks_from(b, i),
    decreases b.len() - i,
{
    let s = a + b;
    lemma_next_break_after(a, b, i);
    let e = next_break(b, i);
    lemma_next_break_bounds(b, i);
    if e < b.len() {
        assert(s[a.len() + e] == b[e]);
        assert(s[a.len() + e + 1] == b[e + 1]);
        assert(is_break(s, a.len() + e));
        lemma_blocks_after(a, b, e + 2);
        assert(s.subrange(a.len() + i, a.len() + e) =~= b.subrange(i, e));
    } else {
        assert(s.subrange(a.len() + i, s.len() as int) =~= b.subrange(i, b.len() as int));
    }
}

/// The end of the next block lies between the start and the end of the text,
/// and two line feeds stand there unless it is the end of the text.
pub proof fn lemma_next_break_bounds(s: Seq<char>, i: int)
    requires
        0 <= i <= s.len(),
    ensures
        i <= next_break(s, i) <= s.len(),
        next_break(s, i) < s.len() ==> is_break(s, next_break(s, i)),
    decreases s.len() - i,
{
    if i < s.len() && !is_break(s, i) {
        lemma_next_break_bounds(s, i + 1);
    }
}

/// Strings joined by a separator: the first one, the separator, and the rest
/// joined.
pub proof fn lemma_join_first(parts: Seq<Seq<char>>, separator: Seq<char>)
    requires
        parts.len() >= 2,
    ensures
        join(parts, separator) == parts[0] + separator + join(parts.drop_first(), separator),
    decreases parts.len(),
{
    let rest = parts.drop_first();
    if parts.len() == 2 {
        assert(parts.drop_last().len() == 1);
        assert(join(parts.drop_last(), separator) == parts[0]);
        assert(rest.len() == 1);
        assert(join(rest, separator) == parts[1]);
    } else {
        lemma_join_first(parts.drop_last(), separator);
        assert(parts.drop_last().drop_first() =~= rest.drop_last());
        assert(parts.drop_last()[0] == parts[0]);
        assert(rest.last() == parts.last());
        assert(join(parts, separator) =~= parts[0] + separator + join(rest, separator));
    }
}

/// Blocks that are written with an empty line between each two of them are
/// read as they were written.
pub proof fn lemma_blocks_round_trip(parts: Seq<Seq<char>>)
    requires
        blocks_wf(parts),
    ensures
        blocks_of(join(parts, seq!['\n', '\n'])) == parts,
    decreases parts.len(),
{
    let separator = seq!['\n', '\n'];
    let message = join(parts, separator);
    if parts.len() == 1 {
        assert(message == parts[0]);
        lemma_next_break(message, 0, message.len() as int);
        assert(message.subrange(0, message.len() as int) =~= message);
        assert(blocks_of(message) =~= parts);
    } else {
        let first = parts[0];
        let rest = parts.drop_first();
        let n = first.len() as int;
        lemma_join_first(parts, separator);
        let tail = join(rest, separator);
        assert(message == first + separator + tail);
        assert(message[n] == '\n' && message[n + 1] == '\n');
        assert forall|k: int| 0 <= k < n implies !#[trigger] is_break(message, k) by {
            assert(message[k] == first[k]);
            if k + 1 < n {
                assert(message[k + 1] == first[k + 1]);
                assert(!is_break(first, k));
            } else {
                assert(first.last() == first[k]);
            }
        }
        lemma_next_break(message, 0, n);
        assert(blocks_wf(rest)) by {
            assert forall|k: int| 0 <= k < rest.len() implies is_one_block(#[trigger] rest[k]) by {
                assert(rest[k] == parts[k + 1]);
            }
            assert forall|k: int| 0 <= k < rest.len() - 1 implies !((#[trigger] rest[k]).len() > 0
                && rest[k].last() == '\n') by {
                assert(rest[k] == parts[k + 1]);
            }
        }
        lemma_blocks_round_trip(rest);
        lemma_blocks_after(first + separator, tail, 0);
        assert(message.subrange(0, n) =~= first);
        assert(blocks_of(message) =~= seq![first] + rest);
        assert(seq![first] + rest =~= parts);
    }
}

/// Lexicographic order by code point: the order of strings.
pub open spec fn lex_less(a: Seq<char>, b: Seq<char>) -> bool
    decreases a.len(),
{
    if b.len() == 0 {
        false
    } else if a.len() == 0 {
        true
    } else if a[0] != b[0] {
        a[0] < b[0]
    } else {
        lex_less(a.drop_first(), b.drop_first())
    }
}

/// Calls `char::is_whitespace`, which tells whether a character has the
/// Unicode property `White_Space`.
#[verifier::external_body]
pub(crate) fn char_is_whitespace(c: char) -> (b: bool)
    ensures
        b == is_white_space(c),
{
    c.is_whitespace()
}

/// Calls `String::push`, which appends one character to the string.
#[verifier::external_body]
pub(crate) fn push_char(s: &mut String, c: char)
    ensures
        final(s)@ == old(s)@.push(c),
{
    s.push(c)
}

/// The characters of a string.
pub fn to_chars(s: &str) -> (v: Vec<char>)
    ensures
        v@ == s@,
{
    let mut v: Vec<char> = Vec::new();
    for c in it: s.chars()
        invariant
            it.seq() == s@,
            v@ == it.seq().take(it.index() as int),
    {
        v.push(c);
    }
    assert(v@ =~= s@);
    v
}

/// The string made of the characters `from..to` of `v`.
pub fn string_of(v: &Vec<char>, from: usize, to: usize) -> (s: String)
    requires
        from <= to <= v.len(),
    ensures
        s@ == v@.subrange(from as int, to as int),
{
    let mut s = String::new();
    let mut i: usize = from;
    while i < to
        invariant
            from <= i <= to <= v.len(),
            s@ == v@.subrange(from as int, i as int),
        decreases to - i,
    {
        push_char(&mut s, v[i]);
        assert(v@.subrange(from as int, i as int).push(v@[i as int]) =~= v@.subrange(
            from as int,
            i + 1,
        ));
        i += 1;
    }
    s
}

/// The string made of the characters of `v`.
pub fn from_chars(v: &Vec<char>) -> (s: String)
    ensures
        s@ == v@,
{
    let s = string_of(v, 0, v.len());
    assert(v@.subrange(0, v.len() as int) =~= v@);
    s
}

/// The characters `from..to` of `v`.
pub fn slice_of(v: &Vec<char>, from: usize, to: usize) -> (r: Vec<char>)
    requires
        from <= to <= v.len(),
    ensures
        r@ == v@.subrange(from as int, to as int),
{
    let mut r: Vec<char> = Vec::new();
    let mut i: usize = from;
    while i < to
        invariant
            from <= i <= to <= v.len(),
            r@ == v@.subrange(from as int, i as int),
        decreases to - i,
    {
        r.push(v[i]);
        assert(v@.subrange(from as int, i as int).push(v@[i as int]) =~= v@.subrange(
            from as int,
            i + 1,
        ));
        i += 1;
    }
    r
}

/// Appends the characters of `s` to `v`.
pub fn append_str(v: &mut Vec<char>, s: &str)
    ensures
        final(v)@ == old(v)@ + s@,
{
    let ghost before = v@;
    for c in it: s.chars()
        invariant
            it.seq() == s@,
            v@ == before + it.seq().take(it.index() as int),
    {
        v.push(c);
        assert(before + s@.take(it.index() as int + 1) =~= (before + s@.take(
            it.index() as int,
        )).push(c));
    }
    assert(s@.take(s@.len() as int) =~= s@);
}

/// Whether `c` belongs to `class`.
pub fn char_in_class(class: CharClass, c: char) -> (b: bool)
    ensures
        b == in_class(class, c),
{
    match class {
        CharClass::Blank => c == ' ' || c == '\t',
        CharClass::Alpha => (c >= 'a' && c <= 'z') || (c >= 'A' && c <= 'Z'),
        CharClass::Digit => c >= '0' && c <= '9',
        CharClass::Space => char_is_whitespace(c),
    }
}

/// The end of the run of characters of `class` that starts at `i`.
pub fn skip_class(v: &Vec<char>, i: usize, class: CharClass) -> (r: usize)
    requires
        i <= v.len(),
    ensures
        r == run_end(v@, i as int, class),
        i <= r <= v.len(),
{
    let mut k: usize = i;
    while k < v.len() && char_in_class(class, v[k])
        invariant
            i <= k <= v.len(),
            run_end(v@, i as int, class) == run_end(v@, k as int, class),
        decreases v.len() - k,
    {
        k += 1;
    }
    k
}

/// The start of the run of characters of `class` that ends before `j`.
pub fn skip_class_back(v: &Vec<char>, j: usize, class: CharClass) -> (r: usize)
    requires
        j <= v.len(),
    ensures
        r == run_start(v@, j as int, class),
        r <= j,
{
    let mut k: usize = j;
    while k > 0 && char_in_class(class, v[k - 1])
        invariant
            k <= j <= v.len(),
            run_start(v@, j as int, class) == run_start(v@, k as int, class),
        decreases k,
    {
        k -= 1;
    }
    k
}

/// `v` without its leading and trailing white space.
pub fn trim(v: &Vec<char>) -> (r: Vec<char>)
    ensures
        r@ == trimmed(v@),
{
    let a = skip_class(v, 0, CharClass::Space);
    let b = skip_class_back(v, v.len(), CharClass::Space);
    if a < b {
        slice_of(v, a, b)
    } else {
        Vec::new()
    }
}

/// What `deep_view` makes of a vector that one element was pushed to.
pub proof fn lemma_deep_view_push<T: DeepView>(before: Vec<T>, after: Vec<T>, x: T)
    requires
        after@ == before@.push(x),
    ensures
        after.deep_view() == before.deep_view().push(x.deep_view()),
{
    assert(after.deep_view() =~= before.deep_view().push(x.deep_view()));
}

/// The deep view of a vector of characters is its view.
pub proof fn lemma_chars_deep_view(v: Vec<char>)
    ensures
        v.deep_view() == v@,
{
    assert(v.deep_view() =~= v@);
}

/// Whether `pattern` stands in `v` at index `i`.
pub fn has_at(v: &Vec<char>, i: usize, pattern: &Vec<char>) -> (r: bool)
    ensures
        r == occurs_at(v@, i as int, pattern@),
{
    if i > v.len() || pattern.len() > v.len() - i {
        return false;
    }
    let mut k: usize = 0;
    while k < pattern.len()
        invariant
            i + pattern.len() <= v.len(),
            k <= pattern.len(),
            forall|j: int| 0 <= j < k ==> v@[i + j] == pattern@[j],
        decreases pattern.len() - k,
    {
        if v[i + k] != pattern[k] {
            assert(v@.subrange(i as int, i + pattern.len())[k as int] != pattern@[k as int]);
            return false;
        }
        k += 1;
    }
    assert(v@.subrange(i as int, i + pattern.len()) =~= pattern@);
    true
}

/// Whether `pattern` stands somewhere in `v`.
pub fn contains(v: &Vec<char>, pattern: &Vec<char>) -> (r: bool)
    ensures
        r == contains_seq(v@, pattern@),
{
    let mut i: usize = 0;
    while i < v.len()
        invariant
            i <= v.len(),
            forall|j: int| 0 <= j < i ==> !occurs_at(v@, j, pattern@),
        decreases v.len() - i,
    {
        if has_at(v, i, pattern) {
            return true;
        }
        i += 1;
    }
    has_at(v, i, pattern)
}

/// Whether `c` is one of the characters of `v`.
pub fn has_char(v: &Vec<char>, c: char) -> (r: bool)
    ensures
        r == v@.contains(c),
{
    let mut i: usize = 0;
    while i < v.len()
        invariant
            i <= v.len(),
            forall|j: int| 0 <= j < i ==> v@[j] != c,
        decreases v.len() - i,
    {
        if v[i] == c {
            return true;
        }
        i += 1;
    }
    false
}

/// The first index at or after `i` that holds `c`, or the length of `v`.
pub fn find_char(v: &Vec<char>, i: usize, c: char) -> (r: usize)
    requires
        i <= v.len(),
    ensures
        r == next_char(v@, i as int, c),
        i <= r <= v.len(),
{
    let mut k: usize = i;
    while k < v.len() && v[k] != c
        invariant
            i <= k <= v.len(),
            next_char(v@, i as int, c) == next_char(v@, k as int, c),
        decreases v.len() - k,
    {
        k += 1;
    }
    k
}

/// The pieces of `v` between the occurrences of `c`.
pub fn split(v: &Vec<char>, c: char) -> (r: Vec<Vec<char>>)
    ensures
        r.deep_view() == split_on(v@, c),
{
    let mut r: Vec<Vec<char>> = Vec::new();
    let mut start: usize = 0;
    assert(r.deep_view() + split_from(v@, 0, c) =~= split_on(v@, c));
    loop
        invariant_except_break
            start <= v.len(),
            split_on(v@, c) == r.deep_view() + split_from(v@, start as int, c),
        ensures
            r.deep_view() == split_on(v@, c),
        decreases v.len() - start,
    {
        let b = find_char(v, start, c);
        let piece = slice_of(v, start, b);
        let ghost before = r;
        r.push(piece);
        proof {
            lemma_deep_view_push(before, r, piece);
            lemma_chars_deep_view(piece);
        }
        if b < v.len() {
            assert(r.deep_view() + split_from(v@, b + 1, c) =~= before.deep_view() + split_from(
                v@,
                start as int,
                c,
            ));
            start = b + 1;
        } else {
            assert(r.deep_view() =~= before.deep_view() + split_from(v@, start as int, c));
            break;
        }
    }
    r
}

/// The first index at or after `i` where a block of `v` ends, or the length of `v`.
pub fn find_break(v: &Vec<char>, i: usize) -> (r: usize)
    requires
        i <= v.len(),
    ensures
        r == next_break(v@, i as int),
        i <= r <= v.len(),
        r < v.len() ==> is_break(v@, r as int),
{
    let mut k: usize = i;
    while k < v.len() && !(v[k] == '\n' && k + 1 < v.len() && v[k + 1] == '\n')
        invariant
            i <= k <= v.len(),
            next_break(v@, i as int) == next_break(v@, k as int),
        decreases v.len() - k,
    {
        k += 1;
    }
    k
}

/// The blocks of a message.
pub fn blocks(v: &Vec<char>) -> (r: Vec<Vec<char>>)
    ensures
        r.deep_view() == blocks_of(v@),
        r.len() > 0,
{
    let mut r: Vec<Vec<char>> = Vec::new();
    let mut start: usize = 0;
    assert(r.deep_view() + blocks_from(v@, 0) =~= blocks_of(v@));
    loop
        invariant_except_break
            start <= v.len(),
            blocks_of(v@) == r.deep_view() + blocks_from(v@, start as int),
        ensures
            r.deep_view() == blocks_of(v@),
            r.len() > 0,
        decreases v.len() - start,
    {
        let b = find_break(v, start);
        let piece = slice_of(v, start, b);
        let ghost before = r;
        r.push(piece);
        proof {
            lemma_deep_view_push(before, r, piece);
            lemma_chars_deep_view(piece);
        }
        if b < v.len() {
            assert(r.deep_view() + blocks_from(v@, b + 2) =~= before.deep_view() + blocks_from(
                v@,
                start as int,
            ));
            start = b + 2;
        } else {
            assert(r.deep_view() =~= before.deep_view() + blocks_from(v@, start as int));
            break;
        }
    }
    r
}

/// The lines of `v`.
pub fn lines(v: &Vec<char>) -> (r: Vec<Vec<char>>)
    ensures
        r.deep_view() == lines_of(v@),
{
    let mut r: Vec<Vec<char>> = Vec::new();
    let mut start: usize = 0;
    assert(r.deep_view() + lines_from(v@, 0) =~= lines_of(v@));
    while start < v.len()
        invariant
            start <= v.len(),
            lines_of(v@) == r.deep_view() + lines_from(v@, start as int),
        decreases v.len() - start,
    {
        let b = find_char(v, start, '\n');
        let ghost before = r;
        if b < v.len() {
            let end = if b > start && v[b - 1] == '\r' {
                b - 1
            } else {
                b
            };
            let piece = slice_of(v, start, end);
            assert(piece@ =~= without_cr(v@.subrange(start as int, b as int)));
            r.push(piece);
            proof {
                lemma_deep_view_push(before, r, piece);
                lemma_chars_deep_view(piece);
            }
            assert(r.deep_view() + lines_from(v@, b + 1) =~= before.deep_view() + lines_from(
                v@,
                start as int,
            ));
            start = b + 1;
        } else {
            let piece = slice_of(v, start, b);
            r.push(piece);
            proof {
                lemma_deep_view_push(before, r, piece);
                lemma_chars_deep_view(piece);
            }
            assert(r.deep_view() + lines_from(v@, b as int) =~= before.deep_view() + lines_from(
                v@,
                start as int,
            ));
            start = b;
        }
    }
    assert(r.deep_view() + lines_from(v@, start as int) =~= r.deep_view());
    r
}

/// Whether `a` comes before `b` in the order of strings.
pub fn chars_less(a: &Vec<char>, b: &Vec<char>) -> (r: bool)
    ensures
        r == lex_less(a@, b@),
{
    let mut i: usize = 0;
    assert(a@.skip(0) =~= a@ && b@.skip(0) =~= b@);
    while i < a.len() && i < b.len()
        invariant
            i <= a.len(),
            i <= b.len(),
            lex_less(a@, b@) == lex_less(a@.skip(i as int), b@.skip(i as int)),
        decreases a.len() - i,
    {
        let ghost x = a@.skip(i as int);
        let ghost y = b@.skip(i as int);
        assert(x[0] == a@[i as int] && y[0] == b@[i as int]);
        assert(x.drop_first() =~= a@.skip(i + 1));
        assert(y.drop_first() =~= b@.skip(i + 1));
        if a[i] != b[i] {
            return a[i] < b[i];
        }
        i += 1;
    }
    assert(a@.skip(i as int).len() == a.len() - i);
    assert(b@.skip(i as int).len() == b.len() - i);
    i < b.len()
}

/// Whether the string `a` comes before the string `b`.
pub fn str_less(a: &str, b: &str) -> (r: bool)
    ensures
        r == lex_less(a@, b@),
{
    chars_less(&to_chars(a), &to_chars(b))
}

/// Whether two vectors of strings hold the same strings in the same order.
pub fn same_strings(a: &Vec<String>, b: &Vec<String>) -> (r: bool)
    ensures
        r == (a.deep_view() == b.deep_view()),
{
    if a.len() != b.len() {
        assert(a.deep_view().len() != b.deep_view().len());
        return false;
    }
    let mut i: usize = 0;
    while i < a.len()
        invariant
            i <= a.len(),
            a.len() == b.len(),
            forall|j: int| 0 <= j < i ==> a@[j]@ == b@[j]@,
        decreases a.len() - i,
    {
        if a[i] != b[i] {
            assert(a.deep_view()[i as int] != b.deep_view()[i as int]);
            return false;
        }
        i += 1;
    }
    assert(a.deep_view() =~= b.deep_view());
    true
}

/// Whether two strings hold the same characters.
pub fn same_str(a: &str, b: &str) -> (r: bool)
    ensures
        r == (a@ == b@),
{
    a.to_owned() == b.to_owned()
}

/// Whether `value` is one of the strings of `list`.
pub fn has_string(list: &Vec<String>, value: &str) -> (r: bool)
    ensures
        r == list.deep_view().contains(value@),
{
    let mut i: usize = 0;
    while i < list.len()
        invariant
            i <= list.len(),
            forall|j: int| 0 <= j < i ==> list@[j]@ != value@,
        decreases list.len() - i,
    {
        if same_str(list[i].as_str(), value) {
            assert(list.deep_view()[i as int] == value@);
            return true;
        }
        i += 1;
    }
    assert forall|j: int| 0 <= j < list.deep_view().len() implies list.deep_view()[j]
        != value@ by {
        assert(list.deep_view()[j] == list@[j]@);
    }
    false
}

} // verus!
