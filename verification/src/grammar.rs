//! The grammar of a summary line and of a list item: an optional prefix, an
//! optional category between optional delimiters, and the text.
//!
//! A line is read from left to right without going back. A part that the end
//! of the line cuts short makes the whole line malformed: blanks that nothing
//! follows, or a delimiter of which only the beginning is there.
use crate::config::{Config, ConfigModel};
use crate::text::{
    has_at, in_class, is_alpha, is_blank, is_digit, lemma_chars_deep_view, lemma_deep_view_push,
    occurs_at, run_end, skip_class, to_chars, CharClass,
};
use vstd::prelude::*;

verus! {

/// The categories and the delimiters of a configuration, as characters.
pub struct CategoryGrammar {
    pub categories: Vec<Vec<char>>,
    pub opening: Vec<char>,
    pub closing: Vec<char>,
}

/// What a [`CategoryGrammar`] holds, as mathematical values.
pub struct GrammarModel {
    pub categories: Seq<Seq<char>>,
    pub opening: Seq<char>,
    pub closing: Seq<char>,
}

impl DeepView for CategoryGrammar {
    type V = GrammarModel;

    open spec fn deep_view(&self) -> GrammarModel {
        GrammarModel {
            categories: self.categories.deep_view(),
            opening: self.opening@,
            closing: self.closing@,
        }
    }
}

/// The grammar that a valid configuration defines.
pub open spec fn grammar_of(config: ConfigModel) -> GrammarModel {
    GrammarModel {
        categories: config.categories,
        opening: config.opening(),
        closing: config.closing(),
    }
}

/// The index after the blanks that start at `i`, or `None` where the blanks
/// run to the end of the line.
pub open spec fn after_blanks(s: Seq<char>, i: int) -> Option<int> {
    let e = run_end(s, i, CharClass::Blank);
    if e >= s.len() {
        None
    } else {
        Some(e)
    }
}

/// Whether the end of the line cuts `d` short at `i`: what is left of the line
/// is the beginning of `d`, and not all of it.
pub open spec fn is_cut_off(s: Seq<char>, i: int, d: Seq<char>) -> bool {
    0 <= i <= s.len() && s.len() - i < d.len() && s.subrange(i, s.len() as int) == d.take(
        s.len() - i,
    )
}

/// The index after the optional delimiter `d` at `i`: after `d` where it
/// stands there, `i` where it does not, `None` where it is cut short.
pub open spec fn after_delimiter(s: Seq<char>, i: int, d: Seq<char>) -> Option<int> {
    if occurs_at(s, i, d) {
        Some(i + d.len())
    } else if is_cut_off(s, i, d) {
        None
    } else {
        Some(i)
    }
}

/// The index of the first category from `from` on that stands in `s` at `i`,
/// or the number of categories where none does.
pub open spec fn category_index(categories: Seq<Seq<char>>, s: Seq<char>, i: int, from: int) -> int
    decreases categories.len() - from,
{
    if 0 <= from < categories.len() && !occurs_at(s, i, categories[from]) {
        category_index(categories, s, i, from + 1)
    } else {
        from
    }
}

/// What reading an optional category gives.
pub enum CategoryStep {
    /// A delimiter is cut short.
    Malformed,
    /// No category stands there.
    Absent,
    /// The category with this index stands there, and this index follows it
    /// and its delimiters.
    Found(int, int),
}

/// Reads at `i` an optional opening delimiter, a category and an optional
/// closing delimiter.
pub open spec fn category_at(g: GrammarModel, s: Seq<char>, i: int) -> CategoryStep {
    match after_delimiter(s, i, g.opening) {
        None => CategoryStep::Malformed,
        Some(j) => {
            let k = category_index(g.categories, s, j, 0);
            if k >= g.categories.len() {
                CategoryStep::Absent
            } else {
                match after_delimiter(s, j + g.categories[k].len(), g.closing) {
                    None => CategoryStep::Malformed,
                    Some(e) => CategoryStep::Found(k, e),
                }
            }
        },
    }
}

/// The index after the optional prefix of a summary: letters, a hyphen and
/// digits. It is 0 where the line has no prefix, and `None` where the line
/// ends within what could be one.
pub open spec fn after_prefix(s: Seq<char>) -> Option<int> {
    let a = run_end(s, 0, CharClass::Alpha);
    if a >= s.len() {
        None
    } else if a == 0 || s[a] != '-' {
        Some(0)
    } else {
        let d = run_end(s, a + 1, CharClass::Digit);
        if d >= s.len() {
            None
        } else if d == a + 1 {
            Some(0)
        } else {
            Some(d)
        }
    }
}

/// The parts of a summary line: where its prefix ends, the index of its
/// category and where its text starts. `None` where the line is no summary.
pub open spec fn summary_head(g: GrammarModel, s: Seq<char>) -> Option<(int, int, int)> {
    match after_prefix(s) {
        None => None,
        Some(p) => match after_blanks(s, p) {
            None => None,
            Some(q) => match category_at(g, s, q) {
                CategoryStep::Found(k, e) => {
                    let r = run_end(s, e, CharClass::Blank);
                    if e < r < s.len() {
                        Some((p, k, r))
                    } else {
                        None
                    }
                },
                _ => None,
            },
        },
    }
}

/// The parts of a list item: the index of its category, if it has one, and
/// where its text starts. `None` where the line is no list item.
pub open spec fn item_head(g: GrammarModel, s: Seq<char>) -> Option<(Option<int>, int)> {
    match after_blanks(s, 0) {
        None => None,
        Some(a) => if s[a] != '-' {
            None
        } else {
            match after_blanks(s, a + 1) {
                None => None,
                Some(b) => match category_at(g, s, b) {
                    CategoryStep::Malformed => None,
                    CategoryStep::Absent => Some((None, b)),
                    CategoryStep::Found(k, e) => match after_blanks(s, e) {
                        None => None,
                        Some(c) => Some((Some(k), c)),
                    },
                },
            }
        },
    }
}

/// What [`CategoryGrammar::read_category`] gives: see [`CategoryStep`].
pub enum CategoryFound {
    Malformed,
    Absent,
    Found(usize, usize),
}

impl View for CategoryFound {
    type V = CategoryStep;

    open spec fn view(&self) -> CategoryStep {
        match self {
            CategoryFound::Malformed => CategoryStep::Malformed,
            CategoryFound::Absent => CategoryStep::Absent,
            CategoryFound::Found(k, e) => CategoryStep::Found(*k as int, *e as int),
        }
    }
}

/// Where a run of characters of a class ends: at the first character that is
/// not of the class.
pub proof fn lemma_run_end(s: Seq<char>, i: int, j: int, class: CharClass)
    requires
        0 <= i <= j <= s.len(),
        forall|k: int| i <= k < j ==> in_class(class, #[trigger] s[k]),
        j < s.len() ==> !in_class(class, s[j]),
    ensures
        run_end(s, i, class) == j,
    decreases j - i,
{
    if i < j {
        lemma_run_end(s, i + 1, j, class);
    }
}

/// The first category that stands at a place is the one before which none does.
pub proof fn lemma_category_index(
    categories: Seq<Seq<char>>,
    s: Seq<char>,
    i: int,
    from: int,
    k: int,
)
    requires
        0 <= from <= k < categories.len(),
        occurs_at(s, i, categories[k]),
        forall|j: int| from <= j < k ==> !occurs_at(s, i, #[trigger] categories[j]),
    ensures
        category_index(categories, s, i, from) == k,
    decreases k - from,
{
    if from < k {
        lemma_category_index(categories, s, i, from + 1, k);
    }
}

/// The prefix of a summary made of `letters` and `digits`; no prefix where
/// there are no letters.
pub open spec fn prefix_text(letters: Seq<char>, digits: Seq<char>) -> Seq<char> {
    if letters.len() == 0 {
        Seq::empty()
    } else {
        letters + seq!['-'] + digits
    }
}

/// The summary line written from its parts: the prefix and a space, if there
/// is a prefix, the category `k` between the delimiters, a space and the text.
pub open spec fn summary_line(
    g: GrammarModel,
    letters: Seq<char>,
    digits: Seq<char>,
    k: int,
    text: Seq<char>,
) -> Seq<char> {
    (if letters.len() == 0 {
        Seq::empty()
    } else {
        prefix_text(letters, digits) + seq![' ']
    }) + g.opening + g.categories[k] + g.closing + seq![' '] + text
}

/// Whether a summary can be written from these parts and read again: the
/// prefix, if there is one, is made of letters, and of digits, at least one
/// of each; the category with its delimiters starts with no blank, and
/// without a prefix the line starts with a delimiter that is no letter; no
/// category before `k` stands where the category `k` is written; and the text
/// is not empty and starts with no blank.
pub open spec fn summary_parts_wf(
    g: GrammarModel,
    letters: Seq<char>,
    digits: Seq<char>,
    k: int,
    text: Seq<char>,
) -> bool {
    let line = summary_line(g, letters, digits, k, text);
    let marked = g.opening + g.categories[k] + g.closing + seq![' '];
    &&& 0 <= k < g.categories.len()
    &&& forall|i: int| 0 <= i < letters.len() ==> is_alpha(#[trigger] letters[i])
    &&& forall|i: int| 0 <= i < digits.len() ==> is_digit(#[trigger] digits[i])
    &&& letters.len() > 0 ==> digits.len() > 0
    &&& !is_blank(marked[0])
    &&& letters.len() == 0 ==> g.opening.len() > 0 && !is_alpha(g.opening[0])
    &&& forall|j: int|
        0 <= j < k ==> !occurs_at(
            line,
            line.len() - text.len() - marked.len() + g.opening.len(),
            #[trigger] g.categories[j],
        )
    &&& text.len() > 0
    &&& !is_blank(text[0])
}

/// A summary line that is written from its parts is read as these parts: the
/// prefix ends where it was written to, the category is the one written, and
/// the text starts where it was written from.
pub proof fn lemma_summary_round_trip(
    g: GrammarModel,
    letters: Seq<char>,
    digits: Seq<char>,
    k: int,
    text: Seq<char>,
)
    requires
        summary_parts_wf(g, letters, digits, k, text),
    ensures
        ({
            let line = summary_line(g, letters, digits, k, text);
            let p = prefix_text(letters, digits).len() as int;
            let t = line.len() - text.len();
            &&& summary_head(g, line) == Some((p, k, t))
            &&& line.take(p) == prefix_text(letters, digits)
            &&& line.skip(t) == text
        }),
{
    let line = summary_line(g, letters, digits, k, text);
    let prefix = prefix_text(letters, digits);
    let p = prefix.len() as int;
    let lead: Seq<char> = if letters.len() == 0 {
        Seq::empty()
    } else {
        prefix + seq![' ']
    };
    let a = lead.len() as int;
    let o = a + g.opening.len();
    let c = o + g.categories[k].len();
    let d = c + g.closing.len();
    let t = d + 1;
    let marked = g.opening + g.categories[k] + g.closing + seq![' '];
    assert(line =~= lead + marked + text);
    assert(line.len() == t + text.len());
    assert(line.subrange(a, o) =~= g.opening);
    assert(line.subrange(o, c) =~= g.categories[k]);
    assert(line.subrange(c, d) =~= g.closing);
    assert(line[d] == ' ');
    assert(line[t] == text[0]);
    assert(line[a] == marked[0]);
    assert(line.take(p) =~= prefix);
    assert(line.skip(t) =~= text);
    // the prefix
    if letters.len() == 0 {
        assert(line[0] == g.opening[0]);
        lemma_run_end(line, 0, 0, CharClass::Alpha);
        assert(after_prefix(line) == Some(0int));
    } else {
        let n = letters.len() as int;
        assert forall|i: int| 0 <= i < n implies in_class(CharClass::Alpha, #[trigger] line[i]) by {
            assert(line[i] == letters[i]);
        }
        assert(line[n] == '-');
        lemma_run_end(line, 0, n, CharClass::Alpha);
        assert forall|i: int| n + 1 <= i < p implies in_class(
            CharClass::Digit,
            #[trigger] line[i],
        ) by {
            assert(line[i] == digits[i - n - 1]);
        }
        assert(line[p] == ' ');
        lemma_run_end(line, n + 1, p, CharClass::Digit);
        assert(after_prefix(line) == Some(p));
    }
    // the blanks after it
    if letters.len() == 0 {
        lemma_run_end(line, 0, 0, CharClass::Blank);
    } else {
        lemma_run_end(line, p, p + 1, CharClass::Blank);
    }
    assert(after_blanks(line, p) == Some(a));
    // the category between its delimiters
    assert(occurs_at(line, a, g.opening));
    assert(occurs_at(line, o, g.categories[k]));
    lemma_category_index(g.categories, line, o, 0, k);
    assert(occurs_at(line, c, g.closing));
    assert(category_at(g, line, a) == CategoryStep::Found(k, d));
    // the blanks before the text
    lemma_run_end(line, d, t, CharClass::Blank);
}

/// No category stands at a place where none of them does.
pub proof fn lemma_no_category(categories: Seq<Seq<char>>, s: Seq<char>, i: int, from: int)
    requires
        0 <= from <= categories.len(),
        forall|j: int| from <= j < categories.len() ==> !occurs_at(s, i, #[trigger] categories[j]),
    ensures
        category_index(categories, s, i, from) == categories.len(),
    decreases categories.len() - from,
{
    if from < categories.len() {
        lemma_no_category(categories, s, i, from + 1);
    }
}

/// The list item written from its parts: a hyphen and a space, the category
/// `k` between the delimiters and a space, if there is a category, and the
/// text.
pub open spec fn item_line(g: GrammarModel, k: Option<int>, text: Seq<char>) -> Seq<char> {
    seq!['-', ' '] + (match k {
        Some(k) => g.opening + g.categories[k] + g.closing + seq![' '],
        None => Seq::empty(),
    }) + text
}

/// Whether a list item can be written from these parts and read again: the
/// text is not empty and starts with no blank; a category with its delimiters
/// starts with no blank, and no category before it stands where it is
/// written; and a text without a category starts neither like the opening
/// delimiter, which is not empty, nor with a category.
pub open spec fn item_parts_wf(g: GrammarModel, k: Option<int>, text: Seq<char>) -> bool {
    let line = item_line(g, k, text);
    &&& text.len() > 0
    &&& !is_blank(text[0])
    &&& match k {
        Some(k) => {
            &&& 0 <= k < g.categories.len()
            &&& !is_blank((g.opening + g.categories[k] + g.closing + seq![' '])[0])
            &&& forall|j: int|
                0 <= j < k ==> !occurs_at(
                    line,
                    2 + g.opening.len() as int,
                    #[trigger] g.categories[j],
                )
        },
        None => {
            &&& g.opening.len() > 0
            &&& text[0] != g.opening[0]
            &&& forall|j: int|
                0 <= j < g.categories.len() ==> !occurs_at(line, 2, #[trigger] g.categories[j])
        },
    }
}

/// A list item that is written from its parts is read as these parts: the
/// category is the one written, or none, and the text starts where it was
/// written from.
pub proof fn lemma_item_round_trip(g: GrammarModel, k: Option<int>, text: Seq<char>)
    requires
        item_parts_wf(g, k, text),
    ensures
        ({
            let line = item_line(g, k, text);
            let t = line.len() - text.len();
            &&& item_head(g, line) == Some((k, t))
            &&& line.skip(t) == text
        }),
{
    let line = item_line(g, k, text);
    let t = line.len() - text.len();
    assert(line[0] == '-');
    assert(line[1] == ' ');
    assert(line.skip(t) =~= text);
    assert(line[t] == text[0]);
    lemma_run_end(line, 0, 0, CharClass::Blank);
    assert(after_blanks(line, 0) == Some(0int));
    lemma_run_end(line, 1, 2, CharClass::Blank);
    assert(after_blanks(line, 1) == Some(2int));
    match k {
        Some(k) => {
            let o = 2 + g.opening.len() as int;
            let c = o + g.categories[k].len() as int;
            let d = c + g.closing.len() as int;
            let marked = g.opening + g.categories[k] + g.closing + seq![' '];
            assert(line =~= seq!['-', ' '] + marked + text);
            assert(line[2] == marked[0]);
            assert(line.subrange(2, o) =~= g.opening);
            assert(line.subrange(o, c) =~= g.categories[k]);
            assert(line.subrange(c, d) =~= g.closing);
            assert(line[d] == ' ');
            assert(occurs_at(line, 2, g.opening));
            assert(occurs_at(line, o, g.categories[k]));
            lemma_category_index(g.categories, line, o, 0, k);
            assert(occurs_at(line, c, g.closing));
            assert(category_at(g, line, 2) == CategoryStep::Found(k, d));
            lemma_run_end(line, d, d + 1, CharClass::Blank);
            assert(after_blanks(line, d) == Some(d + 1));
        },
        None => {
            assert(line =~= seq!['-', ' '] + text);
            assert(line[2] == text[0]);
            assert(!occurs_at(line, 2, g.opening)) by {
                if occurs_at(line, 2, g.opening) {
                    assert(line.subrange(2, 2 + g.opening.len() as int)[0] == g.opening[0]);
                }
            }
            assert(!is_cut_off(line, 2, g.opening)) by {
                if is_cut_off(line, 2, g.opening) {
                    assert(line.subrange(2, line.len() as int)[0] == g.opening.take(
                        line.len() - 2,
                    )[0]);
                }
            }
            assert(after_delimiter(line, 2, g.opening) == Some(2int));
            lemma_no_category(g.categories, line, 2, 0);
            assert(category_at(g, line, 2) == CategoryStep::Absent);
        },
    }
}

/// The index after the blanks that start at `i`.
pub fn skip_blanks(line: &Vec<char>, i: usize) -> (r: Option<usize>)
    requires
        i <= line.len(),
    ensures
        r is Some == after_blanks(line@, i as int) is Some,
        r matches Some(e) ==> after_blanks(line@, i as int) == Some(e as int) && i <= e
            < line.len(),
{
    let e = skip_class(line, i, CharClass::Blank);
    if e >= line.len() {
        None
    } else {
        Some(e)
    }
}

/// Whether the end of the line cuts `d` short at `i`.
pub fn cut_off(line: &Vec<char>, i: usize, d: &Vec<char>) -> (r: bool)
    requires
        i <= line.len(),
    ensures
        r == is_cut_off(line@, i as int, d@),
{
    let rest = line.len() - i;
    if rest >= d.len() {
        return false;
    }
    let mut k: usize = 0;
    while k < rest
        invariant
            i + rest == line.len(),
            rest < d.len(),
            k <= rest,
            forall|j: int| 0 <= j < k ==> line@[i + j] == d@[j],
        decreases rest - k,
    {
        if line[i + k] != d[k] {
            assert(line@.subrange(i as int, line.len() as int)[k as int] != d@.take(
                rest as int,
            )[k as int]);
            return false;
        }
        k += 1;
    }
    assert(line@.subrange(i as int, line.len() as int) =~= d@.take(rest as int));
    true
}

/// The index after the optional delimiter `d` at `i`.
pub fn skip_delimiter(line: &Vec<char>, i: usize, d: &Vec<char>) -> (r: Option<usize>)
    requires
        i <= line.len(),
    ensures
        r is Some == after_delimiter(line@, i as int, d@) is Some,
        r matches Some(e) ==> after_delimiter(line@, i as int, d@) == Some(e as int) && i <= e
            <= line.len(),
{
    if has_at(line, i, d) {
        Some(i + d.len())
    } else if cut_off(line, i, d) {
        None
    } else {
        Some(i)
    }
}

/// The index after the optional prefix of a summary.
pub fn skip_prefix(line: &Vec<char>) -> (r: Option<usize>)
    ensures
        r is Some == after_prefix(line@) is Some,
        r matches Some(p) ==> after_prefix(line@) == Some(p as int) && p < line.len(),
{
    let a = skip_class(line, 0, CharClass::Alpha);
    if a >= line.len() {
        None
    } else if a == 0 || line[a] != '-' {
        Some(0)
    } else {
        let d = skip_class(line, a + 1, CharClass::Digit);
        if d >= line.len() {
            None
        } else if d == a + 1 {
            Some(0)
        } else {
            Some(d)
        }
    }
}

impl CategoryGrammar {
    /// The grammar that a valid configuration defines.
    pub fn new(config: &Config) -> (g: CategoryGrammar)
        requires
            config.valid(),
        ensures
            g.deep_view() == grammar_of(config.deep_view()),
    {
        let mut categories: Vec<Vec<char>> = Vec::new();
        let mut i: usize = 0;
        while i < config.categories.len()
            invariant
                i <= config.categories.len(),
                categories.deep_view() == config.categories.deep_view().take(i as int),
            decreases config.categories.len() - i,
        {
            let c = to_chars(config.categories[i].as_str());
            let ghost before = categories;
            categories.push(c);
            proof {
                lemma_deep_view_push(before, categories, c);
                lemma_chars_deep_view(c);
                assert(config.categories.deep_view().take(i as int).push(c@)
                    =~= config.categories.deep_view().take(i + 1));
            }
            i += 1;
        }
        assert(config.categories.deep_view().take(i as int) =~= config.categories.deep_view());
        CategoryGrammar {
            categories,
            opening: to_chars(config.category_delimiters[0].as_str()),
            closing: to_chars(config.category_delimiters[1].as_str()),
        }
    }

    /// The index of the first category that stands in `line` at `i`.
    pub fn find_category(&self, line: &Vec<char>, i: usize) -> (k: usize)
        ensures
            k == category_index(self.deep_view().categories, line@, i as int, 0),
            k <= self.categories.len(),
            k < self.categories.len() ==> occurs_at(line@, i as int, self.categories@[k as int]@),
    {
        let mut k: usize = 0;
        while k < self.categories.len()
            invariant
                k <= self.categories.len(),
                category_index(self.deep_view().categories, line@, i as int, 0) == category_index(
                    self.deep_view().categories,
                    line@,
                    i as int,
                    k as int,
                ),
            decreases self.categories.len() - k,
        {
            proof {
                lemma_chars_deep_view(self.categories@[k as int]);
            }
            if has_at(line, i, &self.categories[k]) {
                return k;
            }
            k += 1;
        }
        k
    }

    /// Reads at `i` an optional opening delimiter, a category and an optional
    /// closing delimiter.
    pub fn read_category(&self, line: &Vec<char>, i: usize) -> (r: CategoryFound)
        requires
            i <= line.len(),
        ensures
            r@ == category_at(self.deep_view(), line@, i as int),
            r matches CategoryFound::Found(k, e) ==> k < self.categories.len() && i <= e
                <= line.len(),
    {
        match skip_delimiter(line, i, &self.opening) {
            None => CategoryFound::Malformed,
            Some(j) => {
                let k = self.find_category(line, j);
                if k >= self.categories.len() {
                    CategoryFound::Absent
                } else {
                    proof {
                        lemma_chars_deep_view(self.categories@[k as int]);
                    }
                    match skip_delimiter(line, j + self.categories[k].len(), &self.closing) {
                        None => CategoryFound::Malformed,
                        Some(e) => CategoryFound::Found(k, e),
                    }
                }
            },
        }
    }

    /// The parts of a summary line: where its prefix ends, the index of its
    /// category and where its text starts.
    pub fn read_summary(&self, line: &Vec<char>) -> (r: Option<(usize, usize, usize)>)
        ensures
            r is Some == summary_head(self.deep_view(), line@) is Some,
            r matches Some((p, k, t)) ==> summary_head(self.deep_view(), line@) == Some(
                (p as int, k as int, t as int),
            ) && p <= t && t < line.len() && k < self.categories.len(),
    {
        match skip_prefix(line) {
            None => None,
            Some(p) => match skip_blanks(line, p) {
                None => None,
                Some(q) => match self.read_category(line, q) {
                    CategoryFound::Found(k, e) => {
                        let t = skip_class(line, e, CharClass::Blank);
                        if e < t && t < line.len() {
                            Some((p, k, t))
                        } else {
                            None
                        }
                    },
                    _ => None,
                },
            },
        }
    }

    /// The parts of a list item: the index of its category, if it has one, and
    /// where its text starts.
    pub fn read_item(&self, line: &Vec<char>) -> (r: Option<(Option<usize>, usize)>)
        ensures
            r is Some == item_head(self.deep_view(), line@) is Some,
            r matches Some((None, t)) ==> item_head(self.deep_view(), line@) == Some(
                (None::<int>, t as int),
            ) && t < line.len(),
            r matches Some((Some(k), t)) ==> item_head(self.deep_view(), line@) == Some(
                (Some(k as int), t as int),
            ) && t < line.len() && k < self.categories.len(),
    {
        match skip_blanks(line, 0) {
            None => None,
            Some(a) => if line[a] != '-' {
                None
            } else {
                match skip_blanks(line, a + 1) {
                    None => None,
                    Some(b) => match self.read_category(line, b) {
                        CategoryFound::Malformed => None,
                        CategoryFound::Absent => Some((None, b)),
                        CategoryFound::Found(k, e) => match skip_blanks(line, e) {
                            None => None,
                            Some(c) => Some((Some(k), c)),
                        },
                    },
                }
            },
        }
    }
}

} // verus!
