//! Templates: nested tables of sections that say how a changelog is laid out.
//!
//! A template is a tree of values. Each table with a `tag` is a section; the
//! tables in the arrays of a table are its nested sections.
use crate::text::{lemma_deep_view_push, same_str};
use vstd::prelude::*;

verus! {

/// The key of the footers that a section collects.
pub const TOML_FOOTERS_KEY: &'static str = "footers";

/// The key of the heading of a section.
pub const TOML_NAME_KEY: &'static str = "name";

/// The key of the tag of a section.
pub const TOML_TAG: &'static str = "tag";

/// The key of the text of a header or footer.
pub const TOML_TEXT_KEY: &'static str = "text";

/// The key that says whether a header or footer is printed once only.
pub const TOML_ONCE_KEY: &'static str = "once";

/// The key of the header of a template.
pub const TOML_HEADER_KEY: &'static str = "header";

/// The key of the footer of a template.
pub const TOML_FOOTER_KEY: &'static str = "footer";

/// A value of a template.
#[derive(Debug, PartialEq, Eq)]
pub enum Value {
    String(String),
    Integer(i64),
    Boolean(bool),
    Array(Vec<Value>),
    /// The entries of a table, each a key and its value.
    Table(Vec<(String, Value)>),
    /// A value of a kind that templates make no use of.
    Other,
}

/// What a [`Value`] holds, as mathematical values.
pub enum ValueModel {
    String(Seq<char>),
    Integer(i64),
    Boolean(bool),
    Array(Seq<ValueModel>),
    Table(Seq<(Seq<char>, ValueModel)>),
    Other,
}

/// What the values `s` hold.
pub open spec fn models(s: Seq<Value>) -> Seq<ValueModel>
    decreases s,
{
    if s.len() == 0 {
        Seq::empty()
    } else {
        models(s.drop_last()).push(s.last().model())
    }
}

/// What the entries `s` of a table hold.
pub open spec fn entry_models(s: Seq<(String, Value)>) -> Seq<(Seq<char>, ValueModel)>
    decreases s,
{
    if s.len() == 0 {
        Seq::empty()
    } else {
        entry_models(s.drop_last()).push((s.last().0@, s.last().1.model()))
    }
}

impl Value {
    /// What the value holds.
    pub open spec fn model(self) -> ValueModel
        decreases self,
    {
        match self {
            Value::String(s) => ValueModel::String(s@),
            Value::Integer(i) => ValueModel::Integer(i),
            Value::Boolean(b) => ValueModel::Boolean(b),
            Value::Array(items) => ValueModel::Array(models(items@)),
            Value::Table(entries) => ValueModel::Table(entry_models(entries@)),
            Value::Other => ValueModel::Other,
        }
    }
}

/// The value of the first entry from `i` on whose key is `key`.
pub open spec fn lookup_from(table: Seq<(Seq<char>, ValueModel)>, key: Seq<char>, i: int) -> Option<
    ValueModel,
>
    decreases table.len() - i,
{
    if 0 <= i < table.len() {
        if table[i].0 == key {
            Some(table[i].1)
        } else {
            lookup_from(table, key, i + 1)
        }
    } else {
        None
    }
}

/// The value that `table` has for `key`.
pub open spec fn lookup(table: Seq<(Seq<char>, ValueModel)>, key: Seq<char>) -> Option<ValueModel> {
    lookup_from(table, key, 0)
}

/// The value that the table `root` has for `key`; none where `root` is no table.
pub open spec fn lookup_in(root: ValueModel, key: Seq<char>) -> Option<ValueModel> {
    match root {
        ValueModel::Table(table) => lookup(table, key),
        _ => None,
    }
}

/// The models of entries, one by one.
pub proof fn lemma_entry_models(s: Seq<(String, Value)>)
    ensures
        entry_models(s).len() == s.len(),
        forall|i: int|
            0 <= i < s.len() ==> (#[trigger] entry_models(s)[i]) == (s[i].0@, s[i].1.model()),
    decreases s.len(),
{
    if s.len() > 0 {
        lemma_entry_models(s.drop_last());
    }
}

/// The models of values, one by one.
pub proof fn lemma_models(s: Seq<Value>)
    ensures
        models(s).len() == s.len(),
        forall|i: int| 0 <= i < s.len() ==> (#[trigger] models(s)[i]) == s[i].model(),
    decreases s.len(),
{
    if s.len() > 0 {
        lemma_models(s.drop_last());
    }
}

/// The value that the entries `table` have for `key`.
pub fn get<'a>(table: &'a Vec<(String, Value)>, key: &str) -> (r: Option<&'a Value>)
    ensures
        match r {
            Some(v) => lookup(entry_models(table@), key@) == Some(v.model()),
            None => lookup(entry_models(table@), key@) is None,
        },
{
    let mut i: usize = 0;
    proof {
        lemma_entry_models(table@);
    }
    while i < table.len()
        invariant
            i <= table.len(),
            entry_models(table@).len() == table.len(),
            forall|j: int|
                0 <= j < table.len() ==> (#[trigger] entry_models(table@)[j]) == (
                    table@[j].0@,
                    table@[j].1.model(),
                ),
            lookup(entry_models(table@), key@) == lookup_from(entry_models(table@), key@, i as int),
        decreases table.len() - i,
    {
        if same_str(table[i].0.as_str(), key) {
            return Some(&table[i].1);
        }
        i += 1;
    }
    None
}

/// The tags of the sections of a table: those of its nested sections first,
/// in the order of its entries, then its own.
pub open spec fn table_tags(table: Seq<(Seq<char>, ValueModel)>) -> Seq<Seq<char>>
    decreases table, 1nat,
{
    nested_tags(table) + match lookup(table, TOML_TAG@) {
        Some(ValueModel::String(tag)) => seq![tag],
        _ => Seq::empty(),
    }
}

/// The tags of the sections nested in the entries of a table.
pub open spec fn nested_tags(entries: Seq<(Seq<char>, ValueModel)>) -> Seq<Seq<char>>
    decreases entries, 0nat,
{
    if entries.len() == 0 {
        Seq::empty()
    } else {
        nested_tags(entries.drop_last()) + value_tags(entries.last().1)
    }
}

/// The tags of the sections in a value: those of the tables of an array.
pub open spec fn value_tags(v: ValueModel) -> Seq<Seq<char>>
    decreases v, 0nat,
{
    match v {
        ValueModel::Array(items) => items_tags(items),
        _ => Seq::empty(),
    }
}

/// The tags of the sections among the items of an array.
pub open spec fn items_tags(items: Seq<ValueModel>) -> Seq<Seq<char>>
    decreases items, 0nat,
{
    if items.len() == 0 {
        Seq::empty()
    } else {
        items_tags(items.drop_last()) + match items.last() {
            ValueModel::Table(table) => table_tags(table),
            _ => Seq::empty(),
        }
    }
}

/// Appends the tags of the sections of a table to `vec`.
pub fn tags_of_table(table: &Vec<(String, Value)>, vec: Vec<String>) -> (r: Vec<String>)
    ensures
        r.deep_view() == vec.deep_view() + table_tags(entry_models(table@)),
    decreases table,
{
    let ghost start = vec.deep_view();
    let ghost entries = entry_models(table@);
    let mut vec = vec;
    let mut i: usize = 0;
    proof {
        lemma_entry_models(table@);
        assert(entries.take(0) =~= Seq::empty());
        assert(start + nested_tags(entries.take(0)) =~= start);
    }
    while i < table.len()
        invariant
            i <= table.len(),
            entries == entry_models(table@),
            entries.len() == table.len(),
            forall|j: int|
                0 <= j < table.len() ==> (#[trigger] entries[j]) == (
                    table@[j].0@,
                    table@[j].1.model(),
                ),
            vec.deep_view() == start + nested_tags(entries.take(i as int)),
        decreases table.len() - i,
    {
        let ghost done = nested_tags(entries.take(i as int));
        proof {
            assert(entries.take(i + 1).drop_last() =~= entries.take(i as int));
            assert(entries.take(i + 1).last() == entries[i as int]);
        }
        match &table[i].1 {
            Value::Array(array) => {
                let ghost items = models(array@);
                let mut j: usize = 0;
                proof {
                    lemma_models(array@);
                    assert(items.take(0) =~= Seq::empty());
                    assert(start + (done + items_tags(items.take(0))) =~= start + done);
                }
                while j < array.len()
                    invariant
                        j <= array.len(),
                        i < table.len(),
                        table@[i as int].1 == Value::Array(*array),
                        items == models(array@),
                        items.len() == array.len(),
                        forall|k: int|
                            0 <= k < array.len() ==> (#[trigger] items[k]) == array@[k].model(),
                        vec.deep_view() == start + (done + items_tags(items.take(j as int))),
                    decreases array.len() - j,
                {
                    let ghost sofar = items_tags(items.take(j as int));
                    proof {
                        assert(items.take(j + 1).drop_last() =~= items.take(j as int));
                        assert(items.take(j + 1).last() == items[j as int]);
                    }
                    match &array[j] {
                        Value::Table(inner) => {
                            proof {
                                assert(decreases_to!(*table => table@));
                                assert(decreases_to!(table@ => table@[i as int]));
                                assert(decreases_to!(table@[i as int] => table@[i as int].1));
                                assert(table@[i as int].1->Array_0 == *array);
                                assert(decreases_to!(table@[i as int].1 => table@[i as int].1->Array_0));
                                assert(decreases_to!(*array => array@));
                                assert(decreases_to!(array@ => array@[j as int]));
                                assert(array@[j as int]->Table_0 == *inner);
                                assert(decreases_to!(array@[j as int] => array@[j as int]->Table_0));
                                assert(items[j as int] == ValueModel::Table(entry_models(inner@)));
                            }
                            vec = tags_of_table(inner, vec);
                            assert(vec.deep_view() =~= start + (done + (sofar + table_tags(
                                entry_models(inner@),
                            ))));
                        },
                        _ => {
                            assert(!(items[j as int] is Table));
                            assert(vec.deep_view() =~= start + (done + (sofar + Seq::<
                                Seq<char>,
                            >::empty())));
                        },
                    }
                    j += 1;
                }
                assert(items.take(j as int) =~= items);
                assert(entries[i as int].1 == ValueModel::Array(items));
                assert(value_tags(entries[i as int].1) == items_tags(items));
                assert(nested_tags(entries.take(i + 1)) == done + value_tags(entries[i as int].1));
            },
            _ => {
                assert(!(entries[i as int].1 is Array));
                assert(vec.deep_view() =~= start + (done + Seq::<Seq<char>>::empty()));
                assert(value_tags(entries[i as int].1) == Seq::<Seq<char>>::empty());
                assert(nested_tags(entries.take(i + 1)) == done + value_tags(entries[i as int].1));
            },
        }
        i += 1;
    }
    assert(entries.take(i as int) =~= entries);
    match get(table, TOML_TAG) {
        Some(Value::String(tag)) => {
            let ghost before = vec;
            let copy = tag.clone();
            vec.push(copy);
            proof {
                lemma_deep_view_push(before, vec, copy);
                assert(vec.deep_view() =~= start + table_tags(entries));
            }
        },
        _ => {
            assert(vec.deep_view() =~= start + table_tags(entries));
        },
    }
    vec
}

} // verus!
