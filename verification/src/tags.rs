//! The tags of the elements of a changelog.
use crate::document::{
    commits_tags, list_tags, BodyElement, ListElement, ParsedCommit, ParsedTag,
};
use crate::order::{is_strictly_sorted, sort_unique, sorted_unique};
use vstd::prelude::*;

verus! {

/// What carries tags.
pub trait Tags {
    /// The tags of the element and of its parts, in order.
    spec fn tag_list(&self) -> Seq<Seq<char>>;

    /// Appends the tags of the element and of its parts to `vec`.
    fn get_tags(&self, vec: Vec<String>) -> (r: Vec<String>)
        ensures
            r.deep_view() == vec.deep_view() + self.tag_list(),
    ;

    /// The strings of `vec` and the tags of the element, each once and in order.
    fn get_tags_unique(&self, vec: Vec<String>) -> (r: Vec<String>)
        ensures
            r.deep_view() == sorted_unique(vec.deep_view() + self.tag_list()),
            is_strictly_sorted(r.deep_view()),
            r.deep_view().to_set() == (vec.deep_view() + self.tag_list()).to_set(),
    {
        let all = self.get_tags(vec);
        sort_unique(&all)
    }
}

impl Tags for ListElement {
    open spec fn tag_list(&self) -> Seq<Seq<char>> {
        self.tags.deep_view()
    }

    fn get_tags(&self, vec: Vec<String>) -> (r: Vec<String>) {
        let mut vec = vec;
        let ghost before = vec.deep_view();
        let mut copy = self.tags.clone();
        vec.append(&mut copy);
        assert(vec.deep_view() =~= before + self.tags.deep_view());
        vec
    }
}

/// Appends the tags of the items of a list to `vec`.
pub fn get_list_tags(items: &Vec<ListElement>, vec: Vec<String>) -> (r: Vec<String>)
    ensures
        r.deep_view() == vec.deep_view() + list_tags(items.deep_view()),
{
    let ghost start = vec.deep_view();
    let ghost all = items.deep_view();
    let mut vec = vec;
    let mut i: usize = 0;
    proof {
        assert(all.take(0) =~= Seq::empty());
        assert(start + list_tags(all.take(0)) =~= start);
    }
    while i < items.len()
        invariant
            i <= items.len(),
            all == items.deep_view(),
            vec.deep_view() == start + list_tags(all.take(i as int)),
        decreases items.len() - i,
    {
        let ghost done = list_tags(all.take(i as int));
        proof {
            assert(all.take(i + 1).drop_last() =~= all.take(i as int));
            assert(all.take(i + 1).last() == items@[i as int].deep_view());
        }
        vec = items[i].get_tags(vec);
        assert(vec.deep_view() =~= start + (done + items@[i as int].tags.deep_view()));
        i += 1;
    }
    assert(all.take(i as int) =~= all);
    vec
}

impl Tags for BodyElement {
    open spec fn tag_list(&self) -> Seq<Seq<char>> {
        self.deep_view().tags()
    }

    fn get_tags(&self, vec: Vec<String>) -> (r: Vec<String>) {
        match self {
            BodyElement::List(items) => get_list_tags(items, vec),
            BodyElement::Paragraph(paragraph) => {
                let mut vec = vec;
                let ghost before = vec.deep_view();
                let mut copy = paragraph.tags.clone();
                vec.append(&mut copy);
                assert(vec.deep_view() =~= before + paragraph.tags.deep_view());
                vec
            },
        }
    }
}

impl Tags for ParsedCommit {
    open spec fn tag_list(&self) -> Seq<Seq<char>> {
        self.deep_view().tags()
    }

    fn get_tags(&self, vec: Vec<String>) -> (r: Vec<String>) {
        let ghost start = vec.deep_view();
        let ghost all = self.body.deep_view();
        let mut vec = vec;
        let mut copy = self.summary.tags.clone();
        vec.append(&mut copy);
        let ghost first = self.summary.tags.deep_view();
        let mut i: usize = 0;
        proof {
            assert(all.take(0) =~= Seq::empty());
            assert(vec.deep_view() =~= start + (first + crate::document::body_tags(all.take(0))));
        }
        while i < self.body.len()
            invariant
                i <= self.body.len(),
                all == self.body.deep_view(),
                vec.deep_view() == start + (first + crate::document::body_tags(all.take(i as int))),
            decreases self.body.len() - i,
        {
            let ghost done = crate::document::body_tags(all.take(i as int));
            proof {
                assert(all.take(i + 1).drop_last() =~= all.take(i as int));
                assert(all.take(i + 1).last() == self.body@[i as int].deep_view());
            }
            vec = self.body[i].get_tags(vec);
            assert(vec.deep_view() =~= start + (first + (done
                + self.body@[i as int].deep_view().tags())));
            i += 1;
        }
        assert(all.take(i as int) =~= all);
        vec
    }
}

impl Tags for ParsedTag {
    open spec fn tag_list(&self) -> Seq<Seq<char>> {
        commits_tags(self.commits.deep_view())
    }

    fn get_tags(&self, vec: Vec<String>) -> (r: Vec<String>) {
        let ghost start = vec.deep_view();
        let ghost all = self.commits.deep_view();
        let mut vec = vec;
        let mut i: usize = 0;
        proof {
            assert(all.take(0) =~= Seq::empty());
            assert(start + commits_tags(all.take(0)) =~= start);
        }
        while i < self.commits.len()
            invariant
                i <= self.commits.len(),
                all == self.commits.deep_view(),
                vec.deep_view() == start + commits_tags(all.take(i as int)),
            decreases self.commits.len() - i,
        {
            let ghost done = commits_tags(all.take(i as int));
            proof {
                assert(all.take(i + 1).drop_last() =~= all.take(i as int));
                assert(all.take(i + 1).last() == self.commits@[i as int].deep_view());
            }
            vec = self.commits[i].get_tags(vec);
            assert(vec.deep_view() =~= start + (done + self.commits@[i as int].deep_view().tags()));
            i += 1;
        }
        assert(all.take(i as int) =~= all);
        vec
    }
}

} // verus!
