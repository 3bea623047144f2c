//! Tags: short string labels attached to notes.

use vstd::prelude::*;

verus! {

/// A tag that describes a note.
///
/// Viewed as the sequence of characters of its name.
#[derive(Debug)]
pub struct Tag {
    name: String,
}

impl View for Tag {
    type V = Seq<char>;

    closed spec fn view(&self) -> Seq<char> {
        self.name@
    }
}

impl Clone for Tag {
    fn clone(&self) -> (r: Self)
        ensures
            r@ == self@,
    {
        Tag { name: self.name.clone() }
    }
}

impl Tag {
    pub fn new(name: String) -> (r: Self)
        ensures
            r@ == name@,
    {
        Tag { name }
    }

    /// The tag's label text.
    pub fn name(&self) -> (r: &String)
        ensures
            r@ == self@,
    {
        &self.name
    }

    /// Whether two tags carry the same label.
    pub fn same_as(&self, other: &Tag) -> (r: bool)
        ensures
            r == (self@ == other@),
    {
        self.name == other.name
    }
}

/// A list of tags to be attached to a note.
///
/// Viewed as the sequence of tag labels, in insertion order. Duplicate
/// labels are kept as given: no de-duplication happens on push.
#[derive(Debug)]
pub struct Tags(pub Vec<Tag>);

impl View for Tags {
    type V = Seq<Seq<char>>;

    open spec fn view(&self) -> Seq<Seq<char>> {
        self.0@.map_values(|t: Tag| t@)
    }
}

/// Every label of `sub` occurs among the labels of `sup`.
pub open spec fn holds_all(sup: Seq<Seq<char>>, sub: Seq<Seq<char>>) -> bool {
    forall|i: int| 0 <= i < sub.len() ==> sup.contains(#[trigger] sub[i])
}

impl Clone for Tags {
    fn clone(&self) -> (r: Self)
        ensures
            r@ == self@,
    {
        let mut out: Vec<Tag> = Vec::new();
        let mut i: usize = 0;
        while i < self.0.len()
            invariant
                i <= self.0.len(),
                out@.len() == i,
                forall|j: int| 0 <= j < i ==> out@[j]@ == self.0@[j]@,
            decreases self.0.len() - i,
        {
            out.push(self.0[i].clone());
            i += 1;
        }
        let r = Tags(out);
        proof {
            assert(r@ =~= self@);
        }
        r
    }
}

impl Tags {
    /// An empty tag list.
    pub fn empty() -> (r: Self)
        ensures
            r@ == Seq::<Seq<char>>::empty(),
    {
        let r = Tags(Vec::new());
        proof {
            assert(r@ =~= Seq::<Seq<char>>::empty());
        }
        r
    }

    /// Builds a tag list from plain label strings, keeping their order.
    pub fn from_vec(list: Vec<String>) -> (r: Self)
        ensures
            r@ == list.deep_view(),
    {
        let mut out: Vec<Tag> = Vec::new();
        let mut i: usize = 0;
        while i < list.len()
            invariant
                i <= list.len(),
                out@.len() == i,
                forall|j: int| 0 <= j < i ==> out@[j]@ == list@[j]@,
            decreases list.len() - i,
        {
            out.push(Tag::new(list[i].clone()));
            i += 1;
        }
        let r = Tags(out);
        proof {
            assert(r@ =~= list.deep_view());
        }
        r
    }

    /// The labels as plain strings, in order.
    pub fn to_vec(&self) -> (r: Vec<String>)
        ensures
            r.deep_view() == self@,
    {
        let mut out: Vec<String> = Vec::new();
        let mut i: usize = 0;
        while i < self.0.len()
            invariant
                i <= self.0.len(),
                out@.len() == i,
                forall|j: int| 0 <= j < i ==> out@[j]@ == self.0@[j]@,
            decreases self.0.len() - i,
        {
            out.push(self.0[i].name().clone());
            i += 1;
        }
        proof {
            assert(out.deep_view() =~= self@);
        }
        out
    }

    /// Appends a tag; duplicates are kept.
    pub fn push(&mut self, tag: Tag)
        ensures
            final(self)@ == old(self)@.push(tag@),
    {
        self.0.push(tag);
        proof {
            assert(self@ =~= old(self)@.push(self.0@[self.0@.len() - 1]@));
        }
    }

    /// The underlying tag list.
    pub fn tags(&self) -> (r: &Vec<Tag>)
        ensures
            r@.map_values(|t: Tag| t@) == self@,
    {
        &self.0
    }

    /// How many tags are held, duplicates counted.
    pub fn len(&self) -> (r: usize)
        ensures
            r == self@.len(),
    {
        self.0.len()
    }

    /// Whether some held tag carries the given label.
    pub fn has_tag(&self, tag: &Tag) -> (r: bool)
        ensures
            r == self@.contains(tag@),
    {
        let mut i: usize = 0;
        while i < self.0.len()
            invariant
                i <= self.0.len(),
                forall|j: int| 0 <= j < i ==> self@[j] != tag@,
            decreases self.0.len() - i,
        {
            if self.0[i].same_as(tag) {
                proof {
                    assert(self@[i as int] == tag@);
                }
                return true;
            }
            i += 1;
        }
        false
    }

    /// Whether every label of `other` occurs in this list.
    pub fn contains(&self, other: &Tags) -> (r: bool)
        ensures
            r == holds_all(self@, other@),
    {
        let mut i: usize = 0;
        while i < other.0.len()
            invariant
                i <= other.0.len(),
                forall|j: int| 0 <= j < i ==> self@.contains(#[trigger] other@[j]),
            decreases other.0.len() - i,
        {
            if !self.has_tag(&other.0[i]) {
                proof {
                    assert(!self@.contains(other@[i as int]));
                }
                return false;
            }
            i += 1;
        }
        true
    }
}

} // verus!
