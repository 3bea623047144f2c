//! The ordered note collection: positional ids, filtered retrieval,
//! append, edit and delete.

use vstd::prelude::*;

use crate::codec::{decode_notes, encode_notes, spec_decode, spec_encode};
use crate::errors::NotesError;
use crate::note::{Note, NoteView, NoteWithId};
use crate::tags::{holds_all, Tag, Tags};

verus! {

/// The positions, in increasing order, of the notes that carry all of the
/// given tags.
pub open spec fn tagged_ids(notes: Seq<NoteView>, tags: Seq<Seq<char>>) -> Seq<int>
    decreases notes.len(),
{
    if notes.len() == 0 {
        Seq::<int>::empty()
    } else {
        let prefix = tagged_ids(notes.drop_last(), tags);
        if holds_all(notes.last().tags, tags) {
            prefix.push(notes.len() - 1)
        } else {
            prefix
        }
    }
}

/// What membership in `tagged_ids` means: exactly the in-bounds positions
/// whose note carries all of the given tags.
pub proof fn lemma_tagged_ids_spec(notes: Seq<NoteView>, tags: Seq<Seq<char>>)
    ensures
        forall|i: int|
            #[trigger] tagged_ids(notes, tags).contains(i) ==> 0 <= i < notes.len() && holds_all(
                notes[i].tags,
                tags,
            ),
        forall|i: int|
            0 <= i < notes.len() && holds_all(#[trigger] notes[i].tags, tags) ==> tagged_ids(
                notes,
                tags,
            ).contains(i),
    decreases notes.len(),
{
    if notes.len() > 0 {
        lemma_tagged_ids_spec(notes.drop_last(), tags);
        let prefix = tagged_ids(notes.drop_last(), tags);
        let whole = tagged_ids(notes, tags);
        let last = notes.len() - 1;
        assert forall|i: int| whole.contains(i) implies (0 <= i < notes.len() && holds_all(
            notes[i].tags,
            tags,
        )) by {
            let k = choose|k: int| 0 <= k < whole.len() && whole[k] == i;
            if holds_all(notes.last().tags, tags) {
                if k == whole.len() - 1 {
                    assert(i == last);
                    assert(notes[last] == notes.last());
                } else {
                    assert(whole[k] == prefix[k]);
                    assert(prefix.contains(i));
                    assert(0 <= i < last);
                    assert(notes.drop_last()[i] == notes[i]);
                }
            } else {
                assert(whole[k] == prefix[k]);
                assert(prefix.contains(i));
                assert(0 <= i < last);
                assert(notes.drop_last()[i] == notes[i]);
            }
        }
        assert forall|i: int| (0 <= i < notes.len() && holds_all(notes[i].tags, tags)) implies
            whole.contains(i) by {
            if i == last && holds_all(notes.last().tags, tags) {
                assert(whole[whole.len() - 1] == i);
            } else {
                assert(notes[last] == notes.last());
                assert(i < last);
                assert(notes.drop_last()[i] == notes[i]);
                assert(prefix.contains(i));
                let k = choose|k: int| 0 <= k < prefix.len() && prefix[k] == i;
                assert(whole[k] == i);
            }
        }
    }
}

/// Extending the prefix under view by one note either appends its
/// position or leaves the filtered positions unchanged.
proof fn lemma_tagged_ids_take_step(notes: Seq<NoteView>, tags: Seq<Seq<char>>, i: int)
    requires
        0 <= i < notes.len(),
    ensures
        tagged_ids(notes.take(i + 1), tags) == if holds_all(notes[i].tags, tags) {
            tagged_ids(notes.take(i), tags).push(i)
        } else {
            tagged_ids(notes.take(i), tags)
        },
{
    let ext = notes.take(i + 1);
    assert(ext.drop_last() =~= notes.take(i));
    assert(ext.last() == notes[i]);
}

/// An ordered collection of notes. A note's id is its position, so ids
/// above a deleted position shift down by one.
#[derive(Debug)]
pub struct Notes(Vec<Note>);

impl View for Notes {
    type V = Seq<NoteView>;

    closed spec fn view(&self) -> Seq<NoteView> {
        self.0@.map_values(|n: Note| n@)
    }
}

impl Notes {
    /// Returns a new collection holding the given notes in order.
    pub fn new(notes: Vec<Note>) -> (r: Self)
        ensures
            r@ == notes@.map_values(|n: Note| n@),
    {
        Notes(notes)
    }

    /// The number of notes held.
    pub fn len(&self) -> (r: usize)
        ensures
            r == self@.len(),
    {
        self.0.len()
    }

    /// All notes in order, unless there are none, in which case `None`.
    pub fn get_all(&self) -> (r: Option<Vec<Note>>)
        ensures
            match r {
                Some(v) => self@.len() > 0 && v@.map_values(|n: Note| n@) == self@,
                None => self@.len() == 0,
            },
    {
        if self.0.len() == 0 {
            return None;
        }
        let mut out: Vec<Note> = Vec::new();
        let mut i: usize = 0;
        while i < self.0.len()
            invariant
                i <= self.0.len(),
                out@.len() == i,
                forall|j: int| 0 <= j < i ==> out@[j]@ == self@[j],
            decreases self.0.len() - i,
        {
            out.push(self.0[i].clone());
            i += 1;
        }
        proof {
            assert(out@.map_values(|n: Note| n@) =~= self@);
        }
        Some(out)
    }

    /// All notes paired with their ids, unless there are none.
    pub fn get_all_with_id(&self) -> (r: Option<Vec<NoteWithId>>)
        ensures
            match r {
                Some(v) => {
                    &&& self@.len() > 0
                    &&& v@.len() == self@.len()
                    &&& forall|j: int|
                        0 <= j < v@.len() ==> (#[trigger] v@[j]).0 == j && v@[j].1@ == self@[j]
                },
                None => self@.len() == 0,
            },
    {
        if self.0.len() == 0 {
            return None;
        }
        let mut out: Vec<NoteWithId> = Vec::new();
        let mut i: usize = 0;
        while i < self.0.len()
            invariant
                i <= self.0.len(),
                out@.len() == i,
                forall|j: int| 0 <= j < i ==> (#[trigger] out@[j]).0 == j && out@[j].1@ == self@[j],
            decreases self.0.len() - i,
        {
            out.push(NoteWithId(i, self.0[i].clone()));
            i += 1;
        }
        Some(out)
    }

    /// The note at the given id, if it is within bounds.
    pub fn get(&self, index: usize) -> (r: Option<Note>)
        ensures
            match r {
                Some(n) => index < self@.len() && n@ == self@[index as int],
                None => index >= self@.len(),
            },
    {
        if index < self.0.len() {
            Some(self.0[index].clone())
        } else {
            None
        }
    }

    /// The note at the given id paired with that id, if within bounds.
    pub fn get_with_id(&self, index: usize) -> (r: Option<NoteWithId>)
        ensures
            match r {
                Some(p) => index < self@.len() && p.0 == index && p.1@ == self@[index as int],
                None => index >= self@.len(),
            },
    {
        if index < self.0.len() {
            Some(NoteWithId(index, self.0[index].clone()))
        } else {
            None
        }
    }

    /// The notes carrying the given tag, with their ids; `None` when the
    /// collection is empty or nothing matches.
    pub fn get_all_with_tag(&self, tag: Tag) -> (r: Option<Vec<NoteWithId>>)
        ensures
            match r {
                Some(v) => {
                    &&& v@.len() == tagged_ids(self@, seq![tag@]).len() > 0
                    &&& forall|k: int|
                        0 <= k < v@.len() ==> (#[trigger] v@[k]).0 == tagged_ids(
                            self@,
                            seq![tag@],
                        )[k] && v@[k].1@ == self@[tagged_ids(self@, seq![tag@])[k]]
                },
                None => self@.len() == 0 || tagged_ids(self@, seq![tag@]).len() == 0,
            },
    {
        let mut only: Vec<Tag> = Vec::new();
        only.push(tag);
        let tags = Tags(only);
        proof {
            assert(tags@ =~= seq![tags.0@[0]@]);
        }
        self.get_all_with_tags(tags)
    }

    /// The notes carrying all of the given tags, with their ids; `None`
    /// when the collection is empty or nothing matches.
    pub fn get_all_with_tags(&self, tags: Tags) -> (r: Option<Vec<NoteWithId>>)
        ensures
            match r {
                Some(v) => {
                    &&& v@.len() == tagged_ids(self@, tags@).len() > 0
                    &&& forall|k: int|
                        0 <= k < v@.len() ==> (#[trigger] v@[k]).0 == tagged_ids(self@, tags@)[k]
                            && v@[k].1@ == self@[tagged_ids(self@, tags@)[k]]
                },
                None => self@.len() == 0 || tagged_ids(self@, tags@).len() == 0,
            },
    {
        if self.0.len() == 0 {
            return None;
        }
        let mut out: Vec<NoteWithId> = Vec::new();
        let mut i: usize = 0;
        proof {
            assert(self@.take(0) =~= Seq::<NoteView>::empty());
        }
        while i < self.0.len()
            invariant
                i <= self.0.len(),
                self.0@.len() == self@.len(),
                forall|j: int| 0 <= j < self@.len() ==> #[trigger] self.0@[j]@ == self@[j],
                out@.len() == tagged_ids(self@.take(i as int), tags@).len(),
                forall|k: int|
                    0 <= k < out@.len() ==> (#[trigger] out@[k]).0 == tagged_ids(
                        self@.take(i as int),
                        tags@,
                    )[k] && out@[k].1@ == self@[tagged_ids(self@.take(i as int), tags@)[k]],
            decreases self.0.len() - i,
        {
            proof {
                lemma_tagged_ids_take_step(self@, tags@, i as int);
            }
            if self.0[i].has_tags(&tags) {
                out.push(NoteWithId(i, self.0[i].clone()));
            }
            i += 1;
        }
        proof {
            assert(self@.take(self@.len() as int) =~= self@);
        }
        if out.len() == 0 {
            return None;
        }
        Some(out)
    }

    /// Appends a note and returns its id, the position at the end.
    pub fn push(&mut self, note: Note) -> (r: usize)
        ensures
            final(self)@ == old(self)@.push(note@),
            r == old(self)@.len(),
    {
        let ghost v = note@;
        self.0.push(note);
        proof {
            assert(self@ =~= old(self)@.push(v));
        }
        self.0.len() - 1
    }

    /// Removes and returns the note at the given id; every note behind it
    /// shifts down by one. An out-of-bounds id is an error, and the
    /// collection is left unchanged.
    pub fn delete(&mut self, index: usize) -> (r: Result<Note, NotesError>)
        ensures
            index < old(self)@.len() ==> {
                &&& final(self)@ == old(self)@.remove(index as int)
                &&& r matches Ok(n) && n@ == old(self)@[index as int]
            },
            index >= old(self)@.len() ==> {
                &&& final(self)@ == old(self)@
                &&& r == Result::<Note, NotesError>::Err(NotesError::InvalidNoteId(index))
            },
    {
        if index >= self.0.len() {
            Err(NotesError::InvalidNoteId(index))
        } else {
            let n = self.0.remove(index);
            proof {
                assert(self@ =~= old(self)@.remove(index as int));
            }
            Ok(n)
        }
    }

    /// The whole collection as one byte blob, for persistence.
    pub fn to_bytes(&self) -> (r: Vec<u8>)
        ensures
            r@ == spec_encode(self@),
    {
        encode_notes(&self.0)
    }

    /// The collection held in a byte blob; bytes that are not exactly an
    /// encoded collection are a deserialization error.
    pub fn from_bytes(buf: &Vec<u8>) -> (r: Result<Notes, NotesError>)
        ensures
            match r {
                Ok(notes) => spec_decode(buf@) == Some(notes@),
                Err(e) => spec_decode(buf@) is None && e == NotesError::NoteDeserialization,
            },
    {
        match decode_notes(buf) {
            Ok(v) => Ok(Notes(v)),
            Err(e) => Err(e),
        }
    }

    /// Rewrites the content and/or tags of the note at the given id; its
    /// creation time is never modified, and an absent part is left as it
    /// was. An out-of-bounds id is an error, and the collection is left
    /// unchanged.
    pub fn edit(&mut self, index: usize, content: Option<String>, tags: Option<Tags>) -> (r:
        Result<Note, NotesError>)
        ensures
            index < old(self)@.len() ==> {
                let was = old(self)@[index as int];
                let now = (NoteView {
                    created: was.created,
                    tags: match tags {
                        Some(t) => t@,
                        None => was.tags,
                    },
                    content: match content {
                        Some(c) => c@,
                        None => was.content,
                    },
                    desc: was.desc,
                });
                &&& final(self)@ == old(self)@.update(index as int, now)
                &&& r matches Ok(n) && n@ == now
            },
            index >= old(self)@.len() ==> {
                &&& final(self)@ == old(self)@
                &&& r == Result::<Note, NotesError>::Err(NotesError::InvalidNoteId(index))
            },
    {
        if index >= self.0.len() {
            return Err(NotesError::InvalidNoteId(index));
        }
        let mut n = self.0[index].clone();
        match content {
            Some(c) => {
                n.content = c;
            },
            None => {},
        }
        match tags {
            Some(t) => {
                n.tags = t;
            },
            None => {},
        }
        let out = n.clone();
        let ghost now = n@;
        self.0[index] = n;
        proof {
            assert(self@ =~= old(self)@.update(index as int, now));
        }
        Ok(out)
    }
}

/// Appending a note and reading at the returned position yields that
/// very note.
pub proof fn lemma_push_get(notes: Seq<NoteView>, n: NoteView)
    ensures
        notes.push(n)[notes.len() as int] == n,
        notes.push(n).len() == notes.len() + 1,
{
}

/// Removing position `i` shortens the collection by one, leaves the notes
/// before `i` in place, and shifts every note behind `i` down by one.
pub proof fn lemma_delete_shift(notes: Seq<NoteView>, i: int)
    requires
        0 <= i < notes.len(),
    ensures
        notes.remove(i).len() == notes.len() - 1,
        forall|j: int| 0 <= j < i ==> notes.remove(i)[j] == notes[j],
        forall|j: int| i < j < notes.len() ==> notes.remove(i)[j - 1] == notes[j],
{
}

} // verus!
