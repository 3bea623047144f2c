//! The note record: a creation time, free-text content, tags and an
//! optional description, together with a builder.

use vstd::prelude::*;
use vstd::string::StringExecFns;

use crate::tags::{holds_all, Tag, Tags};
use crate::text::{push_u64_digits, spec_u64_digits};

verus! {

/// The mathematical content of a note: four character sequences, the tag
/// list being a sequence of labels.
#[verifier::ext_equal]
pub ghost struct NoteView {
    pub created: Seq<char>,
    pub tags: Seq<Seq<char>>,
    pub content: Seq<char>,
    pub desc: Seq<char>,
}

/// A short text note. `created` holds the creation time already rendered
/// as text; editing never changes it.
#[derive(Debug)]
pub struct Note {
    pub created: String,
    pub tags: Tags,
    pub content: String,
    pub desc: String,
}

impl View for Note {
    type V = NoteView;

    open spec fn view(&self) -> NoteView {
        NoteView {
            created: self.created@,
            tags: self.tags@,
            content: self.content@,
            desc: self.desc@,
        }
    }
}

impl Clone for Note {
    fn clone(&self) -> (r: Self)
        ensures
            r@ == self@,
    {
        Note {
            created: self.created.clone(),
            tags: self.tags.clone(),
            content: self.content.clone(),
            desc: self.desc.clone(),
        }
    }
}

impl Note {
    pub fn new(created: String, tags: Tags, content: String, desc: String) -> (r: Self)
        ensures
            r@ == (NoteView { created: created@, tags: tags@, content: content@, desc: desc@ }),
    {
        Note { created, tags, content, desc }
    }

    /// Replaces the note's tag list.
    pub fn add_tags(&mut self, tags: Tags)
        ensures
            final(self)@ == (NoteView { tags: tags@, ..old(self)@ }),
    {
        self.tags = tags;
    }

    /// The creation time as text, as it was given.
    pub fn created_string(&self) -> (r: String)
        ensures
            r@ == self@.created,
    {
        self.created.clone()
    }

    /// Whether this note carries the given tag.
    pub fn has_tag(&self, tag: &Tag) -> (r: bool)
        ensures
            r == self@.tags.contains(tag@),
    {
        self.tags.has_tag(tag)
    }

    /// Whether this note carries every one of the given tags.
    pub fn has_tags(&self, other: &Tags) -> (r: bool)
        ensures
            r == holds_all(self@.tags, other@),
    {
        self.tags.contains(other)
    }
}

/// Relies on chrono's `Local::now` and `DateTime::format`: the current
/// local time, rendered as `%Y-%m-%d %H:%M:%S`. The result depends on the
/// clock, so nothing is promised of it.
#[verifier::external_body]
fn now_string() -> String {
    chrono::Local::now().format("%Y-%m-%d %H:%M:%S").to_string()
}

/// Accumulates the optional parts of a note; `build` fills what was not
/// given with defaults (the current time, no tags, empty text).
pub struct NoteBuilder {
    pub created: Option<String>,
    pub tags: Option<Tags>,
    pub content: Option<String>,
    pub desc: Option<String>,
}

impl NoteBuilder {
    pub fn new() -> (r: Self)
        ensures
            r.created is None,
            r.tags is None,
            r.content is None,
            r.desc is None,
    {
        NoteBuilder { created: None, tags: None, content: None, desc: None }
    }

    /// Sets the creation time, already rendered as text.
    pub fn with_time(self, created: String) -> (r: Self)
        ensures
            r.created == Some(created),
            r.tags == self.tags,
            r.content == self.content,
            r.desc == self.desc,
    {
        NoteBuilder { created: Some(created), ..self }
    }

    pub fn with_tags(self, tags: Tags) -> (r: Self)
        ensures
            r.tags is Some && r.tags->0@ == tags@,
            r.created == self.created,
            r.content == self.content,
            r.desc == self.desc,
    {
        NoteBuilder { tags: Some(tags), ..self }
    }

    pub fn with_content(self, content: &str) -> (r: Self)
        ensures
            r.content is Some && r.content->0@ == content@,
            r.created == self.created,
            r.tags == self.tags,
            r.desc == self.desc,
    {
        NoteBuilder { content: Some(String::from_str(content)), ..self }
    }

    pub fn with_desc(self, desc: &str) -> (r: Self)
        ensures
            r.desc is Some && r.desc->0@ == desc@,
            r.created == self.created,
            r.tags == self.tags,
            r.content == self.content,
    {
        NoteBuilder { desc: Some(String::from_str(desc)), ..self }
    }

    /// Finishes the note. A missing creation time is filled from the
    /// clock, so only a given one is promised below.
    pub fn build(self) -> (r: Note)
        ensures
            self.created is Some ==> r@.created == self.created->0@,
            r@.tags == (match self.tags {
                Some(t) => t@,
                None => Seq::<Seq<char>>::empty(),
            }),
            r@.content == (match self.content {
                Some(c) => c@,
                None => Seq::<char>::empty(),
            }),
            r@.desc == (match self.desc {
                Some(d) => d@,
                None => Seq::<char>::empty(),
            }),
    {
        let created = match self.created {
            Some(c) => c,
            None => now_string(),
        };
        let tags = match self.tags {
            Some(t) => t,
            None => Tags::empty(),
        };
        let content = match self.content {
            Some(c) => c,
            None => String::new(),
        };
        let desc = match self.desc {
            Some(d) => d,
            None => String::new(),
        };
        Note::new(created, tags, content, desc)
    }
}

/// A note paired with its positional id, for display.
pub struct NoteWithId(pub usize, pub Note);

impl NoteWithId {
    /// Pairs a note with its id.
    pub fn from_note(id: usize, note: Note) -> (r: NoteWithId)
        ensures
            r.0 == id,
            r.1 == note,
    {
        NoteWithId(id, note)
    }

    pub fn id(&self) -> (r: usize)
        ensures
            r == self.0,
    {
        self.0
    }

    pub fn created(&self) -> (r: &String)
        ensures
            r@ == self.1@.created,
    {
        &self.1.created
    }

    pub fn tags(&self) -> (r: &Tags)
        ensures
            r@ == self.1@.tags,
    {
        &self.1.tags
    }

    pub fn content(&self) -> (r: &String)
        ensures
            r@ == self.1@.content,
    {
        &self.1.content
    }

    pub fn desc(&self) -> (r: &String)
        ensures
            r@ == self.1@.desc,
    {
        &self.1.desc
    }

    /// The id in brackets, as display columns show it.
    pub fn id_string(&self) -> (r: String)
        ensures
            r@ == "["@ + spec_u64_digits(self.0 as nat) + "]"@,
    {
        let mut out = String::new();
        out.append("[");
        push_u64_digits(self.0 as u64, &mut out);
        out.append("]");
        proof {
            assert(out@ =~= "["@ + spec_u64_digits(self.0 as nat) + "]"@);
        }
        out
    }
}

} // verus!
