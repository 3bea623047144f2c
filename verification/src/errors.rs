//! Errors reported by the note collection.

use vstd::prelude::*;
use vstd::string::StringExecFns;

use crate::text::{push_u64_digits, spec_u64_digits};

verus! {

/// Why an operation on the note collection failed.
#[derive(Debug, Clone, PartialEq, Eq)]
pub enum NotesError {
    /// The given positional note id is out of bounds.
    InvalidNoteId(usize),
    /// A new note was requested from a path that names a directory.
    NewNoteFileIsDir(String),
    /// The external editor did not produce note content.
    NewNoteFromEditor(String),
    /// The stored bytes do not decode to a note collection.
    NoteDeserialization,
}

/// The human-readable description of a failure.
pub open spec fn spec_message(e: NotesError) -> Seq<char> {
    match e {
        NotesError::InvalidNoteId(i) => "Note ID `"@ + spec_u64_digits(i as nat)
            + "` is invalid."@,
        NotesError::NewNoteFileIsDir(p) => "Cannot make new note from file; `"@ + p@
            + "` is a directory."@,
        NotesError::NewNoteFromEditor(m) => "Unable to make note from editor: "@ + m@,
        NotesError::NoteDeserialization => "Unable to read notes file."@,
    }
}

impl NotesError {
    /// A human-readable description of the failure.
    pub fn message(&self) -> (r: String)
        ensures
            r@ == spec_message(*self),
    {
        let mut out = String::new();
        match self {
            NotesError::InvalidNoteId(i) => {
                out.append("Note ID `");
                push_u64_digits(*i as u64, &mut out);
                out.append("` is invalid.");
                proof {
                    assert(out@ =~= spec_message(*self));
                }
            },
            NotesError::NewNoteFileIsDir(p) => {
                out.append("Cannot make new note from file; `");
                out.append(p.as_str());
                out.append("` is a directory.");
                proof {
                    assert(out@ =~= spec_message(*self));
                }
            },
            NotesError::NewNoteFromEditor(m) => {
                out.append("Unable to make note from editor: ");
                out.append(m.as_str());
                proof {
                    assert(out@ =~= spec_message(*self));
                }
            },
            NotesError::NoteDeserialization => {
                out.append("Unable to read notes file.");
                proof {
                    assert(out@ =~= spec_message(*self));
                }
            },
        }
        out
    }
}

} // verus!
