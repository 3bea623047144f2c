use notes::errors::NotesError;
use notes::note::Note;
use notes::notes::Notes;
use notes::tags::Tags;

fn note(created: &str, content: &str, tags: Vec<&str>, desc: &str) -> Note {
    let labels: Vec<String> = tags.iter().map(|t| t.to_string()).collect();
    Note::new(
        created.to_string(),
        Tags::from_vec(labels),
        content.to_string(),
        desc.to_string(),
    )
}

#[test]
fn round_trip_reproduces_every_field() {
    let mut original = Notes::new(vec![
        note("2020-02-28 17:05:29", "Today's diary...", vec!["diary", "daily"], "long day"),
        note("2021-06-01 08:00:00", "héllo wörld \u{2295}", vec![], ""),
        note("", "", vec!["", "dup", "dup"], "only a description"),
    ]);
    let bytes = original.to_bytes();
    let loaded = Notes::from_bytes(&bytes).unwrap();
    assert_eq!(loaded.len(), original.len());
    for i in 0..original.len() {
        let a = original.get(i).unwrap();
        let b = loaded.get(i).unwrap();
        assert_eq!(a.created, b.created);
        assert_eq!(a.content, b.content);
        assert_eq!(a.desc, b.desc);
        assert_eq!(a.tags.to_vec(), b.tags.to_vec());
    }
    // The loaded copy behaves as the original would.
    let removed = original.delete(0).unwrap();
    assert_eq!(removed.content, "Today's diary...");
}

#[test]
fn empty_collection_round_trips() {
    let empty = Notes::new(vec![]);
    let bytes = empty.to_bytes();
    // Just the note count: zero, as eight little-endian bytes.
    assert_eq!(bytes, vec![0u8; 8]);
    let loaded = Notes::from_bytes(&bytes).unwrap();
    assert_eq!(loaded.len(), 0);
}

#[test]
fn one_note_encodes_as_counted_texts() {
    let one = Notes::new(vec![note("ab", "c", vec![], "")]);
    let bytes = one.to_bytes();
    let mut expected: Vec<u8> = vec![];
    expected.extend_from_slice(&[1, 0, 0, 0, 0, 0, 0, 0]); // one note
    expected.extend_from_slice(&[2, 0, 0, 0, 0, 0, 0, 0]); // created: two chars
    expected.extend_from_slice(&[0x61, 0, 0, 0]); // 'a'
    expected.extend_from_slice(&[0x62, 0, 0, 0]); // 'b'
    expected.extend_from_slice(&[0, 0, 0, 0, 0, 0, 0, 0]); // no tags
    expected.extend_from_slice(&[1, 0, 0, 0, 0, 0, 0, 0]); // content: one char
    expected.extend_from_slice(&[0x63, 0, 0, 0]); // 'c'
    expected.extend_from_slice(&[0, 0, 0, 0, 0, 0, 0, 0]); // empty description
    assert_eq!(bytes, expected);
}

#[test]
fn garbage_bytes_fail_to_decode() {
    let err = Notes::from_bytes(&vec![1u8, 2, 3]).unwrap_err();
    assert_eq!(err, NotesError::NoteDeserialization);
}

#[test]
fn trailing_bytes_fail_to_decode() {
    let mut bytes = Notes::new(vec![note("t", "c", vec![], "")]).to_bytes();
    bytes.push(0u8);
    let err = Notes::from_bytes(&bytes).unwrap_err();
    assert_eq!(err, NotesError::NoteDeserialization);
}

#[test]
fn corrupt_character_fails_to_decode() {
    // One note whose content claims one character that is a surrogate
    // value, which no character can carry.
    let mut bytes = Notes::new(vec![]).to_bytes();
    // Rewrite the note count from zero to one by hand, then append a
    // malformed note: empty created, no tags, content of one bad char.
    bytes[0] = 1;
    bytes.extend_from_slice(&[0u8; 8]); // created: zero characters
    bytes.extend_from_slice(&[0u8; 8]); // tags: zero entries
    bytes.extend_from_slice(&[1, 0, 0, 0, 0, 0, 0, 0]); // content: one character
    bytes.extend_from_slice(&[0x00, 0xD8, 0x00, 0x00]); // 0xD800: a surrogate
    bytes.extend_from_slice(&[0u8; 8]); // desc: zero characters
    let err = Notes::from_bytes(&bytes).unwrap_err();
    assert_eq!(err, NotesError::NoteDeserialization);
}

#[test]
fn truncated_bytes_fail_to_decode() {
    let bytes = Notes::new(vec![note("stamp", "content", vec!["tag"], "d")]).to_bytes();
    let cut: Vec<u8> = bytes[..bytes.len() - 3].to_vec();
    let err = Notes::from_bytes(&cut).unwrap_err();
    assert_eq!(err, NotesError::NoteDeserialization);
}

#[test]
fn error_messages_name_the_failure() {
    assert_eq!(
        NotesError::InvalidNoteId(3).message(),
        "Note ID `3` is invalid."
    );
    assert_eq!(
        NotesError::InvalidNoteId(120).message(),
        "Note ID `120` is invalid."
    );
    assert_eq!(
        NotesError::NewNoteFileIsDir("/tmp".to_string()).message(),
        "Cannot make new note from file; `/tmp` is a directory."
    );
    assert_eq!(
        NotesError::NewNoteFromEditor("File not saved.".to_string()).message(),
        "Unable to make note from editor: File not saved."
    );
    assert_eq!(
        NotesError::NoteDeserialization.message(),
        "Unable to read notes file."
    );
}
