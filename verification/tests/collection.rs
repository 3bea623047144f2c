use notes::note::{Note, NoteBuilder};
use notes::notes::Notes;
use notes::tags::{Tag, Tags};

fn tagged(created: &str, content: &str, tags: Vec<&str>) -> Note {
    let labels: Vec<String> = tags.iter().map(|t| t.to_string()).collect();
    Note::new(
        created.to_string(),
        Tags::from_vec(labels),
        content.to_string(),
        String::new(),
    )
}

#[test]
fn push_then_get_returns_the_note() {
    let mut notes = Notes::new(vec![]);
    let n = tagged("2020-02-28 17:05:29", "hello", vec!["a", "b"]);
    let id = notes.push(n);
    assert_eq!(id, 0);
    let got = notes.get(id).unwrap();
    assert_eq!(got.content, "hello");
    assert_eq!(got.tags.to_vec(), vec!["a".to_string(), "b".to_string()]);
    assert_eq!(got.created, "2020-02-28 17:05:29");
}

#[test]
fn push_returns_last_index() {
    let mut notes = Notes::new(vec![tagged("t", "first", vec![])]);
    let id = notes.push(tagged("t", "second", vec![]));
    assert_eq!(id, 1);
    assert_eq!(notes.len(), 2);
}

#[test]
fn delete_shifts_later_notes_down() {
    let mut notes = Notes::new(vec![
        tagged("t0", "zero", vec![]),
        tagged("t1", "one", vec![]),
        tagged("t2", "two", vec![]),
    ]);
    let removed = notes.delete(1).unwrap();
    assert_eq!(removed.content, "one");
    assert_eq!(notes.len(), 2);
    assert_eq!(notes.get(0).unwrap().content, "zero");
    assert_eq!(notes.get(1).unwrap().content, "two");
}

#[test]
fn delete_out_of_bounds_fails_and_keeps_notes() {
    let mut notes = Notes::new(vec![tagged("t", "only", vec![])]);
    let err = notes.delete(5).unwrap_err();
    assert_eq!(err, notes::errors::NotesError::InvalidNoteId(5));
    assert_eq!(notes.len(), 1);
    assert_eq!(notes.get(0).unwrap().content, "only");
}

#[test]
fn edit_content_changes_only_content() {
    let mut notes = Notes::new(vec![tagged("stamp", "before", vec!["keep"])]);
    let edited = notes.edit(0, Some("after".to_string()), None).unwrap();
    assert_eq!(edited.content, "after");
    assert_eq!(edited.created, "stamp");
    assert_eq!(edited.tags.to_vec(), vec!["keep".to_string()]);
    let stored = notes.get(0).unwrap();
    assert_eq!(stored.content, "after");
    assert_eq!(stored.created, "stamp");
    assert_eq!(stored.tags.to_vec(), vec!["keep".to_string()]);
}

#[test]
fn edit_tags_changes_only_tags() {
    let mut notes = Notes::new(vec![tagged("stamp", "text", vec!["old"])]);
    let new_tags = Tags::from_vec(vec!["new".to_string()]);
    let edited = notes.edit(0, None, Some(new_tags)).unwrap();
    assert_eq!(edited.content, "text");
    assert_eq!(edited.created, "stamp");
    assert_eq!(edited.tags.to_vec(), vec!["new".to_string()]);
}

#[test]
fn edit_out_of_bounds_fails() {
    let mut notes = Notes::new(vec![]);
    let err = notes.edit(0, Some("x".to_string()), None).unwrap_err();
    assert_eq!(err, notes::errors::NotesError::InvalidNoteId(0));
}

#[test]
fn get_all_is_none_only_when_empty() {
    let notes = Notes::new(vec![]);
    assert!(notes.get_all().is_none());
    assert!(notes.get_all_with_id().is_none());
    let notes = Notes::new(vec![tagged("t", "a", vec![])]);
    assert_eq!(notes.get_all().unwrap().len(), 1);
    let with_id = notes.get_all_with_id().unwrap();
    assert_eq!(with_id.len(), 1);
    assert_eq!(with_id[0].id(), 0);
    assert_eq!(with_id[0].content(), "a");
}

#[test]
fn get_out_of_bounds_is_none() {
    let notes = Notes::new(vec![tagged("t", "a", vec![])]);
    assert!(notes.get(1).is_none());
    assert!(notes.get_with_id(1).is_none());
    let pair = notes.get_with_id(0).unwrap();
    assert_eq!(pair.id(), 0);
    assert_eq!(pair.id_string(), "[0]");
    assert_eq!(pair.created(), "t");
    assert_eq!(pair.desc(), "");
}

#[test]
fn tag_filters_use_containment() {
    let notes = Notes::new(vec![tagged("t", "abc", vec!["a", "b", "c"])]);
    let hit = notes
        .get_all_with_tags(Tags::from_vec(vec!["a".to_string(), "b".to_string()]))
        .unwrap();
    assert_eq!(hit.len(), 1);
    assert_eq!(hit[0].id(), 0);
    assert_eq!(hit[0].content(), "abc");
    let hit = notes.get_all_with_tag(Tag::new("a".to_string())).unwrap();
    assert_eq!(hit.len(), 1);
    let miss = notes.get_all_with_tags(Tags::from_vec(vec!["a".to_string(), "d".to_string()]));
    assert!(miss.is_none());
}

#[test]
fn tag_filter_keeps_positions_and_order() {
    let notes = Notes::new(vec![
        tagged("t0", "zero", vec!["x"]),
        tagged("t1", "one", vec![]),
        tagged("t2", "two", vec!["x", "y"]),
    ]);
    let hits = notes.get_all_with_tag(Tag::new("x".to_string())).unwrap();
    assert_eq!(hits.len(), 2);
    assert_eq!(hits[0].id(), 0);
    assert_eq!(hits[0].content(), "zero");
    assert_eq!(hits[1].id(), 2);
    assert_eq!(hits[1].content(), "two");
}

#[test]
fn builder_fills_defaults() {
    let note = NoteBuilder::new()
        .with_time("2021-01-01 00:00:00".to_string())
        .with_content("body")
        .with_desc("why")
        .build();
    assert_eq!(note.created, "2021-01-01 00:00:00");
    assert_eq!(note.content, "body");
    assert_eq!(note.desc, "why");
    assert_eq!(note.tags.len(), 0);
    assert_eq!(note.created_string(), "2021-01-01 00:00:00");
}

#[test]
fn builder_without_time_takes_the_clock() {
    let note = NoteBuilder::new().with_content("x").build();
    assert_eq!(note.content, "x");
    // The clock string has the shape YYYY-MM-DD HH:MM:SS.
    assert_eq!(note.created.len(), 19);
}

#[test]
fn tags_membership_and_duplicates() {
    let mut tags = Tags::from_vec(vec!["a".to_string()]);
    tags.push(Tag::new("a".to_string()));
    assert_eq!(tags.len(), 2);
    assert!(tags.has_tag(&Tag::new("a".to_string())));
    assert!(!tags.has_tag(&Tag::new("b".to_string())));
    assert!(tags.contains(&Tags::from_vec(vec!["a".to_string()])));
    assert!(!tags.contains(&Tags::from_vec(vec!["a".to_string(), "b".to_string()])));
    assert_eq!(tags.tags().len(), 2);
    assert_eq!(tags.tags()[0].name(), "a");
}

#[test]
fn note_tag_queries() {
    let mut note = tagged("t", "c", vec!["a"]);
    assert!(note.has_tag(&Tag::new("a".to_string())));
    assert!(!note.has_tag(&Tag::new("b".to_string())));
    note.add_tags(Tags::from_vec(vec!["b".to_string()]));
    assert!(!note.has_tag(&Tag::new("a".to_string())));
    assert!(note.has_tags(&Tags::from_vec(vec!["b".to_string()])));
    assert!(note.has_tags(&Tags::from_vec(vec![])));
}
