use notes::query::{
    delete_notes_with_title, get_notes_with_title, Field, Limit, Order, Query, ValidationError,
    Where,
};

fn s(text: &str) -> String {
    text.to_string()
}

#[test]
fn get_with_equal_where_renders_exactly() {
    let q = Query::new_get(s("notes"), vec![s("*")])
        .add_where(Where::Equal(s("title"), Field::Str(s("Day 12"))));
    assert_eq!(q.render().unwrap(), "SELECT * FROM notes\nWHERE title = 'Day 12'");
}

#[test]
fn embedded_quote_is_escaped() {
    let q = Query::new_get(s("notes"), vec![s("*")])
        .add_where(Where::Equal(s("title"), Field::Str(s("Day's end"))));
    assert_eq!(q.render().unwrap(), "SELECT * FROM notes\nWHERE title = 'Day''s end'");
}

#[test]
fn control_character_is_rejected() {
    let q = Query::new_get(s("notes"), vec![s("*")])
        .add_where(Where::Equal(s("title"), Field::Str(s("two\nlines"))));
    assert_eq!(q.render().unwrap_err(), ValidationError::ControlCharacter);
}

#[test]
fn update_single_assignment_is_not_truncated() {
    let q = Query::new_update(s("notes"), vec![(s("content"), s("x"))]);
    assert_eq!(q.render().unwrap(), "UPDATE notes\nSET content = x");
}

#[test]
fn update_multi_assignment_joins_with_commas() {
    let q = Query::new_update(s("notes"), vec![(s("content"), s("x")), (s("title"), s("y"))]);
    assert_eq!(q.render().unwrap(), "UPDATE notes\nSET content = x, title = y");
}

#[test]
fn update_without_assignments_is_rejected() {
    let q = Query::new_update(s("notes"), vec![]);
    assert_eq!(q.render().unwrap_err(), ValidationError::EmptyAssignments);
}

#[test]
fn empty_table_name_is_rejected() {
    let q = Query::new_get(s(""), vec![s("*")]);
    assert_eq!(q.render().unwrap_err(), ValidationError::EmptyTableName);
    let q = Query::new_delete(s(""));
    assert_eq!(q.render().unwrap_err(), ValidationError::EmptyTableName);
}

#[test]
fn wheres_accumulate_and_join_with_and() {
    let q = Query::new_delete(s("notes"))
        .add_where(Where::Like(s("title"), Field::Str(s("Day%"))))
        .add_where(Where::Between(s("id"), Field::Int(2), Field::Int(7)));
    assert_eq!(
        q.render().unwrap(),
        "DELETE FROM notes\nWHERE title LIKE 'Day%' AND id BETWEEN 2 AND 7"
    );
}

#[test]
fn order_and_limit_take_the_last_value_set() {
    let q = Query::new_get(s("notes"), vec![s("id"), s("content")])
        .add_order(Order::Ascending(s("id")))
        .add_order(Order::Descending(s("created")))
        .add_limit(Limit { count: 99, offset: 0 })
        .add_limit(Limit { count: 10, offset: 2 });
    assert_eq!(
        q.render().unwrap(),
        "SELECT id, content FROM notes\nORDER BY created DESC\nLIMIT 10 OFFSET 2"
    );
}

#[test]
fn ascending_order_renders_asc() {
    let q = Query::new_get(s("notes"), vec![s("*")]).add_order(Order::Ascending(s("id")));
    assert_eq!(q.render().unwrap(), "SELECT * FROM notes\nORDER BY id ASC");
}

#[test]
fn field_renders_quoted_strings_and_bare_integers() {
    assert_eq!(Field::Str(s("plain")).render().unwrap(), "'plain'");
    assert_eq!(Field::Str(s("a'b")).render().unwrap(), "'a''b'");
    assert_eq!(Field::Int(0).render().unwrap(), "0");
    assert_eq!(Field::Int(-42).render().unwrap(), "-42");
    assert_eq!(Field::Int(1203).render().unwrap(), "1203");
    assert_eq!(Field::Int(i64::MIN).render().unwrap(), "-9223372036854775808");
    assert_eq!(
        Field::Str(s("tab\tinside")).render().unwrap_err(),
        ValidationError::ControlCharacter
    );
}

#[test]
fn where_fragments_render() {
    assert_eq!(
        Where::In(s("id"), Field::Str(s("(1, 2)"))).render().unwrap(),
        "id IN '(1, 2)'"
    );
    assert_eq!(
        Where::Between(s("id"), Field::Int(1), Field::Int(3)).render().unwrap(),
        "id BETWEEN 1 AND 3"
    );
}

#[test]
fn title_helpers_render_equal_or_like() {
    let q = get_notes_with_title(s("notes"), s("Day 12"), true);
    assert_eq!(q.render().unwrap(), "SELECT * FROM notes\nWHERE title = 'Day 12'");
    let q = get_notes_with_title(s("notes"), s("Day%"), false);
    assert_eq!(q.render().unwrap(), "SELECT * FROM notes\nWHERE title LIKE 'Day%'");
    let q = delete_notes_with_title(s("notes"), s("Day 12"), true);
    assert_eq!(q.render().unwrap(), "DELETE FROM notes\nWHERE title = 'Day 12'");
    let q = delete_notes_with_title(s("notes"), s("Day%"), false);
    assert_eq!(q.render().unwrap(), "DELETE FROM notes\nWHERE title LIKE 'Day%'");
}
