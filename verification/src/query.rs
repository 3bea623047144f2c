//! The query builder: typed fields, predicates, ordering and limits over
//! a named table, rendered on demand to SQL-like statement text.
//!
//! Rendering interpolates string values as quoted literals with every
//! embedded single quote doubled; a value holding a control character is
//! rejected rather than interpolated.

use vstd::prelude::*;
use vstd::string::StringExecFns;

use crate::text::{
    has_ctl, push_char, push_escaped, push_i64_str, push_u64_digits, spec_escaped, spec_i64_str,
    spec_u64_digits,
};

verus! {

/// Why a statement could not be rendered.
#[derive(Debug, Clone, PartialEq, Eq)]
pub enum ValidationError {
    /// The target table name is empty.
    EmptyTableName,
    /// An update carries no column assignments.
    EmptyAssignments,
    /// A string value holds a control character.
    ControlCharacter,
}

/// A typed scalar value interpolated into statement text.
#[derive(Debug)]
pub enum Field {
    Str(String),
    Int(i64),
}

/// The literal text of a field: strings are single-quoted with embedded
/// quotes doubled, integers are bare decimal.
pub open spec fn field_text(f: Field) -> Seq<char> {
    match f {
        Field::Str(s) => seq!['\''] + spec_escaped(s@) + seq!['\''],
        Field::Int(v) => spec_i64_str(v as int),
    }
}

/// A field renders only when a string value is free of control
/// characters.
pub open spec fn field_ok(f: Field) -> bool {
    match f {
        Field::Str(s) => !has_ctl(s@),
        Field::Int(_) => true,
    }
}

impl Field {
    /// Appends this field's literal text; reports a control character.
    fn push_text(&self, out: &mut String) -> (ctl: bool)
        ensures
            final(out)@ == old(out)@ + field_text(*self),
            ctl == !field_ok(*self),
    {
        match self {
            Field::Str(s) => {
                push_char(out, '\'');
                let ctl = push_escaped(s.as_str(), out);
                push_char(out, '\'');
                proof {
                    assert(out@ =~= old(out)@ + field_text(*self));
                }
                ctl
            },
            Field::Int(v) => {
                push_i64_str(*v, out);
                false
            },
        }
    }

    /// The field as statement-literal text, unless the value holds a
    /// control character.
    pub fn render(&self) -> (r: Result<String, ValidationError>)
        ensures
            match r {
                Ok(s) => field_ok(*self) && s@ == field_text(*self),
                Err(e) => !field_ok(*self) && e == ValidationError::ControlCharacter,
            },
    {
        let mut out = String::new();
        let ctl = self.push_text(&mut out);
        if ctl {
            Err(ValidationError::ControlCharacter)
        } else {
            proof {
                assert(out@ =~= field_text(*self));
            }
            Ok(out)
        }
    }
}

/// One predicate over a column; several predicates AND-combine.
#[derive(Debug)]
pub enum Where {
    Equal(String, Field),
    Like(String, Field),
    In(String, Field),
    Between(String, Field, Field),
}

/// The statement fragment of one predicate.
pub open spec fn where_text(w: Where) -> Seq<char> {
    match w {
        Where::Equal(c, f) => c@ + " = "@ + field_text(f),
        Where::Like(c, f) => c@ + " LIKE "@ + field_text(f),
        Where::In(c, f) => c@ + " IN "@ + field_text(f),
        Where::Between(c, lo, hi) => c@ + " BETWEEN "@ + field_text(lo) + " AND "@ + field_text(
            hi,
        ),
    }
}

/// A predicate renders only when each of its fields does.
pub open spec fn where_ok(w: Where) -> bool {
    match w {
        Where::Equal(_, f) => field_ok(f),
        Where::Like(_, f) => field_ok(f),
        Where::In(_, f) => field_ok(f),
        Where::Between(_, lo, hi) => field_ok(lo) && field_ok(hi),
    }
}

impl Where {
    /// Appends this predicate's fragment; reports a control character.
    fn push_text(&self, out: &mut String) -> (ctl: bool)
        ensures
            final(out)@ == old(out)@ + where_text(*self),
            ctl == !where_ok(*self),
    {
        match self {
            Where::Equal(c, f) => {
                out.append(c.as_str());
                out.append(" = ");
                let ctl = f.push_text(out);
                proof {
                    assert(out@ =~= old(out)@ + where_text(*self));
                }
                ctl
            },
            Where::Like(c, f) => {
                out.append(c.as_str());
                out.append(" LIKE ");
                let ctl = f.push_text(out);
                proof {
                    assert(out@ =~= old(out)@ + where_text(*self));
                }
                ctl
            },
            Where::In(c, f) => {
                out.append(c.as_str());
                out.append(" IN ");
                let ctl = f.push_text(out);
                proof {
                    assert(out@ =~= old(out)@ + where_text(*self));
                }
                ctl
            },
            Where::Between(c, lo, hi) => {
                out.append(c.as_str());
                out.append(" BETWEEN ");
                let ctl_lo = lo.push_text(out);
                out.append(" AND ");
                let ctl_hi = hi.push_text(out);
                proof {
                    assert(out@ =~= old(out)@ + where_text(*self));
                }
                ctl_lo || ctl_hi
            },
        }
    }

    /// The predicate as a statement fragment, unless some string value
    /// holds a control character.
    pub fn render(&self) -> (r: Result<String, ValidationError>)
        ensures
            match r {
                Ok(s) => where_ok(*self) && s@ == where_text(*self),
                Err(e) => !where_ok(*self) && e == ValidationError::ControlCharacter,
            },
    {
        let mut out = String::new();
        let ctl = self.push_text(&mut out);
        if ctl {
            Err(ValidationError::ControlCharacter)
        } else {
            proof {
                assert(out@ =~= where_text(*self));
            }
            Ok(out)
        }
    }
}

/// The requested row order; at most one per query, the last one set wins.
#[derive(Debug)]
pub enum Order {
    Ascending(String),
    Descending(String),
}

/// A row-count bound with an offset; the last one set wins.
#[derive(Debug, Clone, Copy, PartialEq, Eq, Structural)]
pub struct Limit {
    pub count: usize,
    pub offset: usize,
}

/// What a query does: fetch columns, assign column values, or delete.
/// The kind is fixed when the query is constructed.
#[derive(Debug)]
pub enum QueryKind {
    Get(Vec<String>),
    Update(Vec<(String, String)>),
    Delete,
}

/// One statement under construction: a kind over a named table, with
/// accumulated predicates and optional order and limit.
#[derive(Debug)]
pub struct Query {
    pub kind: QueryKind,
    pub table: String,
    pub wheres: Vec<Where>,
    pub order: Option<Order>,
    pub limit: Option<Limit>,
}

/// Items joined by a separator, in order, nothing added around them.
pub open spec fn spec_join(items: Seq<Seq<char>>, sep: Seq<char>) -> Seq<char>
    decreases items.len(),
{
    if items.len() == 0 {
        Seq::<char>::empty()
    } else if items.len() == 1 {
        items[0]
    } else {
        spec_join(items.drop_last(), sep) + sep + items.last()
    }
}

/// Joining one more item appends a separator first, except before the
/// first item.
proof fn lemma_join_step(items: Seq<Seq<char>>, sep: Seq<char>, i: int)
    requires
        0 <= i < items.len(),
    ensures
        spec_join(items.take(i + 1), sep) == if i == 0 {
            items[0]
        } else {
            spec_join(items.take(i), sep) + sep + items[i]
        },
{
    let ext = items.take(i + 1);
    assert(ext.drop_last() =~= items.take(i));
    assert(ext.last() == items[i]);
}

/// The text of one update assignment: the column, an equals sign, the
/// raw value.
pub open spec fn assign_text(a: (String, String)) -> Seq<char> {
    a.0@ + " = "@ + a.1@
}

/// The statement head: what the query does and to which table.
pub open spec fn head_text(q: Query) -> Seq<char> {
    match q.kind {
        QueryKind::Get(cols) => "SELECT "@ + spec_join(cols.deep_view(), ", "@) + " FROM "@
            + q.table@,
        QueryKind::Update(assigns) => "UPDATE "@ + q.table@ + "\nSET "@ + spec_join(
            assigns@.map_values(|a: (String, String)| assign_text(a)),
            ", "@,
        ),
        QueryKind::Delete => "DELETE FROM "@ + q.table@,
    }
}

/// The WHERE line: absent without predicates, else all of them joined
/// with AND.
pub open spec fn where_clause(ws: Seq<Where>) -> Seq<char> {
    if ws.len() == 0 {
        Seq::<char>::empty()
    } else {
        "\nWHERE "@ + spec_join(ws.map_values(|w: Where| where_text(w)), " AND "@)
    }
}

/// The ORDER BY line, absent when no order was requested.
pub open spec fn order_clause(o: Option<Order>) -> Seq<char> {
    match o {
        Option::None => Seq::<char>::empty(),
        Option::Some(Order::Ascending(c)) => "\nORDER BY "@ + c@ + " ASC"@,
        Option::Some(Order::Descending(c)) => "\nORDER BY "@ + c@ + " DESC"@,
    }
}

/// The LIMIT line, absent when no limit was requested.
pub open spec fn limit_clause(l: Option<Limit>) -> Seq<char> {
    match l {
        Option::None => Seq::<char>::empty(),
        Option::Some(lim) => "\nLIMIT "@ + spec_u64_digits(lim.count as nat) + " OFFSET "@
            + spec_u64_digits(lim.offset as nat),
    }
}

/// The whole statement: head, then WHERE, ORDER BY and LIMIT, each on
/// its own line and omitted entirely when absent.
pub open spec fn query_text(q: Query) -> Seq<char> {
    head_text(q) + where_clause(q.wheres@) + order_clause(q.order) + limit_clause(q.limit)
}

/// Every predicate of the sequence renders.
pub open spec fn wheres_ok(ws: Seq<Where>) -> bool {
    forall|i: int| 0 <= i < ws.len() ==> where_ok(#[trigger] ws[i])
}

/// A query renders exactly when its table is named, an update assigns at
/// least one column, and no string value holds a control character.
pub open spec fn query_ok(q: Query) -> bool {
    &&& q.table@.len() > 0
    &&& (match q.kind {
        QueryKind::Update(assigns) => assigns@.len() > 0,
        _ => true,
    })
    &&& wheres_ok(q.wheres@)
}

/// Which error a query that does not render reports: an empty table name
/// first, then an empty assignment list, then a control character.
pub open spec fn query_error(q: Query) -> ValidationError {
    if q.table@.len() == 0 {
        ValidationError::EmptyTableName
    } else if (q.kind matches QueryKind::Update(assigns) && assigns@.len() == 0) {
        ValidationError::EmptyAssignments
    } else {
        ValidationError::ControlCharacter
    }
}

/// Appends the column list of a fetch, comma separated.
fn push_columns(cols: &Vec<String>, out: &mut String)
    ensures
        final(out)@ == old(out)@ + spec_join(cols.deep_view(), ", "@),
{
    let ghost base = out@;
    let mut i: usize = 0;
    proof {
        assert(out@ =~= base + spec_join(cols.deep_view().take(0), ", "@));
    }
    while i < cols.len()
        invariant
            i <= cols.len(),
            cols.deep_view().len() == cols@.len(),
            forall|j: int| 0 <= j < cols@.len() ==> cols.deep_view()[j] == cols@[j]@,
            out@ == base + spec_join(cols.deep_view().take(i as int), ", "@),
        decreases cols.len() - i,
    {
        proof {
            lemma_join_step(cols.deep_view(), ", "@, i as int);
        }
        if i > 0 {
            out.append(", ");
        }
        out.append(cols[i].as_str());
        i += 1;
    }
    proof {
        assert(cols.deep_view().take(cols@.len() as int) =~= cols.deep_view());
    }
}

/// Appends the SET assignments of an update, comma separated.
fn push_assigns(assigns: &Vec<(String, String)>, out: &mut String)
    ensures
        final(out)@ == old(out)@ + spec_join(
            assigns@.map_values(|a: (String, String)| assign_text(a)),
            ", "@,
        ),
{
    let ghost texts = assigns@.map_values(|a: (String, String)| assign_text(a));
    let ghost base = out@;
    let mut i: usize = 0;
    proof {
        assert(out@ =~= base + spec_join(texts.take(0), ", "@));
    }
    while i < assigns.len()
        invariant
            i <= assigns.len(),
            texts == assigns@.map_values(|a: (String, String)| assign_text(a)),
            texts.len() == assigns@.len(),
            out@ == base + spec_join(texts.take(i as int), ", "@),
        decreases assigns.len() - i,
    {
        proof {
            lemma_join_step(texts, ", "@, i as int);
        }
        if i > 0 {
            out.append(", ");
        }
        out.append(assigns[i].0.as_str());
        out.append(" = ");
        out.append(assigns[i].1.as_str());
        proof {
            assert(texts[i as int] == assign_text(assigns@[i as int]));
            assert(out@ =~= base + spec_join(texts.take(i + 1), ", "@));
        }
        i += 1;
    }
    proof {
        assert(texts.take(assigns@.len() as int) =~= texts);
    }
}

/// Appends the WHERE line when there are predicates; reports a control
/// character in any of them.
fn push_wheres(ws: &Vec<Where>, out: &mut String) -> (ctl: bool)
    ensures
        final(out)@ == old(out)@ + where_clause(ws@),
        ctl == !wheres_ok(ws@),
{
    if ws.len() == 0 {
        proof {
            assert(out@ =~= old(out)@ + where_clause(ws@));
        }
        return false;
    }
    out.append("\nWHERE ");
    let ghost texts = ws@.map_values(|w: Where| where_text(w));
    let ghost base = out@;
    let mut ctl = false;
    let mut i: usize = 0;
    proof {
        assert(out@ =~= base + spec_join(texts.take(0), " AND "@));
    }
    while i < ws.len()
        invariant
            i <= ws.len(),
            texts == ws@.map_values(|w: Where| where_text(w)),
            texts.len() == ws@.len(),
            out@ == base + spec_join(texts.take(i as int), " AND "@),
            ctl == !wheres_ok(ws@.take(i as int)),
        decreases ws.len() - i,
    {
        proof {
            lemma_join_step(texts, " AND "@, i as int);
        }
        if i > 0 {
            out.append(" AND ");
        }
        let prev_ctl = ctl;
        let this_ctl = ws[i].push_text(out);
        ctl = prev_ctl || this_ctl;
        proof {
            assert(texts[i as int] == where_text(ws@[i as int]));
            assert(out@ =~= base + spec_join(texts.take(i + 1), " AND "@));
            assert forall|j: int| 0 <= j < i + 1 implies (#[trigger] ws@.take(i + 1)[j])
                == ws@[j] by {}
            if this_ctl {
                assert(ws@.take(i + 1)[i as int] == ws@[i as int]);
                assert(!wheres_ok(ws@.take(i + 1)));
            } else if prev_ctl {
                let j = choose|j: int| 0 <= j < i && !where_ok(#[trigger] ws@.take(i as int)[j]);
                assert(ws@.take(i + 1)[j] == ws@.take(i as int)[j]);
                assert(!wheres_ok(ws@.take(i + 1)));
            } else {
                assert forall|j: int| 0 <= j < i + 1 implies where_ok(
                    #[trigger] ws@.take(i + 1)[j],
                ) by {
                    if j < i {
                        assert(where_ok(ws@.take(i as int)[j]));
                    }
                }
            }
        }
        i += 1;
    }
    proof {
        assert(texts.take(ws@.len() as int) =~= texts);
        assert(ws@.take(ws@.len() as int) =~= ws@);
        assert(out@ =~= old(out)@ + where_clause(ws@));
    }
    ctl
}

/// Appends the ORDER BY line when an order was requested.
fn push_order(o: &Option<Order>, out: &mut String)
    ensures
        final(out)@ == old(out)@ + order_clause(*o),
{
    match o {
        Option::None => {},
        Option::Some(Order::Ascending(c)) => {
            out.append("\nORDER BY ");
            out.append(c.as_str());
            out.append(" ASC");
        },
        Option::Some(Order::Descending(c)) => {
            out.append("\nORDER BY ");
            out.append(c.as_str());
            out.append(" DESC");
        },
    }
    proof {
        assert(out@ =~= old(out)@ + order_clause(*o));
    }
}

/// Appends the LIMIT line when a limit was requested.
fn push_limit(l: &Option<Limit>, out: &mut String)
    ensures
        final(out)@ == old(out)@ + limit_clause(*l),
{
    match l {
        Option::None => {},
        Option::Some(lim) => {
            out.append("\nLIMIT ");
            push_u64_digits(lim.count as u64, out);
            out.append(" OFFSET ");
            push_u64_digits(lim.offset as u64, out);
        },
    }
    proof {
        assert(out@ =~= old(out)@ + limit_clause(*l));
    }
}

impl Query {
    /// A fetch of the given columns from the given table.
    pub fn new_get(table: String, columns: Vec<String>) -> (r: Query)
        ensures
            r.table == table,
            r.kind matches QueryKind::Get(c) && c == columns,
            r.wheres@ == Seq::<Where>::empty(),
            r.order is None,
            r.limit is None,
    {
        Query { kind: QueryKind::Get(columns), table, wheres: Vec::new(), order: None, limit: None }
    }

    /// An update of the given column assignments on the given table.
    pub fn new_update(table: String, assignments: Vec<(String, String)>) -> (r: Query)
        ensures
            r.table == table,
            r.kind matches QueryKind::Update(a) && a == assignments,
            r.wheres@ == Seq::<Where>::empty(),
            r.order is None,
            r.limit is None,
    {
        Query {
            kind: QueryKind::Update(assignments),
            table,
            wheres: Vec::new(),
            order: None,
            limit: None,
        }
    }

    /// A deletion from the given table.
    pub fn new_delete(table: String) -> (r: Query)
        ensures
            r.table == table,
            r.kind is Delete,
            r.wheres@ == Seq::<Where>::empty(),
            r.order is None,
            r.limit is None,
    {
        Query { kind: QueryKind::Delete, table, wheres: Vec::new(), order: None, limit: None }
    }

    /// Adds one predicate; predicates accumulate and AND-combine.
    pub fn add_where(self, w: Where) -> (r: Query)
        ensures
            r.kind == self.kind,
            r.table == self.table,
            r.wheres@ == self.wheres@.push(w),
            r.order == self.order,
            r.limit == self.limit,
    {
        let mut wheres = self.wheres;
        wheres.push(w);
        Query { wheres, ..self }
    }

    /// Sets the row order, replacing any previous one.
    pub fn add_order(self, o: Order) -> (r: Query)
        ensures
            r.kind == self.kind,
            r.table == self.table,
            r.wheres@ == self.wheres@,
            r.order == Some(o),
            r.limit == self.limit,
    {
        Query { order: Some(o), ..self }
    }

    /// Sets the row-count limit, replacing any previous one.
    pub fn add_limit(self, l: Limit) -> (r: Query)
        ensures
            r.kind == self.kind,
            r.table == self.table,
            r.wheres@ == self.wheres@,
            r.order == self.order,
            r.limit == Some(l),
    {
        Query { limit: Some(l), ..self }
    }

    /// The full statement text, or exactly why it cannot be produced.
    pub fn render(&self) -> (r: Result<String, ValidationError>)
        ensures
            match r {
                Ok(s) => query_ok(*self) && s@ == query_text(*self),
                Err(e) => !query_ok(*self) && e == query_error(*self),
            },
    {
        if self.table.unicode_len() == 0 {
            return Err(ValidationError::EmptyTableName);
        }
        let mut out = String::new();
        match &self.kind {
            QueryKind::Get(cols) => {
                out.append("SELECT ");
                push_columns(cols, &mut out);
                out.append(" FROM ");
                out.append(self.table.as_str());
                proof {
                    assert(out@ =~= head_text(*self));
                }
            },
            QueryKind::Update(assigns) => {
                if assigns.len() == 0 {
                    return Err(ValidationError::EmptyAssignments);
                }
                out.append("UPDATE ");
                out.append(self.table.as_str());
                out.append("\nSET ");
                push_assigns(assigns, &mut out);
                proof {
                    assert(out@ =~= head_text(*self));
                }
            },
            QueryKind::Delete => {
                out.append("DELETE FROM ");
                out.append(self.table.as_str());
                proof {
                    assert(out@ =~= head_text(*self));
                }
            },
        }
        let ctl = push_wheres(&self.wheres, &mut out);
        push_order(&self.order, &mut out);
        push_limit(&self.limit, &mut out);
        if ctl {
            return Err(ValidationError::ControlCharacter);
        }
        proof {
            assert(out@ =~= query_text(*self));
        }
        Ok(out)
    }
}

/// The statement that fetches every column of the notes whose title
/// matches: exactly when `exact` is set, else as a LIKE pattern.
pub fn get_notes_with_title(table: String, title: String, exact: bool) -> (q: Query)
    ensures
        q.table == table,
        q.kind matches QueryKind::Get(c) && c.deep_view() == seq!["*"@],
        q.wheres@.len() == 1,
        exact ==> (q.wheres@[0] matches Where::Equal(c, Field::Str(t)) && c@ == "title"@ && t
            == title),
        !exact ==> (q.wheres@[0] matches Where::Like(c, Field::Str(t)) && c@ == "title"@ && t
            == title),
        q.order is None,
        q.limit is None,
{
    let mut columns: Vec<String> = Vec::new();
    columns.push(String::from_str("*"));
    proof {
        assert(columns.deep_view() =~= seq!["*"@]);
    }
    let q = Query::new_get(table, columns);
    let w = if exact {
        Where::Equal(String::from_str("title"), Field::Str(title))
    } else {
        Where::Like(String::from_str("title"), Field::Str(title))
    };
    q.add_where(w)
}

/// The statement that deletes the notes whose title matches: exactly
/// when `exact` is set, else as a LIKE pattern.
pub fn delete_notes_with_title(table: String, title: String, exact: bool) -> (q: Query)
    ensures
        q.table == table,
        q.kind is Delete,
        q.wheres@.len() == 1,
        exact ==> (q.wheres@[0] matches Where::Equal(c, Field::Str(t)) && c@ == "title"@ && t
            == title),
        !exact ==> (q.wheres@[0] matches Where::Like(c, Field::Str(t)) && c@ == "title"@ && t
            == title),
        q.order is None,
        q.limit is None,
{
    let q = Query::new_delete(table);
    let w = if exact {
        Where::Equal(String::from_str("title"), Field::Str(title))
    } else {
        Where::Like(String::from_str("title"), Field::Str(title))
    };
    q.add_where(w)
}

} // verus!
