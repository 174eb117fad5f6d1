//! UPDATE: which columns are written, and from what.
use vstd::prelude::*;
use vstd::string::*;

use super::assign::mismatch;
use super::sql_text::{rows_by_id_query, rows_by_id_sql};
use crate::error::{other, CoreError, QueryError, Result};
use crate::expr::{Expr, Operator};
use crate::plan::full_schema_of;
use crate::scalar::{
    columns_are_found_by_name, field_names, is_of_type, null_of, typed_null, Scalar, ScalarValue,
    ScalarView, Schema,
};
use crate::storage::{located_all, match_locs, MatchLoc};

verus! {

/// The number of data columns of a table whose schema ends with the two
/// columns `_rowid` and `_rowaddr`.
pub open spec fn data_width(schema: Schema) -> nat {
    if schema.fields@.len() < 2 {
        0
    } else {
        (schema.fields@.len() - 2) as nat
    }
}

/// The names of the data columns.
pub open spec fn data_columns(schema: Schema) -> Seq<Seq<char>> {
    field_names(schema.fields@.take(data_width(schema) as int))
}

/// Whether a table has a data column of that name.
pub fn has_data_column(schema: &Schema, name: &String) -> (r: bool)
    ensures
        r == data_columns(*schema).contains(name@),
{
    let n: usize = if schema.fields.len() < 2 {
        0
    } else {
        schema.fields.len() - 2
    };
    let ghost names = data_columns(*schema);
    assert(names.len() == n);
    let mut i: usize = 0;
    while i < n
        invariant
            i <= n <= schema.fields@.len(),
            names == data_columns(*schema),
            names.len() == n == data_width(*schema),
            forall|k: int| 0 <= k < i ==> names[k] != name@,
        decreases n - i,
    {
        assert(names[i as int] == schema.fields@[i as int].name@);
        if schema.fields[i].name == *name {
            return true;
        }
        i = i + 1;
    }
    false
}

/// The constant that an expression is: a literal, or an alias of one. A cast
/// is not looked into, as it may give another value than the column's type
/// would.
pub open spec fn literal_of(e: Expr) -> Option<ScalarView>
    decreases e,
{
    match e {
        Expr::Literal(v) => Some(v@),
        Expr::Alias { expr, .. } => literal_of(*expr),
        _ => None,
    }
}

pub fn expr_as_literal(e: &Expr) -> (r: Option<ScalarValue>)
    ensures
        r is Some <==> literal_of(*e) is Some,
        r matches Some(v) ==> literal_of(*e) == Some(v@),
    decreases e,
{
    match e {
        Expr::Literal(v) => Some(v.copied()),
        Expr::Alias { expr, .. } => expr_as_literal(expr),
        _ => None,
    }
}

/// The column and the constant of `column = constant`, in either order.
pub open spec fn equality_pin(left: Expr, right: Expr) -> Option<(Seq<char>, ScalarView)> {
    match (left, literal_of(right)) {
        (Expr::Column(c), Some(v)) => Some((c@, v)),
        _ => match (literal_of(left), right) {
            (Some(v), Expr::Column(c)) => Some((c@, v)),
            _ => None,
        },
    }
}

/// The constant to which a predicate pins a column: an equality, alone or
/// under AND. Of several the last counts. Lists and ranges pin nothing.
pub open spec fn pinned(predicate: Expr, name: Seq<char>) -> Option<ScalarView>
    decreases predicate,
{
    match predicate {
        Expr::BinaryExpr { left, op: Operator::And, right } => match pinned(*right, name) {
            Some(v) => Some(v),
            None => pinned(*left, name),
        },
        Expr::BinaryExpr { left, op: Operator::Eq, right } => match equality_pin(*left, *right) {
            Some((c, v)) if c == name => Some(v),
            _ => None,
        },
        _ => None,
    }
}

pub fn pinned_value(predicate: &Expr, name: &String) -> (r: Option<ScalarValue>)
    ensures
        r is Some <==> pinned(*predicate, name@) is Some,
        r matches Some(v) ==> pinned(*predicate, name@) == Some(v@),
    decreases predicate,
{
    match predicate {
        Expr::BinaryExpr { left, op, right } => {
            if *op == Operator::And {
                match pinned_value(right, name) {
                    Some(v) => Some(v),
                    None => pinned_value(left, name),
                }
            } else if *op == Operator::Eq {
                let from_right = expr_as_literal(right);
                match (&**left, from_right) {
                    (Expr::Column(c), Some(v)) => {
                        if *c == *name {
                            Some(v)
                        } else {
                            None
                        }
                    },
                    _ => {
                        let from_left = expr_as_literal(left);
                        match (from_left, &**right) {
                            (Some(v), Expr::Column(c)) => {
                                if *c == *name {
                                    Some(v)
                                } else {
                                    None
                                }
                            },
                            _ => None,
                        }
                    },
                }
            } else {
                None
            }
        },
        _ => None,
    }
}

/// Whether a row satisfies a predicate: `equals` says which columns of the row
/// equal which constants, `rest` which other conditions hold.
pub open spec fn satisfied(
    predicate: Expr,
    equals: spec_fn(Seq<char>, ScalarView) -> bool,
    rest: spec_fn(Expr) -> bool,
) -> bool
    decreases predicate,
{
    match predicate {
        Expr::BinaryExpr { left, op: Operator::And, right } => satisfied(*left, equals, rest)
            && satisfied(*right, equals, rest),
        Expr::BinaryExpr { left, op: Operator::Eq, right } => match (*left, *right) {
            (Expr::Column(c), e) => match literal_of(e) {
                Some(v) => equals(c@, v),
                None => rest(predicate),
            },
            (e, Expr::Column(c)) => match literal_of(e) {
                Some(v) => equals(c@, v),
                None => rest(predicate),
            },
            _ => rest(predicate),
        },
        _ => rest(predicate),
    }
}

/// In every row that satisfies a predicate, a pinned column equals the
/// constant that it is pinned to. Writing the constant back without reading
/// the row leaves the column as it was.
pub proof fn pins_hold_of_matching_rows(
    predicate: Expr,
    name: Seq<char>,
    equals: spec_fn(Seq<char>, ScalarView) -> bool,
    rest: spec_fn(Expr) -> bool,
)
    requires
        satisfied(predicate, equals, rest),
        pinned(predicate, name) is Some,
    ensures
        equals(name, pinned(predicate, name)->0),
    decreases predicate,
{
    match predicate {
        Expr::BinaryExpr { left, op: Operator::And, right } => {
            if pinned(*right, name) is Some {
                pins_hold_of_matching_rows(*right, name, equals, rest);
            } else {
                pins_hold_of_matching_rows(*left, name, equals, rest);
            }
        },
        _ => {},
    }
}

/// The place of the assignment to a column: the last one for its name.
pub open spec fn set_index(sets: Seq<(String, Expr)>, column: Seq<char>) -> Option<int>
    decreases sets.len(),
{
    if sets.len() == 0 {
        None
    } else if sets.last().0@ == column {
        Some(sets.len() - 1)
    } else {
        set_index(sets.drop_last(), column)
    }
}

proof fn set_index_bounds(sets: Seq<(String, Expr)>, column: Seq<char>)
    ensures
        set_index(sets, column) matches Some(i) ==> 0 <= i < sets.len() && sets[i].0@ == column,
    decreases sets.len(),
{
    if sets.len() > 0 && sets.last().0@ != column {
        set_index_bounds(sets.drop_last(), column);
    }
}

fn set_index_of(sets: &Vec<(String, Expr)>, column: &String) -> (r: Option<usize>)
    ensures
        match set_index(sets@, column@) {
            Some(i) => r matches Some(k) && k == i && k < sets@.len() && sets@[i].0@ == column@,
            None => r is None,
        },
{
    proof {
        set_index_bounds(sets@, column@);
    }
    let mut i: usize = sets.len();
    assert(sets@.take(i as int) =~= sets@);
    while i > 0
        invariant
            i <= sets@.len(),
            set_index(sets@, column@) == set_index(sets@.take(i as int), column@),
        decreases i,
    {
        assert(sets@.take(i as int).drop_last() =~= sets@.take(i - 1));
        i = i - 1;
        if sets[i].0 == *column {
            return Some(i);
        }
    }
    None
}

/// Whether assignment `i` counts: no later one is for the same column.
pub open spec fn counts(sets: Seq<(String, Expr)>, i: int) -> bool {
    set_index(sets, sets[i].0@) == Some(i)
}

/// The value that a column has after the update, where the assignments and the
/// predicate determine it.
pub open spec fn determined(
    sets: Seq<(String, Expr)>,
    predicate: Expr,
    column: Seq<char>,
) -> Option<ScalarView> {
    match set_index(sets, column) {
        Some(i) => literal_of(sets[i].1),
        None => pinned(predicate, column),
    }
}

/// Whether the assignments and the predicate determine the whole row: every
/// assignment that counts is a constant, and every other column is pinned.
pub open spec fn fully_determined(
    columns: Seq<Seq<char>>,
    sets: Seq<(String, Expr)>,
    predicate: Expr,
) -> bool {
    &&& forall|i: int|
        0 <= i < sets.len() && #[trigger] counts(sets, i) ==> literal_of(sets[i].1) is Some
    &&& forall|c: int|
        0 <= c < columns.len() ==> determined(sets, predicate, #[trigger] columns[c]) is Some
}

/// The row that an update writes without reading the rows that it replaces,
/// where it is fully determined. Every updated row then is this one, once each
/// value is cast to the type of its column.
pub fn try_blind_determined_update(
    full_schema: &Schema,
    n_data: usize,
    sets: &Vec<(String, Expr)>,
    predicate: &Expr,
) -> (r: Option<Vec<ScalarValue>>)
    requires
        n_data <= full_schema.fields@.len(),
    ensures
        ({
            let columns = field_names(full_schema.fields@.take(n_data as int));
            match r {
                Some(row) => {
                    &&& fully_determined(columns, sets@, *predicate)
                    &&& row@.len() == n_data
                    &&& forall|c: int|
                        0 <= c < n_data ==> determined(sets@, *predicate, columns[c]) == Some(
                            (#[trigger] row@[c])@,
                        )
                },
                None => !fully_determined(columns, sets@, *predicate),
            }
        }),
{
    let ghost columns = field_names(full_schema.fields@.take(n_data as int));
    let mut i: usize = 0;
    while i < sets.len()
        invariant
            i <= sets@.len(),
            columns == field_names(full_schema.fields@.take(n_data as int)),
            forall|k: int|
                0 <= k < i && #[trigger] counts(sets@, k) ==> literal_of(sets@[k].1) is Some,
        decreases sets@.len() - i,
    {
        match set_index_of(sets, &sets[i].0) {
            Some(k) => {
                if k == i && expr_as_literal(&sets[i].1).is_none() {
                    assert(counts(sets@, i as int));
                    return None;
                }
            },
            None => {},
        }
        i = i + 1;
    }
    let mut row: Vec<ScalarValue> = Vec::new();
    let mut c: usize = 0;
    while c < n_data
        invariant
            c <= n_data <= full_schema.fields@.len(),
            columns == field_names(full_schema.fields@.take(n_data as int)),
            row@.len() == c,
            forall|k: int|
                0 <= k < sets@.len() && #[trigger] counts(sets@, k) ==> literal_of(sets@[k].1)
                    is Some,
            forall|k: int|
                0 <= k < c ==> determined(sets@, *predicate, columns[k]) == Some(
                    (#[trigger] row@[k])@,
                ),
            forall|k: int|
                0 <= k < c ==> determined(sets@, *predicate, #[trigger] columns[k]) is Some,
        decreases n_data - c,
    {
        let name = &full_schema.fields[c].name;
        assert(columns[c as int] == name@);
        let value = match set_index_of(sets, name) {
            Some(k) => expr_as_literal(&sets[k].1),
            None => pinned_value(predicate, name),
        };
        match value {
            Some(v) => row.push(v),
            None => return None,
        }
        c = c + 1;
    }
    Some(row)
}

/// The value that a column of a row has after the update: what is assigned to
/// it, or what it was.
pub open spec fn post_image(
    row: spec_fn(Seq<char>) -> ScalarView,
    sets: Seq<(String, Expr)>,
    column: Seq<char>,
) -> Option<ScalarView> {
    match set_index(sets, column) {
        Some(i) => literal_of(sets[i].1),
        None => Some(row(column)),
    }
}

/// Where a row is fully determined, every row that satisfies the predicate
/// becomes that row: writing it without reading gives what reading would have
/// given.
pub proof fn blind_row_is_the_post_image(
    columns: Seq<Seq<char>>,
    sets: Seq<(String, Expr)>,
    predicate: Expr,
    row: spec_fn(Seq<char>) -> ScalarView,
    rest: spec_fn(Expr) -> bool,
    c: int,
)
    requires
        fully_determined(columns, sets, predicate),
        satisfied(predicate, |name: Seq<char>, v: ScalarView| row(name) == v, rest),
        0 <= c < columns.len(),
    ensures
        determined(sets, predicate, columns[c]) is Some,
        determined(sets, predicate, columns[c]) == post_image(row, sets, columns[c]),
{
    let equals = |name: Seq<char>, v: ScalarView| row(name) == v;
    assert(determined(sets, predicate, columns[c]) is Some);
    if set_index(sets, columns[c]) is None {
        pins_hold_of_matching_rows(predicate, columns[c], equals, rest);
    }
}

/// One column of the rows that an update reads.
#[derive(Debug, PartialEq, Eq)]
pub enum ProjectionItem {
    /// Assignment `set`, under the name of the column.
    Assigned { set: usize, name: String },
    /// The column as it is.
    Column(String),
}

/// Whether `item` projects a column: the assignment to it, or itself.
pub open spec fn projects(
    item: ProjectionItem,
    sets: Seq<(String, Expr)>,
    column: Seq<char>,
) -> bool {
    match set_index(sets, column) {
        Some(i) => item matches ProjectionItem::Assigned { set, name } && set == i && name@
            == column,
        None => item matches ProjectionItem::Column(name) && name@ == column,
    }
}

pub open spec fn narrow_schema_message(table: Seq<char>) -> Seq<char> {
    "plan_update: schema for '"@ + table + "' has fewer than 2 fields (no pseudo-columns?)"@
}

/// The columns to read for an update: every data column, assigned or as it is,
/// then the id and the address of the row. The filter runs before, so that an
/// assignment reads the values before the update.
pub fn update_projection(table: &str, full_schema: &Schema, sets: &Vec<(String, Expr)>) -> (r:
    Result<Vec<ProjectionItem>>)
    ensures
        r is Ok <==> full_schema.fields@.len() >= 2,
        match r {
            Ok(items) => {
                let n = data_width(*full_schema) as int;
                &&& items@.len() == n + 2
                &&& forall|c: int|
                    0 <= c < n ==> projects(
                        #[trigger] items@[c],
                        sets@,
                        full_schema.fields@[c].name@,
                    )
                &&& items@[n] matches ProjectionItem::Column(name) && name@ == "_rowid"@
                &&& items@[n + 1] matches ProjectionItem::Column(name) && name@ == "_rowaddr"@
            },
            Err(e) => e.says(narrow_schema_message(table@)),
        },
{
    if full_schema.fields.len() < 2 {
        let mut message: String = "plan_update: schema for '".to_owned();
        message.append(table);
        message.append("' has fewer than 2 fields (no pseudo-columns?)");
        return Err(other(message.as_str()));
    }
    let n: usize = full_schema.fields.len() - 2;
    let mut items: Vec<ProjectionItem> = Vec::new();
    let mut c: usize = 0;
    while c < n
        invariant
            c <= n == full_schema.fields@.len() - 2,
            items@.len() == c,
            forall|k: int|
                0 <= k < c ==> projects(#[trigger] items@[k], sets@, full_schema.fields@[k].name@),
        decreases n - c,
    {
        let name = &full_schema.fields[c].name;
        match set_index_of(sets, name) {
            Some(set) => items.push(ProjectionItem::Assigned { set, name: name.clone() }),
            None => items.push(ProjectionItem::Column(name.clone())),
        }
        c = c + 1;
    }
    items.push(ProjectionItem::Column("_rowid".to_owned()));
    items.push(ProjectionItem::Column("_rowaddr".to_owned()));
    Ok(items)
}

/// Whether assignment `i` is the last one that names a column.
pub open spec fn last_set(sets: Seq<(String, Expr)>, i: int, column: Seq<char>) -> bool {
    &&& 0 <= i < sets.len()
    &&& sets[i].0@ == column
    &&& forall|k: int| i < k < sets.len() ==> (#[trigger] sets[k]).0@ != column
}

/// Whether no assignment names a column.
pub open spec fn never_set(sets: Seq<(String, Expr)>, column: Seq<char>) -> bool {
    forall|k: int| 0 <= k < sets.len() ==> (#[trigger] sets[k]).0@ != column
}

/// The assignment to a column is the last one that names it, and there is none
/// only where no assignment names it.
pub proof fn the_last_set_counts(sets: Seq<(String, Expr)>, column: Seq<char>)
    ensures
        set_index(sets, column) is None <==> never_set(sets, column),
        forall|i: int| #[trigger]
            last_set(sets, i, column) ==> set_index(sets, column) == Some(i),
        set_index(sets, column) matches Some(i) ==> last_set(sets, i, column),
    decreases sets.len(),
{
    if sets.len() > 0 {
        let n = sets.len() - 1;
        let front = sets.drop_last();
        assert(sets[n] == sets.last());
        if sets.last().0@ == column {
            assert forall|i: int| #[trigger] last_set(sets, i, column) implies i == n by {
                if i < n {
                    assert(sets[n].0@ != column);
                }
            }
        } else {
            the_last_set_counts(front, column);
            assert forall|i: int| #[trigger] last_set(sets, i, column) implies last_set(
                front,
                i,
                column,
            ) by {
                assert(i != n);
                assert(front[i] == sets[i]);
                assert forall|k: int| i < k < front.len() implies (#[trigger] front[k]).0@
                    != column by {
                    assert(front[k] == sets[k]);
                }
            }
            assert forall|i: int| #[trigger] last_set(front, i, column) implies last_set(
                sets,
                i,
                column,
            ) by {
                assert(front[i] == sets[i]);
                assert forall|k: int| i < k < sets.len() implies (#[trigger] sets[k]).0@
                    != column by {
                    if k < n {
                        assert(front[k] == sets[k]);
                    }
                }
            }
            if never_set(front, column) {
                assert forall|k: int| 0 <= k < sets.len() implies (#[trigger] sets[k]).0@
                    != column by {
                    if k < n {
                        assert(front[k] == sets[k]);
                    }
                }
            }
            if never_set(sets, column) {
                assert forall|k: int| 0 <= k < front.len() implies (#[trigger] front[k]).0@
                    != column by {
                    assert(front[k] == sets[k]);
                }
            }
        }
    }
}

/// Every assignment is written: where the items of an update are those of its
/// columns, the item of a column that some assignment names is assigned, by the
/// last one that names it, and the item of a column that none names is the
/// column itself.
pub proof fn every_set_is_projected(
    items: Seq<ProjectionItem>,
    sets: Seq<(String, Expr)>,
    columns: Seq<Seq<char>>,
    c: int,
    k: int,
)
    requires
        0 <= c < columns.len(),
        columns.len() <= items.len(),
        forall|i: int|
            0 <= i < columns.len() ==> projects(#[trigger] items[i], sets, columns[i]),
    ensures
        0 <= k < sets.len() && sets[k].0@ == columns[c] ==> (items[c] matches
            ProjectionItem::Assigned { set, name } && k <= set < sets.len() && sets[
            set as int
        ].0@ == columns[c] && name@ == columns[c]),
        items[c] matches ProjectionItem::Assigned { set, name } ==> set < sets.len() && sets[
            set as int
        ].0@ == columns[c] && name@ == columns[c],
        items[c] matches ProjectionItem::Column(name) ==> name@ == columns[c] && forall|j: int|
            0 <= j < sets.len() ==> (#[trigger] sets[j]).0@ != columns[c],
{
    the_last_set_counts(sets, columns[c]);
    assert(projects(items[c], sets, columns[c]));
    if 0 <= k < sets.len() && sets[k].0@ == columns[c] {
        let i = set_index(sets, columns[c])->0;
        assert(last_set(sets, i, columns[c]));
        if i < k {
            assert(sets[k].0@ != columns[c]);
        }
    }
}

/// A literal is the constant that it holds, and an alias of an expression the
/// constant that the expression is; nothing else is a constant.
pub proof fn constants_are_literals(e: Expr)
    ensures
        e matches Expr::Literal(v) ==> literal_of(e) == Some(v@),
        e matches Expr::Alias { expr, .. } ==> literal_of(e) == literal_of(*expr),
        !(e is Literal || e is Alias) ==> literal_of(e) is None,
{
}

/// A row that is written without reading holds, in each column, the constant of
/// the last assignment that names it; in a column that none names, the value
/// that the rows to be replaced have there, whichever of them it is.
pub proof fn blind_row_holds_the_assignments(
    columns: Seq<Seq<char>>,
    sets: Seq<(String, Expr)>,
    predicate: Expr,
    row: spec_fn(Seq<char>) -> ScalarView,
    rest: spec_fn(Expr) -> bool,
    c: int,
    i: int,
)
    requires
        fully_determined(columns, sets, predicate),
        satisfied(predicate, |name: Seq<char>, v: ScalarView| row(name) == v, rest),
        0 <= c < columns.len(),
    ensures
        last_set(sets, i, columns[c]) ==> determined(sets, predicate, columns[c]) == literal_of(
            sets[i].1,
        ),
        never_set(sets, columns[c]) ==> determined(sets, predicate, columns[c]) == Some(
            row(columns[c]),
        ),
{
    the_last_set_counts(sets, columns[c]);
    blind_row_is_the_post_image(columns, sets, predicate, row, rest, c);
}

/// The locations of batches are those of the first ones, followed by those of
/// the others; none is lost, repeated or moved. Those of one batch are its rows, by
/// their ids and addresses.
pub proof fn locations_follow_the_batches(
    a: Seq<(Vec<u64>, Vec<u64>)>,
    b: Seq<(Vec<u64>, Vec<u64>)>,
)
    ensures
        batch_locs(a + b) == batch_locs(a) + batch_locs(b),
        a.len() == 1 && a[0].0@.len() == a[0].1@.len() ==> {
            &&& batch_locs(a).len() == a[0].0@.len()
            &&& forall|i: int|
                0 <= i < a[0].0@.len() ==> (#[trigger] batch_locs(a)[i]).row_id == a[0].0@[i]
                    && batch_locs(a)[i].fragment_id * 0x1_0000_0000 + batch_locs(a)[i].offset
                    == a[0].1@[i]
        },
    decreases b.len(),
{
    if a.len() == 1 {
        assert(a.drop_last() =~= seq![]);
        assert(batch_locs(a.drop_last()).len() == 0);
        assert(batch_locs(a) =~= located_all(a[0].0@, a[0].1@));
    }
    if b.len() == 0 {
        assert(a + b =~= a);
        assert(batch_locs(a) + batch_locs(b) =~= batch_locs(a));
    } else {
        assert((a + b).drop_last() =~= a + b.drop_last());
        locations_follow_the_batches(a, b.drop_last());
        assert(batch_locs(a + b) =~= batch_locs(a) + batch_locs(b));
    }
}

/// The row ids of a sequence of locations.
pub open spec fn row_ids_of(locs: Seq<MatchLoc>) -> Seq<u64> {
    locs.map_values(|l: MatchLoc| l.row_id)
}

/// How to read the rows that an update replaces.
#[derive(Debug, PartialEq, Eq)]
pub enum UpdateRead {
    /// The index showed that no live row matches.
    Nothing,
    /// Read the rows that the index located, with this query.
    ByRowIds(String),
    /// Scan the table with the predicate.
    Scan,
}

/// Whether `r` is how to read the rows that an update replaces.
pub open spec fn reads_matches(
    table: Seq<char>,
    located: Option<Vec<MatchLoc>>,
    r: UpdateRead,
) -> bool {
    match located {
        None => r is Scan,
        Some(locs) => if locs@.len() == 0 {
            r is Nothing
        } else {
            r matches UpdateRead::ByRowIds(sql) && sql@ == rows_by_id_sql(
                table,
                row_ids_of(locs@),
            )
        },
    }
}

/// Decides how to read the rows that an update replaces: `located` holds the
/// matches that the index gave, or is `None` where it could not answer.
pub fn update_read(table: &str, located: &Option<Vec<MatchLoc>>) -> (r: UpdateRead)
    ensures
        reads_matches(table@, *located, r),
{
    match located {
        None => UpdateRead::Scan,
        Some(locs) => {
            if locs.len() == 0 {
                return UpdateRead::Nothing;
            }
            let mut ids: Vec<u64> = Vec::new();
            let mut i: usize = 0;
            while i < locs.len()
                invariant
                    i <= locs@.len(),
                    ids@.len() == i,
                    forall|k: int| 0 <= k < i ==> ids@[k] == locs@[k].row_id,
                decreases locs@.len() - i,
            {
                ids.push(locs[i].row_id);
                i = i + 1;
            }
            assert(ids@ =~= row_ids_of(locs@));
            UpdateRead::ByRowIds(rows_by_id_query(table, &ids))
        },
    }
}

/// The locations of the rows of several batches, one batch after the other.
pub open spec fn batch_locs(batches: Seq<(Vec<u64>, Vec<u64>)>) -> Seq<MatchLoc>
    decreases batches.len(),
{
    if batches.len() == 0 {
        seq![]
    } else {
        batch_locs(batches.drop_last()) + located_all(batches.last().0@, batches.last().1@)
    }
}

/// The locations of the rows that a scan gave, batch by batch, from their row
/// ids and addresses.
pub fn scanned_locations(batches: &Vec<(Vec<u64>, Vec<u64>)>) -> (r: Vec<MatchLoc>)
    requires
        forall|i: int|
            0 <= i < batches@.len() ==> (#[trigger] batches@[i]).0@.len() == batches@[i].1@.len(),
    ensures
        r@ == batch_locs(batches@),
{
    let mut out: Vec<MatchLoc> = Vec::new();
    let mut i: usize = 0;
    assert(batches@.take(0) =~= seq![]);
    while i < batches.len()
        invariant
            i <= batches@.len(),
            out@ == batch_locs(batches@.take(i as int)),
            forall|i: int|
                0 <= i < batches@.len() ==> (#[trigger] batches@[i]).0@.len()
                    == batches@[i].1@.len(),
        decreases batches@.len() - i,
    {
        assert(batches@.take(i as int + 1).drop_last() =~= batches@.take(i as int));
        assert(batches@[i as int].0@.len() == batches@[i as int].1@.len());
        let mut locs = match_locs(&batches[i].0, &batches[i].1);
        out.append(&mut locs);
        i = i + 1;
    }
    assert(batches@.take(i as int) =~= batches@);
    out
}

pub open spec fn unknown_target_message(column: Seq<char>, table: Seq<char>) -> Seq<char> {
    "UPDATE SET target column '"@ + column + "' does not exist in table '"@ + table + "'"@
}

fn unknown_target(column: &str, table: &str) -> (r: QueryError)
    ensures
        r.says(unknown_target_message(column@, table@)),
{
    let mut message: String = "UPDATE SET target column '".to_owned();
    message.append(column);
    message.append("' does not exist in table '");
    message.append(table);
    message.append("'");
    other(message.as_str())
}

/// Checks that every assignment is to a data column of the table.
pub fn validate_update_targets(table_name: &str, schema: &Schema, sets: &Vec<(String, Expr)>) -> (r:
    Result<()>)
    ensures
        match r {
            Ok(_) => forall|i: int|
                0 <= i < sets@.len() ==> data_columns(*schema).contains((#[trigger] sets@[i]).0@),
            Err(e) => exists|i: int|
                {
                    &&& 0 <= i < sets@.len()
                    &&& !data_columns(*schema).contains((#[trigger] sets@[i]).0@)
                    &&& forall|k: int|
                        0 <= k < i ==> data_columns(*schema).contains((#[trigger] sets@[k]).0@)
                    &&& e.says(unknown_target_message(sets@[i].0@, table_name@))
                },
        },
{
    let mut i: usize = 0;
    while i < sets.len()
        invariant
            i <= sets@.len(),
            forall|k: int|
                0 <= k < i ==> data_columns(*schema).contains((#[trigger] sets@[k]).0@),
        decreases sets@.len() - i,
    {
        if !has_data_column(schema, &sets[i].0) {
            return Err(unknown_target(sets[i].0.as_str(), table_name));
        }
        i = i + 1;
    }
    Ok(())
}

/// Whether an assignment is of the null that has no type.
pub open spec fn untyped_null(e: Expr) -> bool {
    e matches Expr::Literal(Scalar::Null)
}

/// Whether an assignment of an untyped null is refused: its column is unknown
/// or admits no null.
pub open spec fn null_assignment_refused(schema: Schema, set: (String, Expr)) -> bool {
    untyped_null(set.1) && match schema.position(set.0@) {
        Some(c) => !schema.fields@[c].nullable,
        None => true,
    }
}

/// What an assignment becomes: an untyped null takes the type of its column.
pub open spec fn coerced_from(schema: Schema, before: (String, Expr), after: (String, Expr)) -> bool {
    &&& after.0 == before.0
    &&& if untyped_null(before.1) {
        schema.position(before.0@) matches Some(c) && after.1 matches Expr::Literal(v) && v@
            == null_of(schema.fields@[c].data_type)
    } else {
        after.1 == before.1
    }
}

/// Whether the first `n` assignments are coerced, and the others as they were.
pub open spec fn coerced_up_to(
    schema: Schema,
    before: Seq<(String, Expr)>,
    after: Seq<(String, Expr)>,
    n: int,
) -> bool {
    &&& after.len() == before.len()
    &&& forall|k: int| 0 <= k < n ==> coerced_from(schema, #[trigger] before[k], after[k])
    &&& forall|k: int| n <= k < before.len() ==> #[trigger] after[k] == before[k]
}

/// Whether `e` says why the assignment of an untyped null is refused.
pub open spec fn null_refusal(
    schema: Schema,
    table: Seq<char>,
    set: (String, Expr),
    e: QueryError,
) -> bool {
    match schema.position(set.0@) {
        Some(_) => mismatch(e, set.0@, "non-nullable column cannot be assigned NULL"@, table),
        None => e.says(unknown_target_message(set.0@, table)),
    }
}

/// Gives every untyped null among the assignments the type of its column. A
/// null for a column that admits none is refused before any row is read.
pub fn coerce_update_null_literals(
    table_name: &str,
    schema: &Schema,
    sets: &mut Vec<(String, Expr)>,
) -> (r: Result<()>)
    ensures
        final(sets)@.len() == old(sets)@.len(),
        match r {
            Ok(_) => forall|i: int|
                0 <= i < old(sets)@.len() ==> {
                    &&& !null_assignment_refused(*schema, #[trigger] old(sets)@[i])
                    &&& coerced_from(*schema, old(sets)@[i], final(sets)@[i])
                },
            Err(e) => exists|i: int|
                {
                    &&& 0 <= i < old(sets)@.len()
                    &&& null_assignment_refused(*schema, #[trigger] old(sets)@[i])
                    &&& forall|k: int|
                        0 <= k < i ==> !null_assignment_refused(
                            *schema,
                            #[trigger] old(sets)@[k],
                        )
                    &&& null_refusal(*schema, table_name@, old(sets)@[i], e)
                    &&& coerced_up_to(*schema, old(sets)@, final(sets)@, i)
                },
        },
{
    let ghost before = sets@;
    let mut i: usize = 0;
    while i < sets.len()
        invariant
            i <= sets@.len(),
            sets@.len() == before.len(),
            before == old(sets)@,
            forall|k: int|
                0 <= k < i ==> !null_assignment_refused(*schema, #[trigger] before[k]),
            forall|k: int|
                0 <= k < i ==> coerced_from(*schema, #[trigger] before[k], sets@[k]),
            forall|k: int| i <= k < before.len() ==> #[trigger] sets@[k] == before[k],
        decreases sets@.len() - i,
    {
        assert(sets@[i as int] == before[i as int]);
        let untyped = match &sets[i].1 {
            Expr::Literal(Scalar::Null) => true,
            _ => false,
        };
        if untyped {
            let name = sets[i].0.clone();
            match schema.index_of(&name) {
                Some(c) => {
                    let field = &schema.fields[c];
                    if !field.nullable {
                        assert(null_assignment_refused(*schema, before[i as int]));
                        let e = QueryError::Core(
                            CoreError::SchemaMismatch {
                                column: name,
                                expected: "non-nullable column cannot be assigned NULL".to_owned(),
                                path: table_name.to_owned(),
                            },
                        );
                        assert(null_refusal(*schema, table_name@, before[i as int], e));
                        assert(coerced_up_to(*schema, before, sets@, i as int));
                        return Err(e);
                    }
                    sets.set(i, (name, Expr::Literal(typed_null(&field.data_type))));
                },
                None => {
                    assert(null_assignment_refused(*schema, before[i as int]));
                    let e = unknown_target(name.as_str(), table_name);
                    assert(null_refusal(*schema, table_name@, before[i as int], e));
                    assert(coerced_up_to(*schema, before, sets@, i as int));
                    return Err(e);
                },
            }
        }
        assert(coerced_from(*schema, before[i as int], sets@[i as int]));
        i = i + 1;
    }
    Ok(())
}

/// The predicates that AND connects, in order.
pub open spec fn conjuncts(predicate: Expr) -> Seq<Expr>
    decreases predicate,
{
    match predicate {
        Expr::BinaryExpr { left, op: Operator::And, right } => conjuncts(*left) + conjuncts(*right),
        _ => seq![predicate],
    }
}

/// Whether a predicate is an equality of a column and a constant, in either
/// order.
pub open spec fn equates(predicate: Expr, name: Seq<char>, value: ScalarView) -> bool {
    predicate matches Expr::BinaryExpr { left, op: Operator::Eq, right } && {
        ||| *left matches Expr::Column(c) && c@ == name && literal_of(*right) == Some(value)
        ||| *right matches Expr::Column(c) && c@ == name && literal_of(*left) == Some(value)
    }
}

/// Whether a predicate is an equality of a column and some constant.
pub open spec fn equates_some(predicate: Expr, name: Seq<char>) -> bool {
    exists|value: ScalarView| equates(predicate, name, value)
}

/// A predicate pins a column exactly where one of the predicates that AND
/// connects equates it with a constant, and to the constant of the last one.
pub proof fn equalities_pin_columns(predicate: Expr, name: Seq<char>)
    ensures
        match pinned(predicate, name) {
            Some(value) => exists|i: int|
                {
                    &&& 0 <= i < conjuncts(predicate).len()
                    &&& equates(#[trigger] conjuncts(predicate)[i], name, value)
                    &&& forall|k: int|
                        i < k < conjuncts(predicate).len() ==> !equates_some(
                            #[trigger] conjuncts(predicate)[k],
                            name,
                        )
                },
            None => forall|k: int|
                0 <= k < conjuncts(predicate).len() ==> !equates_some(
                    #[trigger] conjuncts(predicate)[k],
                    name,
                ),
        },
    decreases predicate,
{
    let all = conjuncts(predicate);
    match predicate {
        Expr::BinaryExpr { left, op: Operator::And, right } => {
            let a = conjuncts(*left);
            let b = conjuncts(*right);
            equalities_pin_columns(*left, name);
            equalities_pin_columns(*right, name);
            match pinned(*right, name) {
                Some(value) => {
                    let i = choose|i: int|
                        {
                            &&& 0 <= i < b.len()
                            &&& equates(#[trigger] b[i], name, value)
                            &&& forall|k: int|
                                i < k < b.len() ==> !equates_some(#[trigger] b[k], name)
                        };
                    assert(all[a.len() + i] == b[i]);
                    assert forall|k: int| a.len() + i < k < all.len() implies !equates_some(
                        #[trigger] all[k],
                        name,
                    ) by {
                        assert(all[k] == b[k - a.len()]);
                    }
                },
                None => {
                    assert forall|k: int| a.len() <= k < all.len() implies !equates_some(
                        #[trigger] all[k],
                        name,
                    ) by {
                        assert(all[k] == b[k - a.len()]);
                    }
                    match pinned(*left, name) {
                        Some(value) => {
                            let i = choose|i: int|
                                {
                                    &&& 0 <= i < a.len()
                                    &&& equates(#[trigger] a[i], name, value)
                                    &&& forall|k: int|
                                        i < k < a.len() ==> !equates_some(#[trigger] a[k], name)
                                };
                            assert(all[i] == a[i]);
                            assert forall|k: int| i < k < all.len() implies !equates_some(
                                #[trigger] all[k],
                                name,
                            ) by {
                                if k < a.len() {
                                    assert(all[k] == a[k]);
                                }
                            }
                        },
                        None => {
                            assert forall|k: int| 0 <= k < all.len() implies !equates_some(
                                #[trigger] all[k],
                                name,
                            ) by {
                                if k < a.len() {
                                    assert(all[k] == a[k]);
                                }
                            }
                        },
                    }
                },
            }
        },
        _ => {
            assert(all[0] == predicate);
            match pinned(predicate, name) {
                Some(value) => {
                    assert(equates(all[0], name, value));
                },
                None => {
                    assert(!equates_some(predicate, name));
                },
            }
        },
    }
}

/// The data columns of a table are those of its own schema: the id and the
/// address of the row, which are queried behind them, are none.
pub proof fn data_columns_are_the_own_ones(data: Schema, full: Schema)
    requires
        full_schema_of(data, full),
    ensures
        data_columns(full).len() == data.fields@.len(),
        forall|c: int|
            0 <= c < data.fields@.len() ==> #[trigger] data_columns(full)[c]
                == data.fields@[c].name@,
{
    let n = data.fields@.len() as int;
    assert forall|c: int| 0 <= c < n implies #[trigger] data_columns(full)[c]
        == data.fields@[c].name@ by {
        assert(full.fields@.take(n)[c] == data.fields@[c]);
    }
}

/// An untyped null takes the type of the first column of its name and stays a
/// null; every other assignment stays as it is, and each keeps its column.
pub proof fn nulls_take_the_type_of_the_column(
    schema: Schema,
    before: (String, Expr),
    after: (String, Expr),
)
    requires
        coerced_from(schema, before, after),
    ensures
        after.0 == before.0,
        before.1 matches Expr::Literal(Scalar::Null) ==> exists|c: int|
            {
                &&& 0 <= c < schema.fields@.len()
                &&& (#[trigger] schema.fields@[c]).name@ == before.0@
                &&& forall|k: int|
                    0 <= k < c ==> (#[trigger] schema.fields@[k]).name@ != before.0@
                &&& after.1 matches Expr::Literal(v) && v@.null() && is_of_type(
                    v@,
                    schema.fields@[c].data_type,
                )
            },
        !(before.1 matches Expr::Literal(Scalar::Null)) ==> after.1 == before.1,
{
    columns_are_found_by_name(schema, before.0@);
    if before.1 matches Expr::Literal(Scalar::Null) {
        let c = schema.position(before.0@)->0;
        assert(schema.fields@[c].name@ == before.0@);
    }
}

/// The assignment of an untyped null is refused exactly where no column of the
/// name is there, or the first one admits no null.
pub proof fn nulls_are_refused_by_their_column(schema: Schema, set: (String, Expr), c: int)
    requires
        set.1 matches Expr::Literal(Scalar::Null),
        0 <= c <= schema.fields@.len(),
        forall|k: int| 0 <= k < c ==> (#[trigger] schema.fields@[k]).name@ != set.0@,
    ensures
        c == schema.fields@.len() ==> null_assignment_refused(schema, set),
        c < schema.fields@.len() && schema.fields@[c].name@ == set.0@ ==> (null_assignment_refused(
            schema,
            set,
        ) <==> !schema.fields@[c].nullable),
{
    columns_are_found_by_name(schema, set.0@);
    match schema.position(set.0@) {
        Some(i) => {
            if i < c {
                assert(schema.fields@[i].name@ != set.0@);
            } else if c < i {
                assert(schema.fields@[c].name@ != set.0@);
            }
        },
        None => {},
    }
}

/// The rows that an index located are read by their ids, all of them and in their
/// order; where it located none, nothing is read, and where it could not answer,
/// the table is scanned.
pub proof fn located_rows_are_read_by_id(
    table: Seq<char>,
    located: Option<Vec<MatchLoc>>,
    r: UpdateRead,
)
    requires
        reads_matches(table, located, r),
    ensures
        r is Scan <==> located is None,
        r is Nothing <==> (located matches Some(locs) && locs@.len() == 0),
        r matches UpdateRead::ByRowIds(sql) ==> (located matches Some(locs) && exists|ids: Seq<u64>|
            {
                &&& ids.len() == locs@.len()
                &&& forall|i: int| 0 <= i < ids.len() ==> #[trigger] ids[i] == locs@[i].row_id
                &&& sql@ == #[trigger] rows_by_id_sql(table, ids)
            }),
{
    match located {
        Some(locs) => {
            let ids = row_ids_of(locs@);
            assert(ids.len() == locs@.len());
            assert(forall|i: int| 0 <= i < ids.len() ==> #[trigger] ids[i] == locs@[i].row_id);
        },
        None => {},
    }
}

} // verus!
