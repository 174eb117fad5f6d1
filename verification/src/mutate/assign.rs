//! MERGE with a SET list: evaluating assignments over matched rows.
//!
//! The matched source rows are registered as a table of their own, with a
//! column that numbers them. One query joins it to the target on the key,
//! evaluates the assignments, and gives the rows back in their order.
use vstd::prelude::*;
use vstd::string::*;

use super::dedup::{RecordBatchRow, RowView};
use super::merge::row_views;
use super::sql_text::{join_piece, joined, quote_sql_identifier, quoted};
use crate::error::{other, CoreError, QueryError, Result};
use crate::scalar::{
    field_names, DataType, Field, RecordBatch, Scalar, ScalarValue, ScalarView, Schema,
};
use crate::text::laws::{
    decimal_writes_the_number, is_numeral, numeral, the_first_occurrence_is_found,
};
use crate::text::{decimal, decimal_text, find};

verus! {

/// The name under which the matched source rows are registered.
pub const MATCHED_SOURCE_TABLE: &'static str = "__icefall_merge_src";

/// The column that numbers the matched source rows.
pub const MERGE_INDEX_COLUMN: &'static str = "__merge_idx__";

pub open spec fn row_lacks_message(name: Seq<char>) -> Seq<char> {
    "MERGE: matched source row missing column '"@ + name + "'"@
}

/// Whether row `row` lacks the column `name`.
pub open spec fn lacks(row: RowView, name: Seq<char>) -> bool {
    find(row.columns, name) == row.columns.len()
}

/// Whether some row lacks a column of the schema, and `e` names the first such
/// column.
pub open spec fn missing_column(fields: Seq<Field>, rows: Seq<RowView>, e: QueryError) -> bool {
    exists|c: int, i: int|
        {
            &&& 0 <= c < fields.len()
            &&& 0 <= i < rows.len()
            &&& #[trigger] lacks(rows[i], fields[c].name@)
            &&& forall|d: int, j: int|
                0 <= d < c && 0 <= j < rows.len() ==> !#[trigger] lacks(rows[j], fields[d].name@)
            &&& e.says(row_lacks_message(fields[c].name@))
        }
}

/// The number of a matched row, as a value of the numbering column.
pub open spec fn row_number(row: int) -> ScalarView {
    Scalar::Int64(Some(row as i64))
}

/// The matched source rows as a batch: the source columns, then the numbering
/// column.
pub fn matched_source_batch(src_schema: &Schema, rows: &Vec<RecordBatchRow>) -> (r: Result<
    RecordBatch,
>)
    requires
        rows@.len() <= i64::MAX,
        forall|i: int|
            0 <= i < rows@.len() ==> (#[trigger] rows@[i])@.columns.len()
                == rows@[i]@.values.len(),
    ensures
        match r {
            Ok(batch) => {
                let n = src_schema.fields@.len() as int;
                &&& batch.well_formed()
                &&& batch.num_rows == rows@.len()
                &&& batch.schema.fields@.len() == n + 1
                &&& batch.schema.fields@.drop_last() == src_schema.fields@
                &&& batch.schema.fields@.last().name@ == MERGE_INDEX_COLUMN@
                &&& batch.schema.fields@.last().data_type == DataType::Int64
                &&& !batch.schema.fields@.last().nullable
                &&& forall|c: int, i: int|
                    0 <= c < n && 0 <= i < rows@.len() ==> {
                        &&& !lacks(rows@[i]@, src_schema.fields@[c].name@)
                        &&& #[trigger] batch.cell(c, i) == rows@[i]@.values[find(
                            rows@[i]@.columns,
                            src_schema.fields@[c].name@,
                        )]
                    }
                &&& forall|i: int|
                    0 <= i < rows@.len() ==> #[trigger] batch.cell(n, i) == row_number(i)
            },
            Err(e) => missing_column(src_schema.fields@, row_views(rows@), e),
        },
{
    let n: usize = src_schema.fields.len();
    let mut columns: Vec<Vec<ScalarValue>> = Vec::new();
    let mut c: usize = 0;
    while c < n
        invariant
            c <= n == src_schema.fields@.len(),
            columns@.len() == c,
            forall|i: int|
                0 <= i < rows@.len() ==> (#[trigger] rows@[i])@.columns.len()
                    == rows@[i]@.values.len(),
            forall|k: int| 0 <= k < c ==> (#[trigger] columns@[k])@.len() == rows@.len(),
            forall|k: int, i: int|
                0 <= k < c && 0 <= i < rows@.len() ==> (#[trigger] columns@[k]@[i])@
                    == rows@[i]@.values[find(rows@[i]@.columns, src_schema.fields@[k].name@)],
            forall|k: int, i: int|
                0 <= k < c && 0 <= i < rows@.len() ==> !#[trigger] lacks(
                    rows@[i]@,
                    src_schema.fields@[k].name@,
                ),
        decreases n - c,
    {
        let field = &src_schema.fields[c];
        let mut values: Vec<ScalarValue> = Vec::new();
        let mut i: usize = 0;
        while i < rows.len()
            invariant
                i <= rows@.len(),
                c < n == src_schema.fields@.len(),
                *field == src_schema.fields@[c as int],
                values@.len() == i,
                forall|j: int|
                    0 <= j < rows@.len() ==> (#[trigger] rows@[j])@.columns.len()
                        == rows@[j]@.values.len(),
                forall|j: int| 0 <= j < i ==> !#[trigger] lacks(rows@[j]@, field.name@),
                forall|j: int|
                    0 <= j < i ==> (#[trigger] values@[j])@ == rows@[j]@.values[find(
                        rows@[j]@.columns,
                        field.name@,
                    )],
                forall|k: int, j: int|
                    0 <= k < c && 0 <= j < rows@.len() ==> !#[trigger] lacks(
                        rows@[j]@,
                        src_schema.fields@[k].name@,
                    ),
            decreases rows@.len() - i,
        {
            let row = &rows[i];
            assert(rows@[i as int]@.columns.len() == rows@[i as int]@.values.len());
            match row.position(&field.name) {
                Some(p) => {
                    assert(row@.values[p as int] == row.values@[p as int]@);
                    values.push(row.values[p].copied());
                    assert(!lacks(rows@[i as int]@, field.name@));
                },
                None => {
                    let mut message: String = "MERGE: matched source row missing column '".to_owned();
                    message.append(field.name.as_str());
                    message.append("'");
                    let e = other(message.as_str());
                    proof {
                        let fields = src_schema.fields@;
                        let all = row_views(rows@);
                        assert(lacks(all[i as int], fields[c as int].name@));
                        assert forall|d: int, j: int| 0 <= d < c && 0 <= j < all.len() implies
                            !#[trigger] lacks(all[j], fields[d].name@) by {
                            assert(!lacks(rows@[j]@, fields[d].name@));
                        }
                        assert(missing_column(fields, all, e));
                    }
                    return Err(e);
                },
            }
            i = i + 1;
        }
        columns.push(values);
        c = c + 1;
    }
    let mut numbers: Vec<ScalarValue> = Vec::new();
    let mut i: usize = 0;
    while i < rows.len()
        invariant
            i <= rows@.len() <= i64::MAX,
            numbers@.len() == i,
            forall|j: int| 0 <= j < i ==> (#[trigger] numbers@[j])@ == row_number(j),
        decreases rows@.len() - i,
    {
        numbers.push(Scalar::Int64(Some(i as i64)));
        i = i + 1;
    }
    let mut schema = src_schema.copied();
    schema.fields.push(
        Field {
            name: MERGE_INDEX_COLUMN.to_owned(),
            data_type: DataType::Int64,
            nullable: false,
        },
    );
    assert(schema.fields@.drop_last() =~= src_schema.fields@);
    columns.push(numbers);
    Ok(RecordBatch { schema, columns, num_rows: rows.len() })
}

/// The value that a SET list gives a column: the last one for its name.
pub open spec fn assigned(assignments: Seq<(String, String)>, column: Seq<char>) -> Option<
    Seq<char>,
>
    decreases assignments.len(),
{
    if assignments.len() == 0 {
        None
    } else if assignments.last().0@ == column {
        Some(assignments.last().1@)
    } else {
        assigned(assignments.drop_last(), column)
    }
}

fn assigned_value<'a>(assignments: &'a Vec<(String, String)>, column: &String) -> (r: Option<
    &'a String,
>)
    ensures
        match assigned(assignments@, column@) {
            Some(v) => r matches Some(s) && s@ == v,
            None => r is None,
        },
{
    let mut i: usize = assignments.len();
    assert(assignments@.take(i as int) =~= assignments@);
    while i > 0
        invariant
            i <= assignments@.len(),
            assigned(assignments@, column@) == assigned(assignments@.take(i as int), column@),
        decreases i,
    {
        assert(assignments@.take(i as int).drop_last() =~= assignments@.take(i - 1));
        i = i - 1;
        if assignments[i].0 == *column {
            return Some(&assignments[i].1);
        }
    }
    None
}

/// One item of the select list: the assigned value, or the target's own
/// column, under the column's name.
pub open spec fn select_item(
    table: Seq<char>,
    column: Seq<char>,
    assignments: Seq<(String, String)>,
) -> Seq<char> {
    match assigned(assignments, column) {
        Some(value) => "("@ + value + ") AS "@ + quoted(column),
        None => quoted(table) + "."@ + quoted(column) + " AS "@ + quoted(column),
    }
}

/// The numbering column, by the source alias.
pub open spec fn numbering(source_alias: Seq<char>) -> Seq<char> {
    quoted(source_alias) + "."@ + quoted(MERGE_INDEX_COLUMN@)
}

/// The select list: one item per target column, then the numbering column.
pub open spec fn select_list(
    table: Seq<char>,
    source_alias: Seq<char>,
    columns: Seq<Seq<char>>,
    assignments: Seq<(String, String)>,
) -> Seq<Seq<char>> {
    columns.map_values(|c: Seq<char>| select_item(table, c, assignments)).push(
        numbering(source_alias),
    )
}

/// The query that evaluates the assignments.
pub open spec fn assignment_sql(
    table: Seq<char>,
    key: Seq<char>,
    source_alias: Seq<char>,
    columns: Seq<Seq<char>>,
    assignments: Seq<(String, String)>,
) -> Seq<char> {
    "SELECT "@ + joined(select_list(table, source_alias, columns, assignments), ", "@) + " FROM "@
        + quoted(table) + " JOIN "@ + quoted(MATCHED_SOURCE_TABLE@) + " AS "@ + quoted(source_alias)
        + " ON "@ + quoted(table) + "."@ + quoted(key) + " = "@ + quoted(source_alias) + "."@
        + quoted(key) + " ORDER BY "@ + numbering(source_alias)
}

/// Whether place `i` of a SET list is the last one that names a column.
pub open spec fn last_to_name(assignments: Seq<(String, String)>, i: int, column: Seq<char>) -> bool {
    &&& 0 <= i < assignments.len()
    &&& assignments[i].0@ == column
    &&& forall|k: int| i < k < assignments.len() ==> (#[trigger] assignments[k]).0@ != column
}

/// Whether no place of a SET list names a column.
pub open spec fn never_named(assignments: Seq<(String, String)>, column: Seq<char>) -> bool {
    forall|k: int| 0 <= k < assignments.len() ==> (#[trigger] assignments[k]).0@ != column
}

/// A column gets the value of the last assignment that names it, and none only
/// where no assignment does.
pub proof fn the_last_assignment_counts(assignments: Seq<(String, String)>, column: Seq<char>)
    ensures
        assigned(assignments, column) is None <==> never_named(assignments, column),
        forall|i: int| #[trigger]
            last_to_name(assignments, i, column) ==> assigned(assignments, column) == Some(
                assignments[i].1@,
            ),
        assigned(assignments, column) is Some ==> exists|i: int| #[trigger]
            last_to_name(assignments, i, column),
    decreases assignments.len(),
{
    if assignments.len() > 0 {
        let n = assignments.len() - 1;
        let front = assignments.drop_last();
        assert(assignments[n] == assignments.last());
        if assignments.last().0@ == column {
            assert(last_to_name(assignments, n, column));
            assert forall|i: int| #[trigger] last_to_name(assignments, i, column) implies i == n by {
                if i < n {
                    assert(assignments[n].0@ != column);
                }
            }
        } else {
            the_last_assignment_counts(front, column);
            assert forall|i: int| #[trigger] last_to_name(assignments, i, column) implies
                last_to_name(front, i, column) by {
                assert(i != n);
                assert(front[i] == assignments[i]);
                assert forall|k: int| i < k < front.len() implies (#[trigger] front[k]).0@
                    != column by {
                    assert(front[k] == assignments[k]);
                }
            }
            assert forall|i: int| #[trigger] last_to_name(front, i, column) implies last_to_name(
                assignments,
                i,
                column,
            ) by {
                assert(front[i] == assignments[i]);
                assert forall|k: int| i < k < assignments.len() implies (#[trigger] assignments[k]).0@
                    != column by {
                    if k < n {
                        assert(front[k] == assignments[k]);
                    }
                }
            }
            if never_named(front, column) {
                assert forall|k: int| 0 <= k < assignments.len() implies (
                #[trigger] assignments[k]).0@ != column by {
                    if k < n {
                        assert(front[k] == assignments[k]);
                    }
                }
            }
            if never_named(assignments, column) {
                assert forall|k: int| 0 <= k < front.len() implies (#[trigger] front[k]).0@
                    != column by {
                    assert(front[k] == assignments[k]);
                }
            }
        }
    }
}

/// The query selects, for each column of the target in order, the value of the
/// last assignment that names the column, and the column itself only where no
/// assignment names it; then the number of the row.
pub proof fn every_assignment_is_evaluated(
    table: Seq<char>,
    key: Seq<char>,
    source_alias: Seq<char>,
    columns: Seq<Seq<char>>,
    assignments: Seq<(String, String)>,
    items: Seq<Seq<char>>,
)
    requires
        items.len() == columns.len() + 1,
        forall|c: int, i: int|
            0 <= c < columns.len() && #[trigger] last_to_name(assignments, i, #[trigger] columns[c])
                ==> items[c] == "("@ + assignments[i].1@ + ") AS "@ + quoted(columns[c]),
        forall|c: int|
            0 <= c < columns.len() && never_named(assignments, #[trigger] columns[c]) ==> items[c]
                == quoted(table) + "."@ + quoted(columns[c]) + " AS "@ + quoted(columns[c]),
        items.last() == quoted(source_alias) + "."@ + quoted("__merge_idx__"@),
    ensures
        assignment_sql(table, key, source_alias, columns, assignments) == "SELECT "@ + joined(
            items,
            ", "@,
        ) + " FROM "@ + quoted(table) + " JOIN "@ + quoted("__icefall_merge_src"@) + " AS "@
            + quoted(source_alias) + " ON "@ + quoted(table) + "."@ + quoted(key) + " = "@ + quoted(
            source_alias,
        ) + "."@ + quoted(key) + " ORDER BY "@ + quoted(source_alias) + "."@ + quoted(
            "__merge_idx__"@,
        ),
{
    let list = select_list(table, source_alias, columns, assignments);
    assert forall|c: int| 0 <= c < columns.len() implies list[c] == items[c] by {
        the_last_assignment_counts(assignments, columns[c]);
        if assigned(assignments, columns[c]) is Some {
            let i = choose|i: int| #[trigger] last_to_name(assignments, i, columns[c]);
            assert(last_to_name(assignments, i, columns[c]));
        }
    }
    assert(list =~= items);
    assert(assignment_sql(table, key, source_alias, columns, assignments) =~= "SELECT "@ + joined(
        items,
        ", "@,
    ) + " FROM "@ + quoted(table) + " JOIN "@ + quoted("__icefall_merge_src"@) + " AS "@ + quoted(
        source_alias,
    ) + " ON "@ + quoted(table) + "."@ + quoted(key) + " = "@ + quoted(source_alias) + "."@
        + quoted(key) + " ORDER BY "@ + quoted(source_alias) + "."@ + quoted("__merge_idx__"@));
}

/// Writes the query that evaluates the assignments over the matched rows, in
/// their order.
pub fn assignment_query(
    table: &str,
    key: &str,
    source_alias: &str,
    target_fields: &Vec<Field>,
    assignments: &Vec<(String, String)>,
) -> (r: String)
    ensures
        r@ == assignment_sql(
            table@,
            key@,
            source_alias@,
            field_names(target_fields@),
            assignments@,
        ),
{
    let table_q = quote_sql_identifier(table);
    let src_q = quote_sql_identifier(source_alias);
    let internal_q = quote_sql_identifier(MATCHED_SOURCE_TABLE);
    let key_q = quote_sql_identifier(key);
    let idx_q = quote_sql_identifier(MERGE_INDEX_COLUMN);
    let ghost names = field_names(target_fields@);
    let mut list = String::new();
    let ghost pieces: Seq<Seq<char>> = seq![];
    let mut i: usize = 0;
    while i < target_fields.len()
        invariant
            i <= target_fields@.len(),
            names == field_names(target_fields@),
            table_q@ == quoted(table@),
            pieces.len() == i,
            forall|k: int|
                0 <= k < i ==> pieces[k] == select_item(table@, names[k], assignments@),
            list@ == joined(pieces, ", "@),
        decreases target_fields@.len() - i,
    {
        let column = &target_fields[i].name;
        let col_q = quote_sql_identifier(column.as_str());
        let item = match assigned_value(assignments, column) {
            Some(value) => {
                let mut item: String = "(".to_owned();
                item.append(value.as_str());
                item.append(") AS ");
                item.append(col_q.as_str());
                item
            },
            None => {
                let mut item: String = table_q.clone();
                item.append(".");
                item.append(col_q.as_str());
                item.append(" AS ");
                item.append(col_q.as_str());
                item
            },
        };
        assert(item@ == select_item(table@, names[i as int], assignments@));
        join_piece(&mut list, i == 0, ", ", item.as_str(), Ghost(pieces));
        proof {
            pieces = pieces.push(item@);
        }
        i = i + 1;
    }
    let mut number: String = src_q.clone();
    number.append(".");
    number.append(idx_q.as_str());
    join_piece(&mut list, i == 0, ", ", number.as_str(), Ghost(pieces));
    assert(pieces.push(number@) =~= select_list(table@, source_alias@, names, assignments@));
    let mut out: String = "SELECT ".to_owned();
    out.append(list.as_str());
    out.append(" FROM ");
    out.append(table_q.as_str());
    out.append(" JOIN ");
    out.append(internal_q.as_str());
    out.append(" AS ");
    out.append(src_q.as_str());
    out.append(" ON ");
    out.append(table_q.as_str());
    out.append(".");
    out.append(key_q.as_str());
    out.append(" = ");
    out.append(src_q.as_str());
    out.append(".");
    out.append(key_q.as_str());
    out.append(" ORDER BY ");
    out.append(src_q.as_str());
    out.append(".");
    out.append(idx_q.as_str());
    assert(out@ =~= assignment_sql(table@, key@, source_alias@, names, assignments@));
    out
}

pub open spec fn row_count_message(got: nat, expected: nat) -> Seq<char> {
    "MERGE assignment evaluation produced "@ + decimal(got) + " rows, expected "@ + decimal(
        expected,
    )
}

/// Checks that the evaluation gave back one row for each matched row: `got` is
/// the number of rows of its batches, `None` where it gave no batch.
pub fn check_evaluated_rows(got: Option<usize>, expected: usize) -> (r: Result<()>)
    ensures
        r is Ok <==> got == Some(expected),
        r matches Err(e) ==> match got {
            None => e.says("MERGE assignment evaluation produced no rows"@),
            Some(n) => e.says(row_count_message(n as nat, expected as nat)),
        },
{
    match got {
        None => Err(other("MERGE assignment evaluation produced no rows")),
        Some(n) => {
            if n == expected {
                Ok(())
            } else {
                let mut message: String = "MERGE assignment evaluation produced ".to_owned();
                let a = decimal_text(n as u64);
                message.append(a.as_str());
                message.append(" rows, expected ");
                let b = decimal_text(expected as u64);
                message.append(b.as_str());
                Err(other(message.as_str()))
            }
        },
    }
}

/// Whether an evaluated column is an untyped null that has to take the type of
/// its target.
pub open spec fn needs_cast(evaluated: DataType, target: Field) -> bool {
    evaluated == DataType::Null && target.data_type != DataType::Null
}

pub open spec fn null_assigned_message(column: Seq<char>) -> Seq<char> {
    "MERGE UPDATE SET assigns NULL to non-nullable column '"@ + column + "'"@
}

/// Whether column `i` is an untyped null for a column that admits none.
pub open spec fn null_refused(types: Seq<DataType>, fields: Seq<Field>, i: int) -> bool {
    needs_cast(types[i], fields[i]) && !fields[i].nullable
}

/// Finds the evaluated columns that have to be cast to the type of their
/// target, as `SET column = NULL` gives them. A null for a column that admits
/// none is refused before anything is written.
pub fn null_columns_to_cast(evaluated: &Vec<DataType>, target_fields: &Vec<Field>) -> (r: Result<
    Vec<bool>,
>)
    requires
        evaluated@.len() >= target_fields@.len(),
    ensures
        match r {
            Ok(casts) => {
                &&& casts@.len() == target_fields@.len()
                &&& forall|i: int|
                    0 <= i < casts@.len() ==> {
                        &&& #[trigger] casts@[i] == needs_cast(evaluated@[i], target_fields@[i])
                        &&& !null_refused(evaluated@, target_fields@, i)
                    }
            },
            Err(e) => exists|i: int|
                {
                    &&& 0 <= i < target_fields@.len()
                    &&& #[trigger] null_refused(evaluated@, target_fields@, i)
                    &&& forall|k: int|
                        0 <= k < i ==> !#[trigger] null_refused(evaluated@, target_fields@, k)
                    &&& e.says(null_assigned_message(target_fields@[i].name@))
                },
        },
{
    let mut casts: Vec<bool> = Vec::new();
    let mut i: usize = 0;
    while i < target_fields.len()
        invariant
            i <= target_fields@.len() <= evaluated@.len(),
            casts@.len() == i,
            forall|k: int|
                0 <= k < i ==> #[trigger] casts@[k] == needs_cast(evaluated@[k], target_fields@[k]),
            forall|k: int|
                0 <= k < i ==> !#[trigger] null_refused(evaluated@, target_fields@, k),
        decreases target_fields@.len() - i,
    {
        let field = &target_fields[i];
        let untyped = matches!(evaluated[i], DataType::Null);
        let typed = !matches!(field.data_type, DataType::Null);
        if untyped && typed && !field.nullable {
            assert(null_refused(evaluated@, target_fields@, i as int));
            let mut message: String =
                "MERGE UPDATE SET assigns NULL to non-nullable column '".to_owned();
            message.append(field.name.as_str());
            message.append("'");
            return Err(other(message.as_str()));
        }
        assert(!null_refused(evaluated@, target_fields@, i as int));
        casts.push(untyped && typed);
        i = i + 1;
    }
    Ok(casts)
}

pub open spec fn nulls_received_message(nulls: nat) -> Seq<char> {
    "non-nullable column received "@ + decimal(nulls) + " NULL value(s) from SET expression"@
}

/// Whether column `i` holds nulls that it does not admit.
pub open spec fn holds_nulls(fields: Seq<Field>, null_counts: Seq<usize>, i: int) -> bool {
    !fields[i].nullable && null_counts[i] > 0
}

/// Checks that rows about to be written hold no null in a column that admits
/// none: `null_counts[i]` is the number of nulls in column `i`.
///
/// An expression that is no literal can still evaluate to null, and the file
/// format would take it.
pub fn enforce_non_nullable_post_image(
    table_name: &str,
    target_data_fields: &Vec<Field>,
    null_counts: &Vec<usize>,
) -> (r: Result<()>)
    requires
        null_counts@.len() >= target_data_fields@.len(),
    ensures
        match r {
            Ok(_) => forall|i: int|
                0 <= i < target_data_fields@.len() ==> !#[trigger] holds_nulls(
                    target_data_fields@,
                    null_counts@,
                    i,
                ),
            Err(e) => exists|i: int|
                {
                    &&& 0 <= i < target_data_fields@.len()
                    &&& #[trigger] holds_nulls(target_data_fields@, null_counts@, i)
                    &&& forall|k: int|
                        0 <= k < i ==> !#[trigger] holds_nulls(
                            target_data_fields@,
                            null_counts@,
                            k,
                        )
                    &&& mismatch(
                        e,
                        target_data_fields@[i].name@,
                        nulls_received_message(null_counts@[i] as nat),
                        table_name@,
                    )
                },
        },
{
    let mut i: usize = 0;
    while i < target_data_fields.len()
        invariant
            i <= target_data_fields@.len() <= null_counts@.len(),
            forall|k: int|
                0 <= k < i ==> !#[trigger] holds_nulls(target_data_fields@, null_counts@, k),
        decreases target_data_fields@.len() - i,
    {
        let field = &target_data_fields[i];
        if !field.nullable && null_counts[i] > 0 {
            assert(holds_nulls(target_data_fields@, null_counts@, i as int));
            let mut expected: String = "non-nullable column received ".to_owned();
            let nulls = decimal_text(null_counts[i] as u64);
            expected.append(nulls.as_str());
            expected.append(" NULL value(s) from SET expression");
            return Err(
                QueryError::Core(
                    CoreError::SchemaMismatch {
                        column: field.name.clone(),
                        expected,
                        path: table_name.to_owned(),
                    },
                ),
            );
        }
        assert(!holds_nulls(target_data_fields@, null_counts@, i as int));
        i = i + 1;
    }
    Ok(())
}

/// Whether `e` is a schema mismatch with these contents.
pub open spec fn mismatch(
    e: QueryError,
    column: Seq<char>,
    expected: Seq<char>,
    path: Seq<char>,
) -> bool {
    e matches QueryError::Core(
        CoreError::SchemaMismatch { column: c, expected: x, path: p },
    ) && c@ == column && x@ == expected && p@ == path
}

/// A matched row is numbered by its place, and lacks the columns that it does not
/// name.
pub proof fn rows_are_numbered_by_their_place(row: RowView, name: Seq<char>, i: int)
    ensures
        0 <= i <= i64::MAX ==> (row_number(i) matches Scalar::Int64(Some(n)) && n == i),
        lacks(row, name) <==> !row.columns.contains(name),
{
    the_first_occurrence_is_found(row.columns, name);
}

/// A column that evaluates to an untyped null is cast to the type of its target,
/// unless that is untyped too, and is refused where the target admits no null; so is
/// any null that an expression gave for such a target.
pub proof fn nulls_are_cast_or_refused(
    types: Seq<DataType>,
    fields: Seq<Field>,
    null_counts: Seq<usize>,
    i: int,
)
    ensures
        needs_cast(types[i], fields[i]) <==> types[i] is Null && !(fields[i].data_type is Null),
        null_refused(types, fields, i) <==> types[i] is Null && !(fields[i].data_type is Null)
            && !fields[i].nullable,
        fields[i].nullable ==> !holds_nulls(fields, null_counts, i),
        !fields[i].nullable ==> (holds_nulls(fields, null_counts, i) <==> null_counts[i] != 0),
{
}

/// The message names the number of rows that came first, then the expected one.
pub proof fn messages_name_what_came_and_what_was_expected(got: nat, expected: nat)
    ensures
        exists|a: Seq<char>, b: Seq<char>|
            {
                &&& is_numeral(a) && numeral(a) == got
                &&& is_numeral(b) && numeral(b) == expected
                &&& row_count_message(got, expected) == #[trigger] (
                "MERGE assignment evaluation produced "@ + a + " rows, expected "@ + b)
            },
{
    decimal_writes_the_number(got);
    decimal_writes_the_number(expected);
    let a = decimal(got);
    let b = decimal(expected);
    assert(row_count_message(got, expected) == "MERGE assignment evaluation produced "@ + a
        + " rows, expected "@ + b);
}

} // verus!
