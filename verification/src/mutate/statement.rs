//! What a SQL statement asks for.
use std::collections::HashMap;

use vstd::prelude::*;
use vstd::string::*;

use super::merge::MatchedAction;
use super::sql_text::{join_piece, joined};
use super::update::{
    coerce_update_null_literals, coerced_from, coerced_up_to, data_columns, has_data_column,
    null_assignment_refused, null_refusal, unknown_target_message, validate_update_targets,
};
use crate::error::{other, QueryError, Result};
use crate::expr::Expr;
use crate::scalar::{columns_are_found_by_name, Schema};
use crate::sql::{
    assignment_views, bare_target, last_ident, last_part, parse_sql, parsed_sql, qualified_target,
    statement_views, ActionView,
    AliasView, Assignment, AssignmentTarget, AssignmentView, ClauseView, Delete, FactorView, Ident, IdentView,
    Merge, MergeAction, MergeClause, MergeClauseKind, NameView, OnPredicate, OnView, Operand, OperandView,
    Relation, RelationView, SqlStatement, TableFactor, Update,
};
use crate::sql::tokens::{flushes_unnamed, names_no_channel};
use crate::storage::MatchLoc;
use crate::text::laws::{decimal_writes_the_number, is_numeral, numeral};
use crate::text::{decimal, decimal_text, lowercase, same_text, texts, to_lowercase};

verus! {

// ---------------------------------------------------------------------------
// One statement at a time
// ---------------------------------------------------------------------------
pub open spec fn parse_error_message(error: Seq<char>) -> Seq<char> {
    "SQL parse error: "@ + error
}

pub open spec fn statement_count_message(caller: Seq<char>, n: nat) -> Seq<char> {
    caller + ": expected exactly one statement, got "@ + decimal(n)
}

/// The one statement of what the parser gave; `caller` names the function that
/// asks, for the message.
pub fn sole_statement(caller: &str, mut statements: Vec<SqlStatement>) -> (r: Result<SqlStatement>)
    ensures
        match r {
            Ok(s) => statements@.len() == 1 && s == statements@[0],
            Err(e) => statements@.len() != 1 && e.says(
                statement_count_message(caller@, statements@.len()),
            ),
        },
{
    let n: usize = statements.len();
    if n == 1 {
        match statements.pop() {
            Some(s) => return Ok(s),
            None => {},
        }
    }
    let mut message: String = caller.to_owned();
    message.append(": expected exactly one statement, got ");
    let count = decimal_text(n as u64);
    message.append(count.as_str());
    Err(other(message.as_str()))
}

/// Parses a text that has to be one statement. A FLUSH for a channel that it
/// does not name, which the parser does not stand, is a parse error too.
pub fn parse_statement(caller: &str, sql: &str) -> (r: Result<SqlStatement>)
    ensures
        if flushes_unnamed(sql@) {
            r matches Err(e) && e.says(
                parse_error_message("FLUSH RELAY LOGS FOR CHANNEL names no channel"@),
            )
        } else {
            match parsed_sql(sql@) {
                Ok(statements) => match r {
                    Ok(s) => statements.len() == 1 && s@ == statements[0],
                    Err(e) => statements.len() != 1 && e.says(
                        statement_count_message(caller@, statements.len()),
                    ),
                },
                Err(error) => r matches Err(e) && e.says(parse_error_message(error)),
            }
        },
{
    if names_no_channel(sql) {
        let mut message: String = "SQL parse error: ".to_owned();
        message.append("FLUSH RELAY LOGS FOR CHANNEL names no channel");
        return Err(other(message.as_str()));
    }
    match parse_sql(sql) {
        Ok(statements) => {
            assert(statement_views(statements@).len() == statements@.len());
            sole_statement(caller, statements)
        },
        Err(error) => {
            let mut message: String = "SQL parse error: ".to_owned();
            message.append(error.as_str());
            Err(other(message.as_str()))
        },
    }
}

/// An identifier as columns are resolved: without quotes in lower case, in
/// quotes as it is.
pub open spec fn normalized(ident: IdentView) -> Seq<char> {
    if ident.quote is None {
        lowercase(ident.value)
    } else {
        ident.value
    }
}

pub fn normalize_sql_identifier(ident: &Ident) -> (r: String)
    ensures
        r@ == normalized(ident@),
{
    if ident.quote.is_none() {
        to_lowercase(ident.value.as_str())
    } else {
        ident.value.clone()
    }
}

// ---------------------------------------------------------------------------
// DELETE
// ---------------------------------------------------------------------------
/// The table that a DELETE is from, as it is written.
pub fn delete_target(delete: &Delete) -> (r: Result<String>)
    ensures
        ({
            let from = delete.from_views();
            if from.len() != 1 {
                r matches Err(e) && e.says(
                    "execute_sql: DELETE with multiple or zero FROM tables is not supported"@,
                )
            } else {
                match from[0].relation {
                    RelationView::Table { name, .. } => r matches Ok(t) && t@ == name.text,
                    _ => r matches Err(e) && e.says(
                        "execute_sql: DELETE FROM target must be a plain table name"@,
                    ),
                }
            }
        }),
        match qualified_target(SqlStatement::Delete(*delete)@) {
            Some(name) => r matches Ok(t) && t@ == name,
            None => r is Err,
        },
{
    assert(delete.from_views().len() == delete.from@.len());
    if delete.from.len() != 1 {
        return Err(
            other("execute_sql: DELETE with multiple or zero FROM tables is not supported"),
        );
    }
    assert(delete.from_views()[0] == delete.from@[0]@);
    match &delete.from[0].relation {
        Relation::Table { name, .. } => Ok(name.text.clone()),
        _ => Err(other("execute_sql: DELETE FROM target must be a plain table name")),
    }
}

/// The offsets of the locations in one fragment, in order.
pub open spec fn offsets_in(locs: Seq<MatchLoc>, fragment_id: u64) -> Seq<u32>
    decreases locs.len(),
{
    if locs.len() == 0 {
        seq![]
    } else {
        let front = offsets_in(locs.drop_last(), fragment_id);
        if locs.last().fragment_id == fragment_id {
            front.push(locs.last().offset)
        } else {
            front
        }
    }
}

/// Whether some location is in the fragment.
pub open spec fn touches(locs: Seq<MatchLoc>, fragment_id: u64) -> bool {
    exists|i: int| 0 <= i < locs.len() && (#[trigger] locs[i]).fragment_id == fragment_id
}

/// Groups the offsets of located rows by fragment, as deletions are committed.
pub fn group_by_fragment(locs: &Vec<MatchLoc>) -> (r: HashMap<u64, Vec<u32>>)
    ensures
        forall|f: u64| #[trigger] r@.contains_key(f) <==> touches(locs@, f),
        forall|f: u64|
            #[trigger] r@.contains_key(f) ==> r@[f]@ == offsets_in(locs@, f),
{
    let mut out: HashMap<u64, Vec<u32>> = HashMap::new();
    let mut i: usize = 0;
    assert(locs@.take(0) =~= seq![]);
    while i < locs.len()
        invariant
            i <= locs@.len(),
            forall|f: u64| #[trigger] out@.contains_key(f) <==> touches(locs@.take(i as int), f),
            forall|f: u64|
                #[trigger] out@.contains_key(f) ==> out@[f]@ == offsets_in(
                    locs@.take(i as int),
                    f,
                ),
            forall|f: u64|
                !(#[trigger] out@.contains_key(f)) ==> offsets_in(locs@.take(i as int), f).len()
                    == 0,
        decreases locs@.len() - i,
    {
        let ghost seen = locs@.take(i as int);
        let ghost next = locs@.take(i as int + 1);
        assert(next.drop_last() =~= seen);
        assert(next.last() == locs@[i as int]);
        let ghost before = out@;
        let loc = locs[i];
        let mut offsets: Vec<u32> = match out.remove(&loc.fragment_id) {
            Some(v) => v,
            None => Vec::new(),
        };
        assert(offsets@ =~= offsets_in(seen, loc.fragment_id));
        offsets.push(loc.offset);
        out.insert(loc.fragment_id, offsets);
        assert forall|f: u64| #[trigger] out@.contains_key(f) <==> touches(next, f) by {
            assert(next[i as int] == locs@[i as int]);
            if touches(seen, f) {
                let k = choose|k: int| 0 <= k < seen.len() && (#[trigger] seen[k]).fragment_id == f;
                assert(next[k].fragment_id == f);
            }
            if touches(next, f) && f != loc.fragment_id {
                let k = choose|k: int| 0 <= k < next.len() && (#[trigger] next[k]).fragment_id == f;
                assert(seen[k].fragment_id == f);
            }
            assert(out@.contains_key(f) <==> before.contains_key(f) || f == loc.fragment_id);
        }
        assert forall|f: u64| #[trigger] out@.contains_key(f) implies out@[f]@ == offsets_in(
            next,
            f,
        ) by {
            if f != loc.fragment_id {
                assert(before.contains_key(f));
            }
        }
        assert forall|f: u64| !(#[trigger] out@.contains_key(f)) implies offsets_in(next, f).len()
            == 0 by {
            assert(!before.contains_key(f));
        }
        i = i + 1;
    }
    assert(locs@.take(i as int) =~= locs@);
    out
}

/// How many of the locations are at an offset of a fragment.
pub open spec fn times_located(locs: Seq<MatchLoc>, fragment_id: u64, offset: u32) -> nat
    decreases locs.len(),
{
    if locs.len() == 0 {
        0
    } else {
        times_located(locs.drop_last(), fragment_id, offset) + if locs.last().fragment_id
            == fragment_id && locs.last().offset == offset {
            1nat
        } else {
            0nat
        }
    }
}

/// Grouping loses no row and adds none: an offset is listed for a fragment
/// exactly as often as it is located there.
pub proof fn grouping_keeps_every_row(locs: Seq<MatchLoc>, fragment_id: u64, offset: u32)
    ensures
        offsets_in(locs, fragment_id).to_multiset().count(offset) == times_located(
            locs,
            fragment_id,
            offset,
        ),
    decreases locs.len(),
{
    broadcast use vstd::seq_lib::group_to_multiset_ensures;

    if locs.len() > 0 {
        grouping_keeps_every_row(locs.drop_last(), fragment_id, offset);
    }
}

/// Whether mutations go through the log: as the override says, else as it is
/// configured, else they do.
pub open spec fn wal_mode(wal_override: Option<Seq<char>>, configured: Option<bool>) -> bool {
    match wal_override {
        Some(v) => v == "1"@,
        None => match configured {
            Some(mode) => mode,
            None => true,
        },
    }
}

/// Whether mutations are committed through the log: what the override says,
/// where it is set; else what the table's provider is configured to; else yes.
pub fn resolve_wal_mode(wal_override: Option<&str>, configured: Option<bool>) -> (r: bool)
    ensures
        r == wal_mode(
            match wal_override {
                Some(v) => Some(v@),
                None => None,
            },
            configured,
        ),
{
    match wal_override {
        Some(v) => same_text(v, "1"),
        None => match configured {
            Some(mode) => mode,
            None => true,
        },
    }
}

// ---------------------------------------------------------------------------
// UPDATE
// ---------------------------------------------------------------------------
/// The bare name of a plain table.
pub open spec fn bare_name(relation: RelationView) -> Option<Seq<char>> {
    match relation {
        RelationView::Table { name, .. } => match last_ident(name) {
            Some(ident) => Some(ident.value),
            None => None,
        },
        _ => None,
    }
}

fn bare_table_name(factor: &TableFactor) -> (r: Option<String>)
    ensures
        crate::scalar::text_view(r) == bare_name(factor@.relation),
{
    match &factor.relation {
        Relation::Table { name, .. } => match last_part(name) {
            Some(ident) => Some(ident.value.clone()),
            None => None,
        },
        _ => None,
    }
}

/// The table that an UPDATE is of: the bare identifier, since the name is
/// quoted again wherever it goes into SQL text.
pub fn update_target(update: &Update) -> (r: Result<String>)
    ensures
        match bare_name(update.table@.relation) {
            Some(name) => r matches Ok(t) && t@ == name,
            None => r matches Err(e) && e.says(
                "execute_sql: UPDATE target must be a plain table name"@,
            ),
        },
        match bare_target(SqlStatement::Update(*update)@) {
            Some(name) => r matches Ok(t) && t@ == name,
            None => r is Err,
        },
{
    match bare_table_name(&update.table) {
        Some(name) => Ok(name),
        None => Err(other("execute_sql: UPDATE target must be a plain table name")),
    }
}

/// The column that an assignment of an UPDATE is to.
pub fn update_target_column(assignment: &Assignment) -> (r: Result<String>)
    ensures
        match assignment@.target {
            None => r matches Err(e) && e.says(
                "execute_sql: tuple assignment targets in UPDATE are not supported"@,
            ),
            Some(name) => if name.parts.len() == 0 {
                r matches Err(e) && e.says("UPDATE SET target column name is empty"@)
            } else {
                match last_ident(name) {
                    Some(ident) => r matches Ok(c) && c@ == normalized(ident),
                    None => r matches Err(e) && e.says(
                        "UPDATE SET target column name is not a plain identifier"@,
                    ),
                }
            },
        },
        r matches Ok(c) ==> assigns_to(assignment@, c@),
        r is Err ==> forall|c: Seq<char>| !#[trigger] assigns_to(assignment@, c),
{
    match &assignment.target {
        AssignmentTarget::Tuple => Err(
            other("execute_sql: tuple assignment targets in UPDATE are not supported"),
        ),
        AssignmentTarget::ColumnName(name) => {
            assert(name@.parts.len() == name.parts@.len());
            if name.parts.len() == 0 {
                return Err(other("UPDATE SET target column name is empty"));
            }
            match last_part(name) {
                Some(ident) => Ok(normalize_sql_identifier(ident)),
                None => Err(other("UPDATE SET target column name is not a plain identifier")),
            }
        },
    }
}

/// Checks the assignments of an UPDATE before any row is read: there is one,
/// each is to a data column, and a null is to a column that admits it. Untyped
/// nulls take the type of their column.
pub fn prepare_assignments(table_name: &str, schema: &Schema, sets: &mut Vec<(String, Expr)>) -> (r:
    Result<()>)
    ensures
        final(sets)@.len() == old(sets)@.len(),
        match r {
            Ok(_) => {
                &&& old(sets)@.len() > 0
                &&& forall|i: int|
                    0 <= i < old(sets)@.len() ==> {
                        &&& data_columns(*schema).contains((#[trigger] old(sets)@[i]).0@)
                        &&& !null_assignment_refused(*schema, old(sets)@[i])
                        &&& coerced_from(*schema, old(sets)@[i], final(sets)@[i])
                    }
            },
            Err(e) => {
                ||| {
                    &&& old(sets)@.len() == 0
                    &&& e.says("execute_sql: UPDATE with no SET assignments"@)
                    &&& final(sets)@ == old(sets)@
                }
                ||| {
                    &&& unknown_target_refused(*schema, table_name@, old(sets)@, e)
                    &&& final(sets)@ == old(sets)@
                }
                ||| {
                    &&& forall|i: int|
                        0 <= i < old(sets)@.len() ==> data_columns(*schema).contains(
                            (#[trigger] old(sets)@[i]).0@,
                        )
                    &&& null_assignment_error(
                        *schema,
                        table_name@,
                        old(sets)@,
                        final(sets)@,
                        e,
                    )
                }
            },
        },
{
    if sets.len() == 0 {
        return Err(other("execute_sql: UPDATE with no SET assignments"));
    }
    match validate_update_targets(table_name, schema, sets) {
        Ok(_) => {},
        Err(e) => {
            assert(unknown_target_refused(*schema, table_name@, sets@, e));
            return Err(e);
        },
    }
    match coerce_update_null_literals(table_name, schema, sets) {
        Ok(_) => Ok(()),
        Err(e) => {
            assert(null_assignment_error(*schema, table_name@, old(sets)@, sets@, e));
            Err(e)
        },
    }
}

/// Whether `e` names the first assignment that is to no data column.
pub open spec fn unknown_target_refused(
    schema: Schema,
    table: Seq<char>,
    sets: Seq<(String, Expr)>,
    e: QueryError,
) -> bool {
    exists|i: int|
        {
            &&& 0 <= i < sets.len()
            &&& !data_columns(schema).contains((#[trigger] sets[i]).0@)
            &&& forall|k: int|
                0 <= k < i ==> data_columns(schema).contains((#[trigger] sets[k]).0@)
            &&& e.says(unknown_target_message(sets[i].0@, table))
        }
}

/// Whether `e` is about the first null that its column does not admit; the
/// assignments before it have been coerced.
pub open spec fn null_assignment_error(
    schema: Schema,
    table: Seq<char>,
    sets: Seq<(String, Expr)>,
    after: Seq<(String, Expr)>,
    e: QueryError,
) -> bool {
    exists|i: int|
        {
            &&& 0 <= i < sets.len()
            &&& null_assignment_refused(schema, #[trigger] sets[i])
            &&& forall|k: int|
                0 <= k < i ==> !null_assignment_refused(schema, #[trigger] sets[k])
            &&& null_refusal(schema, table, sets[i], e)
            &&& coerced_up_to(schema, sets, after, i)
        }
}

// ---------------------------------------------------------------------------
// MERGE
// ---------------------------------------------------------------------------
pub open spec fn merge_target_message(text: Seq<char>) -> Seq<char> {
    "MERGE INTO target must be a plain table name, got: "@ + text
}

/// The table that a MERGE is into.
pub fn merge_target(merge: &Merge) -> (r: Result<String>)
    ensures
        match merge.table@.relation {
            RelationView::Table { name, .. } => match last_ident(name) {
                Some(ident) => r matches Ok(t) && t@ == ident.value,
                None => r matches Err(e) && e.says("MERGE: cannot extract target table name"@),
            },
            _ => r matches Err(e) && e.says(merge_target_message(merge.table@.text)),
        },
        match bare_target(SqlStatement::Merge(*merge)@) {
            Some(name) => r matches Ok(t) && t@ == name,
            None => r is Err,
        },
{
    match &merge.table.relation {
        Relation::Table { name, .. } => match last_part(name) {
            Some(ident) => Ok(ident.value.clone()),
            None => Err(other("MERGE: cannot extract target table name")),
        },
        _ => {
            let mut message: String = "MERGE INTO target must be a plain table name, got: ".to_owned();
            message.append(merge.table.text.as_str());
            Err(other(message.as_str()))
        },
    }
}

/// The select list that names the columns of a subquery as the alias does.
/// A VALUES list names its columns `column1`, `column2`, and so on.
pub open spec fn renamed_columns(columns: Seq<Seq<char>>) -> Seq<Seq<char>> {
    Seq::new(
        columns.len(),
        |i: int| "column"@ + decimal((i + 1) as nat) + " AS "@ + columns[i],
    )
}

/// The query that reads a MERGE source, or the message of the refusal.
pub open spec fn source_sql(source: FactorView) -> core::result::Result<Seq<char>, Seq<char>> {
    match source.relation {
        RelationView::Derived { subquery, alias } => match alias {
            Some(a) => if a.columns.len() > 0 {
                Ok(
                    "SELECT "@ + joined(renamed_columns(a.columns), ", "@) + " FROM ("@ + subquery
                        + ") AS __mgr_inner__"@,
                )
            } else {
                Ok("SELECT * FROM ("@ + subquery + ") AS "@ + a.name)
            },
            None => Ok("SELECT * FROM ("@ + subquery + ") AS __mgr_src__"@),
        },
        RelationView::Table { name, alias } => {
            let table = match last_ident(name) {
                Some(ident) => ident.value,
                None => name.text,
            };
            match alias {
                Some(a) => Ok("SELECT * FROM "@ + table + " AS "@ + a.name),
                None => Ok("SELECT * FROM "@ + table),
            }
        },
        RelationView::Other => Err(
            "MERGE USING source must be a subquery or named table, got: "@ + source.text,
        ),
    }
}

fn renamed_list(columns: &Vec<String>) -> (r: String)
    ensures
        r@ == joined(renamed_columns(texts(columns@)), ", "@),
{
    let ghost names = texts(columns@);
    let mut out = String::new();
    let ghost pieces: Seq<Seq<char>> = seq![];
    let mut i: usize = 0;
    while i < columns.len()
        invariant
            i <= columns@.len(),
            names == texts(columns@),
            pieces.len() == i,
            forall|k: int| 0 <= k < i ==> pieces[k] == renamed_columns(names)[k],
            out@ == joined(pieces, ", "@),
        decreases columns@.len() - i,
    {
        let mut piece: String = "column".to_owned();
        let number = decimal_text(i as u64 + 1);
        piece.append(number.as_str());
        piece.append(" AS ");
        piece.append(columns[i].as_str());
        assert(piece@ == renamed_columns(names)[i as int]);
        join_piece(&mut out, i == 0, ", ", piece.as_str(), Ghost(pieces));
        proof {
            pieces = pieces.push(piece@);
        }
        i = i + 1;
    }
    assert(pieces =~= renamed_columns(names));
    out
}

/// Writes the query that reads a MERGE source: a subquery, its columns named
/// as the alias names them, or a named table.
pub fn merge_source_query(source: &TableFactor) -> (r: Result<String>)
    ensures
        match source_sql(source@) {
            Ok(sql) => r matches Ok(s) && s@ == sql,
            Err(message) => r matches Err(e) && e.says(message),
        },
{
    match &source.relation {
        Relation::Derived { subquery, alias } => {
            let mut out: String = "SELECT ".to_owned();
            match alias {
                Some(a) => {
                    assert(a@.columns.len() == a.columns@.len());
                    if a.columns.len() > 0 {
                        let list = renamed_list(&a.columns);
                        out.append(list.as_str());
                        out.append(" FROM (");
                        out.append(subquery.as_str());
                        out.append(") AS __mgr_inner__");
                        return Ok(out);
                    }
                    let mut all: String = "SELECT * FROM (".to_owned();
                    all.append(subquery.as_str());
                    all.append(") AS ");
                    all.append(a.name.as_str());
                    Ok(all)
                },
                None => {
                    let mut all: String = "SELECT * FROM (".to_owned();
                    all.append(subquery.as_str());
                    all.append(") AS __mgr_src__");
                    Ok(all)
                },
            }
        },
        Relation::Table { name, alias } => {
            let table = match last_part(name) {
                Some(ident) => ident.value.clone(),
                None => name.text.clone(),
            };
            let mut all: String = "SELECT * FROM ".to_owned();
            all.append(table.as_str());
            match alias {
                Some(a) => {
                    all.append(" AS ");
                    all.append(a.name.as_str());
                },
                None => {},
            }
            Ok(all)
        },
        Relation::Other => {
            let mut message: String =
                "MERGE USING source must be a subquery or named table, got: ".to_owned();
            message.append(source.text.as_str());
            Err(other(message.as_str()))
        },
    }
}

/// Checks that reading a MERGE source gave a batch, from which its schema is
/// taken.
pub fn require_source_batches(batches: usize) -> (r: Result<()>)
    ensures
        r is Ok <==> batches > 0,
        r matches Err(e) ==> e.says("MERGE source produced no batches; cannot infer schema"@),
{
    if batches > 0 {
        Ok(())
    } else {
        Err(other("MERGE source produced no batches; cannot infer schema"))
    }
}

/// The name by which a MERGE refers to its source: the alias, or the name of a
/// table without one.
pub open spec fn source_alias(source: FactorView) -> Option<Seq<char>> {
    match source.relation {
        RelationView::Derived { alias: Some(a), .. } => Some(a.name),
        RelationView::Table { alias: Some(a), .. } => Some(a.name),
        RelationView::Table { name, alias: None } => match last_ident(name) {
            Some(ident) => Some(ident.value),
            None => None,
        },
        _ => None,
    }
}

pub fn extract_source_alias(source: &TableFactor) -> (r: Option<String>)
    ensures
        crate::scalar::text_view(r) == source_alias(source@),
{
    match &source.relation {
        Relation::Derived { alias, .. } => match alias {
            Some(a) => Some(a.name.clone()),
            None => None,
        },
        Relation::Table { name, alias } => match alias {
            Some(a) => Some(a.name.clone()),
            None => match last_part(name) {
                Some(ident) => Some(ident.value.clone()),
                None => None,
            },
        },
        Relation::Other => None,
    }
}

/// The column of an operand `qualifier.column` whose qualifier is the target
/// table.
pub open spec fn target_column(operand: OperandView, target: Seq<char>) -> Option<Seq<char>> {
    match operand {
        Some(parts) => if parts.len() == 2 && lowercase(parts[0].value) == lowercase(target) {
            Some(normalized(parts[1]))
        } else {
            None
        },
        None => None,
    }
}

fn operand_column(operand: &Operand, target_lower: &String, target: Ghost<Seq<char>>) -> (r: Option<
    String,
>)
    requires
        target_lower@ == lowercase(target@),
    ensures
        crate::scalar::text_view(r) == target_column(operand@, target@),
{
    match operand {
        Operand::Compound(parts) => {
            assert(operand@->0.len() == parts@.len());
            if parts.len() == 2 {
                assert(operand@->0[0] == parts@[0]@);
                assert(operand@->0[1] == parts@[1]@);
                let qualifier = to_lowercase(parts[0].value.as_str());
                if qualifier == *target_lower {
                    Some(normalize_sql_identifier(&parts[1]))
                } else {
                    None
                }
            } else {
                None
            }
        },
        Operand::Other => None,
    }
}

pub open spec fn ambiguous_on_message(target: Seq<char>, on: Seq<char>) -> Seq<char> {
    "MERGE ON predicate must reference the target table explicitly, e.g. `"@ + target
        + ".key = source.key`; cannot disambiguate plain identifiers in: "@ + on
}

pub open spec fn no_equality_message(on: Seq<char>) -> Seq<char> {
    "MERGE ON predicate must be a simple equality (`=`); got: "@ + on
}

/// The key column that an ON predicate names, or the message of the refusal:
/// the column of the side that the target table qualifies, the left one first.
pub open spec fn merge_key_column(on: OnView, target: Seq<char>) -> core::result::Result<
    Seq<char>,
    Seq<char>,
> {
    match on.equality {
        Some((left, right)) => match target_column(left, target) {
            Some(c) => Ok(c),
            None => match target_column(right, target) {
                Some(c) => Ok(c),
                None => Err(ambiguous_on_message(target, on.text)),
            },
        },
        None => Err(no_equality_message(on.text)),
    }
}

/// The key column of the target table, from `target.column = source.column` or
/// the reverse. Columns without a qualifier are refused: either side could be
/// the target.
pub fn extract_merge_key(on: &OnPredicate, target_table: &str) -> (r: Result<String>)
    ensures
        match merge_key_column(on@, target_table@) {
            Ok(column) => r matches Ok(c) && c@ == column,
            Err(message) => r matches Err(e) && e.says(message),
        },
{
    match &on.equality {
        Some(sides) => {
            let target_lower = to_lowercase(target_table);
            match operand_column(&sides.0, &target_lower, Ghost(target_table@)) {
                Some(c) => return Ok(c),
                None => {},
            }
            match operand_column(&sides.1, &target_lower, Ghost(target_table@)) {
                Some(c) => return Ok(c),
                None => {},
            }
            let mut message: String =
                "MERGE ON predicate must reference the target table explicitly, e.g. `".to_owned();
            message.append(target_table);
            message.append(".key = source.key`; cannot disambiguate plain identifiers in: ");
            message.append(on.text.as_str());
            Err(other(message.as_str()))
        },
        None => {
            let mut message: String =
                "MERGE ON predicate must be a simple equality (`=`); got: ".to_owned();
            message.append(on.text.as_str());
            Err(other(message.as_str()))
        },
    }
}

/// A column with the text of the value that it is assigned.
pub type PairView = (Seq<char>, Seq<char>);

/// The views of a list of pairs.
pub open spec fn pair_views(pairs: Seq<(String, String)>) -> Seq<PairView> {
    pairs.map_values(|p: (String, String)| (p.0@, p.1@))
}

/// The first parts of a sequence of pairs.
pub open spec fn firsts(pairs: Seq<PairView>) -> Seq<Seq<char>> {
    pairs.map_values(|p: PairView| p.0)
}

pub open spec fn merge_unknown_target_message(column: Seq<char>, table: Seq<char>) -> Seq<char> {
    "MERGE UPDATE SET target column '"@ + column + "' does not exist in table '"@ + table + "'"@
}

pub open spec fn merge_repeated_target_message(column: Seq<char>) -> Seq<char> {
    "MERGE UPDATE SET target column '"@ + column + "' specified more than once"@
}

/// One more assignment of a SET list, behind the ones that `done` holds.
pub open spec fn next_assignment(
    table: Seq<char>,
    columns: Seq<Seq<char>>,
    done: Seq<PairView>,
    assignment: AssignmentView,
) -> core::result::Result<Seq<PairView>, Seq<char>> {
    match assignment.target {
        None => Err("MERGE UPDATE SET tuple assignment targets are not supported"@),
        Some(name) => match last_ident(name) {
            None => Err("MERGE UPDATE SET target column name is not a plain identifier"@),
            Some(ident) => {
                let target = normalized(ident);
                if !columns.contains(target) {
                    Err(merge_unknown_target_message(target, table))
                } else if firsts(done).contains(target) {
                    Err(merge_repeated_target_message(target))
                } else {
                    Ok(done.push((target, assignment.value)))
                }
            },
        },
    }
}

/// What a SET list assigns, or the message for its first fault.
pub open spec fn set_list(
    table: Seq<char>,
    columns: Seq<Seq<char>>,
    assignments: Seq<AssignmentView>,
) -> core::result::Result<Seq<PairView>, Seq<char>>
    decreases assignments.len(),
{
    if assignments.len() == 0 {
        Ok(seq![])
    } else {
        match set_list(table, columns, assignments.drop_last()) {
            Ok(done) => next_assignment(table, columns, done, assignments.last()),
            Err(message) => Err(message),
        }
    }
}

proof fn set_list_fault(
    table: Seq<char>,
    columns: Seq<Seq<char>>,
    assignments: Seq<AssignmentView>,
    k: int,
)
    requires
        0 <= k <= assignments.len(),
        set_list(table, columns, assignments.take(k)) is Err,
    ensures
        set_list(table, columns, assignments) == set_list(table, columns, assignments.take(k)),
    decreases assignments.len(),
{
    if k < assignments.len() {
        assert(assignments.drop_last().take(k) =~= assignments.take(k));
        set_list_fault(table, columns, assignments.drop_last(), k);
    } else {
        assert(assignments.take(k) =~= assignments);
    }
}

fn assigned_before(pairs: &Vec<(String, String)>, target: &String) -> (r: bool)
    ensures
        r == firsts(pair_views(pairs@)).contains(target@),
{
    let ghost names = firsts(pair_views(pairs@));
    let mut i: usize = 0;
    while i < pairs.len()
        invariant
            i <= pairs@.len(),
            names == firsts(pair_views(pairs@)),
            names.len() == pairs@.len(),
            forall|k: int| 0 <= k < i ==> names[k] != target@,
        decreases pairs@.len() - i,
    {
        assert(names[i as int] == pairs@[i as int].0@);
        if pairs[i].0 == *target {
            return true;
        }
        i = i + 1;
    }
    false
}

/// The target columns and values of a SET list: plain columns of the table,
/// each assigned once.
pub fn parse_merge_update_assignments(
    table_name: &str,
    schema: &Schema,
    assignments: &Vec<Assignment>,
) -> (r: Result<Vec<(String, String)>>)
    ensures
        match set_list(table_name@, data_columns(*schema), assignment_views(assignments@)) {
            Ok(pairs) => r matches Ok(out) && pair_views(out@) == pairs,
            Err(message) => r matches Err(e) && e.says(message),
        },
{
    let ghost all = assignment_views(assignments@);
    let ghost columns = data_columns(*schema);
    let mut out: Vec<(String, String)> = Vec::new();
    let mut i: usize = 0;
    assert(all.take(0) =~= seq![]);
    assert(pair_views(out@) =~= seq![]);
    while i < assignments.len()
        invariant
            i <= assignments@.len(),
            all == assignment_views(assignments@),
            all.len() == assignments@.len(),
            columns == data_columns(*schema),
            set_list(table_name@, columns, all.take(i as int)) == Ok::<Seq<PairView>, Seq<char>>(
                pair_views(out@),
            ),
        decreases assignments@.len() - i,
    {
        let ghost more = all.take(i as int + 1);
        let ghost done = pair_views(out@);
        assert(more.drop_last() =~= all.take(i as int));
        assert(more.last() == assignments@[i as int]@);
        assert(set_list(table_name@, columns, more) == next_assignment(
            table_name@,
            columns,
            done,
            more.last(),
        ));
        proof {
            if set_list(table_name@, columns, more) is Err {
                set_list_fault(table_name@, columns, all, i as int + 1);
            }
        }
        let assignment = &assignments[i];
        let target = match &assignment.target {
            AssignmentTarget::Tuple => {
                return Err(other("MERGE UPDATE SET tuple assignment targets are not supported"));
            },
            AssignmentTarget::ColumnName(name) => match last_part(name) {
                None => {
                    return Err(
                        other("MERGE UPDATE SET target column name is not a plain identifier"),
                    );
                },
                Some(ident) => normalize_sql_identifier(ident),
            },
        };
        if !has_data_column(schema, &target) {
            let mut message: String = "MERGE UPDATE SET target column '".to_owned();
            message.append(target.as_str());
            message.append("' does not exist in table '");
            message.append(table_name);
            message.append("'");
            return Err(other(message.as_str()));
        }
        if assigned_before(&out, &target) {
            let mut message: String = "MERGE UPDATE SET target column '".to_owned();
            message.append(target.as_str());
            message.append("' specified more than once");
            return Err(other(message.as_str()));
        }
        let ghost pair = (target@, assignment.value@);
        out.push((target, assignment.value.clone()));
        assert(pair_views(out@) =~= done.push(pair));
        i = i + 1;
    }
    assert(all.take(i as int) =~= all);
    Ok(out)
}

/// What the WHEN clauses seen so far ask for: the SET list of the update, and
/// whether there is an insert.
pub struct ClauseState {
    pub update: Option<Seq<PairView>>,
    pub insert: bool,
}

/// One more WHEN clause, or the message of its refusal.
pub open spec fn next_clause(
    table: Seq<char>,
    columns: Seq<Seq<char>>,
    state: ClauseState,
    clause: ClauseView,
) -> core::result::Result<ClauseState, Seq<char>> {
    if clause.condition is Some {
        Err(
            "MERGE: conditional WHEN clauses (WHEN … AND <predicate>) are not supported; only unconditional canonical upsert is supported"@,
        )
    } else {
        match (clause.kind, clause.action) {
            (MergeClauseKind::Matched, ActionView::Update(assignments)) => if state.update is Some {
                Err("MERGE: multiple WHEN MATCHED THEN UPDATE clauses are not supported"@)
            } else {
                match set_list(table, columns, assignments) {
                    Ok(pairs) => Ok(
                        ClauseState { update: Some(pairs), insert: state.insert },
                    ),
                    Err(message) => Err(message),
                }
            },
            (MergeClauseKind::Matched, ActionView::Delete) => Err(
                "MERGE: WHEN MATCHED THEN DELETE is not supported"@,
            ),
            (MergeClauseKind::Matched, ActionView::Insert) => Err(
                "MERGE: WHEN MATCHED THEN INSERT is not a valid MERGE clause"@,
            ),
            (MergeClauseKind::NotMatched, ActionView::Insert) => Ok(
                ClauseState { update: state.update, insert: true },
            ),
            (MergeClauseKind::NotMatched, ActionView::Update(_)) => Err(
                "MERGE: WHEN NOT MATCHED THEN UPDATE is not a valid MERGE clause"@,
            ),
            (MergeClauseKind::NotMatched, ActionView::Delete) => Err(
                "MERGE: WHEN NOT MATCHED THEN DELETE is not a valid MERGE clause"@,
            ),
            (MergeClauseKind::NotMatchedByTarget, _) => Err(
                "MERGE: WHEN NOT MATCHED BY TARGET is not supported; use WHEN NOT MATCHED instead"@,
            ),
            (MergeClauseKind::NotMatchedBySource, _) => Err(
                "MERGE: WHEN NOT MATCHED BY SOURCE is not supported"@,
            ),
        }
    }
}

/// What the WHEN clauses ask for, or the message for the first fault.
pub open spec fn clause_state(
    table: Seq<char>,
    columns: Seq<Seq<char>>,
    clauses: Seq<ClauseView>,
) -> core::result::Result<ClauseState, Seq<char>>
    decreases clauses.len(),
{
    if clauses.len() == 0 {
        Ok(ClauseState { update: None, insert: false })
    } else {
        match clause_state(table, columns, clauses.drop_last()) {
            Ok(state) => next_clause(table, columns, state, clauses.last()),
            Err(message) => Err(message),
        }
    }
}

proof fn clause_fault(
    table: Seq<char>,
    columns: Seq<Seq<char>>,
    clauses: Seq<ClauseView>,
    k: int,
)
    requires
        0 <= k <= clauses.len(),
        clause_state(table, columns, clauses.take(k)) is Err,
    ensures
        clause_state(table, columns, clauses) == clause_state(table, columns, clauses.take(k)),
    decreases clauses.len(),
{
    if k < clauses.len() {
        assert(clauses.drop_last().take(k) =~= clauses.take(k));
        clause_fault(table, columns, clauses.drop_last(), k);
    } else {
        assert(clauses.take(k) =~= clauses);
    }
}

/// The SET list that a MERGE updates with, `None` for all columns, or the
/// message of the refusal. An insert for keys without a live row is required.
pub open spec fn upsert(table: Seq<char>, columns: Seq<Seq<char>>, clauses: Seq<ClauseView>) -> core::result::Result<
    Option<Seq<PairView>>,
    Seq<char>,
> {
    match clause_state(table, columns, clauses) {
        Err(message) => Err(message),
        Ok(state) => if state.update is None && !state.insert {
            Err("MERGE: must have at least one WHEN MATCHED or WHEN NOT MATCHED clause"@)
        } else if !state.insert {
            Err(
                "MERGE: a WHEN NOT MATCHED THEN INSERT clause is required for canonical upsert; MERGE without NOT MATCHED is not supported"@,
            )
        } else {
            match state.update {
                Some(pairs) if pairs.len() > 0 => Ok(Some(pairs)),
                _ => Ok(None),
            }
        },
    }
}

impl MatchedAction {
    /// The SET list of the action, `None` for all columns.
    pub open spec fn set_list(self) -> Option<Seq<PairView>> {
        match self {
            MatchedAction::UpdateAll => None,
            MatchedAction::UpdateAssignments(pairs) => Some(pair_views(pairs@)),
        }
    }
}

/// Maps the WHEN clauses of a MERGE to what is done with live rows; other rows
/// are inserted. Only the canonical upsert is supported.
pub fn merge_action(table_name: &str, schema: &Schema, clauses: &Vec<MergeClause>) -> (r: Result<
    MatchedAction,
>)
    ensures
        match upsert(
            table_name@,
            data_columns(*schema),
            clauses@.map_values(|c: MergeClause| c@),
        ) {
            Ok(list) => r matches Ok(action) && action.set_list() == list,
            Err(message) => r matches Err(e) && e.says(message),
        },
{
    let ghost all = clauses@.map_values(|c: MergeClause| c@);
    let ghost columns = data_columns(*schema);
    let mut update: Option<Vec<(String, String)>> = None;
    let mut insert = false;
    let mut i: usize = 0;
    assert(all.take(0) =~= seq![]);
    while i < clauses.len()
        invariant
            i <= clauses@.len(),
            all == clauses@.map_values(|c: MergeClause| c@),
            all.len() == clauses@.len(),
            columns == data_columns(*schema),
            clause_state(table_name@, columns, all.take(i as int)) == Ok::<ClauseState, Seq<char>>(
                ClauseState {
                    update: match update {
                        Some(pairs) => Some(pair_views(pairs@)),
                        None => None,
                    },
                    insert,
                },
            ),
        decreases clauses@.len() - i,
    {
        let clause = &clauses[i];
        let ghost more = all.take(i as int + 1);
        assert(more.drop_last() =~= all.take(i as int));
        assert(more.last() == clause@);
        proof {
            if clause_state(table_name@, columns, more) is Err {
                clause_fault(table_name@, columns, all, i as int + 1);
            }
        }
        if clause.condition.is_some() {
            return Err(
                other(
                    "MERGE: conditional WHEN clauses (WHEN … AND <predicate>) are not supported; only unconditional canonical upsert is supported",
                ),
            );
        }
        match clause.kind {
            MergeClauseKind::Matched => match &clause.action {
                MergeAction::Update(assignments) => {
                    if update.is_some() {
                        return Err(
                            other(
                                "MERGE: multiple WHEN MATCHED THEN UPDATE clauses are not supported",
                            ),
                        );
                    }
                    match parse_merge_update_assignments(table_name, schema, assignments) {
                        Ok(pairs) => {
                            update = Some(pairs);
                        },
                        Err(e) => return Err(e),
                    }
                },
                MergeAction::Delete => {
                    return Err(other("MERGE: WHEN MATCHED THEN DELETE is not supported"));
                },
                MergeAction::Insert => {
                    return Err(
                        other("MERGE: WHEN MATCHED THEN INSERT is not a valid MERGE clause"),
                    );
                },
            },
            MergeClauseKind::NotMatched => match &clause.action {
                MergeAction::Insert => {
                    insert = true;
                },
                MergeAction::Update(_) => {
                    return Err(
                        other("MERGE: WHEN NOT MATCHED THEN UPDATE is not a valid MERGE clause"),
                    );
                },
                MergeAction::Delete => {
                    return Err(
                        other("MERGE: WHEN NOT MATCHED THEN DELETE is not a valid MERGE clause"),
                    );
                },
            },
            MergeClauseKind::NotMatchedByTarget => {
                return Err(
                    other(
                        "MERGE: WHEN NOT MATCHED BY TARGET is not supported; use WHEN NOT MATCHED instead",
                    ),
                );
            },
            MergeClauseKind::NotMatchedBySource => {
                return Err(other("MERGE: WHEN NOT MATCHED BY SOURCE is not supported"));
            },
        }
        i = i + 1;
    }
    assert(all.take(i as int) =~= all);
    if update.is_none() && !insert {
        return Err(
            other("MERGE: must have at least one WHEN MATCHED or WHEN NOT MATCHED clause"),
        );
    }
    if !insert {
        return Err(
            other(
                "MERGE: a WHEN NOT MATCHED THEN INSERT clause is required for canonical upsert; MERGE without NOT MATCHED is not supported",
            ),
        );
    }
    match update {
        Some(pairs) => {
            assert(pair_views(pairs@).len() == pairs@.len());
            if pairs.len() > 0 {
                Ok(MatchedAction::UpdateAssignments(pairs))
            } else {
                Ok(MatchedAction::UpdateAll)
            }
        },
        None => Ok(MatchedAction::UpdateAll),
    }
}

/// Checks that a SET list has an alias by which to refer to the source.
pub fn require_source_alias(matched: &MatchedAction, alias: &str) -> (r: Result<()>)
    ensures
        r is Err <==> matched is UpdateAssignments && alias@.len() == 0,
        r matches Err(e) ==> e.says(
            "MERGE UPDATE SET requires the USING source to have an alias"@,
        ),
{
    match matched {
        MatchedAction::UpdateAssignments(_) if alias.is_empty() => Err(
            other("MERGE UPDATE SET requires the USING source to have an alias"),
        ),
        _ => Ok(()),
    }
}

/// What a MERGE asks for.
#[derive(Debug, PartialEq, Eq)]
pub struct MergePlan {
    /// The key column of the target.
    pub key: String,
    /// What to do with live rows; other rows are inserted.
    pub matched: MatchedAction,
    /// The name of the source, empty where it has none.
    pub source_alias: String,
}

/// The name of the source, empty where it has none.
pub open spec fn alias_or_empty(source: FactorView) -> Seq<char> {
    match source_alias(source) {
        Some(a) => a,
        None => seq![],
    }
}

/// What a MERGE asks for, once its source has been read: the key of the ON
/// predicate, the action of the WHEN clauses, and the name of the source.
pub fn plan_merge(merge: &Merge, table_name: &str, schema: &Schema) -> (r: Result<MergePlan>)
    ensures
        match merge_key_column(merge.on@, table_name@) {
            Err(message) => r matches Err(e) && e.says(message),
            Ok(key) => match upsert(table_name@, data_columns(*schema), merge.clause_views()) {
                Err(message) => r matches Err(e) && e.says(message),
                Ok(list) => if list is Some && alias_or_empty(merge.source@).len() == 0 {
                    r matches Err(e) && e.says(
                        "MERGE UPDATE SET requires the USING source to have an alias"@,
                    )
                } else {
                    r matches Ok(plan) && {
                        &&& plan.key@ == key
                        &&& plan.matched.set_list() == list
                        &&& plan.source_alias@ == alias_or_empty(merge.source@)
                    }
                },
            },
        },
{
    let key = match extract_merge_key(&merge.on, table_name) {
        Ok(key) => key,
        Err(e) => return Err(e),
    };
    let matched = match merge_action(table_name, schema, &merge.clauses) {
        Ok(matched) => matched,
        Err(e) => return Err(e),
    };
    let source_alias = match extract_source_alias(&merge.source) {
        Some(a) => a,
        None => String::new(),
    };
    match require_source_alias(&matched, source_alias.as_str()) {
        Ok(_) => Ok(MergePlan { key, matched, source_alias }),
        Err(e) => Err(e),
    }
}

/// A column of the target that a source has too: where it stands in each.
#[derive(Debug, Clone, Copy, PartialEq, Eq, Structural)]
pub struct SharedColumn {
    pub table: usize,
    pub source: usize,
}

/// The columns of the target that the source has too, in the order of the
/// target.
pub open spec fn shared_columns(table: Schema, source: Schema, n: int) -> Seq<(int, int)>
    decreases n,
{
    if n <= 0 {
        seq![]
    } else {
        let front = shared_columns(table, source, n - 1);
        match source.position(table.fields@[n - 1].name@) {
            Some(c) => front.push((n - 1, c)),
            None => front,
        }
    }
}

/// Lays a source out as the target: each column that both have, with the
/// target's field. What a query gives is nullable throughout; the target's
/// fields are what the writer compares against.
pub fn coerce_to_table(table: &Schema, source: &Schema) -> (r: Vec<SharedColumn>)
    ensures
        r@.map_values(|s: SharedColumn| (s.table as int, s.source as int)) == shared_columns(
            *table,
            *source,
            table.fields@.len() as int,
        ),
        forall|i: int|
            0 <= i < r@.len() ==> (#[trigger] r@[i]).table < table.fields@.len() && r@[i].source
                < source.fields@.len() && table.fields@[r@[i].table as int].name@
                == source.fields@[r@[i].source as int].name@,
{
    let mut out: Vec<SharedColumn> = Vec::new();
    let mut i: usize = 0;
    assert(out@.map_values(|s: SharedColumn| (s.table as int, s.source as int)) =~= seq![]);
    while i < table.fields.len()
        invariant
            i <= table.fields@.len(),
            out@.map_values(|s: SharedColumn| (s.table as int, s.source as int)) == shared_columns(
                *table,
                *source,
                i as int,
            ),
            forall|k: int|
                0 <= k < out@.len() ==> (#[trigger] out@[k]).table < table.fields@.len()
                    && out@[k].source < source.fields@.len() && table.fields@[out@[k].table as int].name@
                    == source.fields@[out@[k].source as int].name@,
        decreases table.fields@.len() - i,
    {
        let ghost before = out@.map_values(|s: SharedColumn| (s.table as int, s.source as int));
        match source.index_of(&table.fields[i].name) {
            Some(c) => {
                out.push(SharedColumn { table: i, source: c });
                assert(out@.map_values(|s: SharedColumn| (s.table as int, s.source as int))
                    =~= before.push((i as int, c as int)));
            },
            None => {},
        }
        i = i + 1;
    }
    out
}

/// The offsets of a fragment are those of its locations, in their order.
pub proof fn offsets_are_those_of_the_fragment(locs: Seq<MatchLoc>, fragment_id: u64)
    ensures
        offsets_in(locs, fragment_id) == locs.filter(
            |l: MatchLoc| l.fragment_id == fragment_id,
        ).map_values(|l: MatchLoc| l.offset),
    decreases locs.len(),
{
    reveal(Seq::filter);
    let inside = |l: MatchLoc| l.fragment_id == fragment_id;
    let offset = |l: MatchLoc| l.offset;
    if locs.len() > 0 {
        let front = locs.drop_last();
        offsets_are_those_of_the_fragment(front, fragment_id);
        if inside(locs.last()) {
            assert(front.filter(inside).push(locs.last()).map_values(offset) =~= front.filter(
                inside,
            ).map_values(offset).push(locs.last().offset));
        }
    } else {
        assert(locs.filter(inside).map_values(offset) =~= seq![]);
    }
}

/// Whether an assignment is to a column: the last part of its target names it, in
/// lower case unless it is quoted.
pub open spec fn assigns_to(assignment: AssignmentView, column: Seq<char>) -> bool {
    assignment.target matches Some(name) && name.parts.len() > 0 && (name.parts[name.parts.len()
        - 1] matches Some(ident) && column == (if ident.quote is Some {
        ident.value
    } else {
        lowercase(ident.value)
    }))
}

/// Whether an assignment is to a column of the table.
pub open spec fn assigns_a_column(columns: Seq<Seq<char>>, assignment: AssignmentView) -> bool {
    exists|c: Seq<char>| columns.contains(c) && #[trigger] assigns_to(assignment, c)
}

/// Whether every assignment of a SET list is to a column of the table, and no
/// two are to the same.
pub open spec fn assigns_columns_once(
    columns: Seq<Seq<char>>,
    assignments: Seq<AssignmentView>,
) -> bool {
    &&& forall|i: int|
        0 <= i < assignments.len() ==> assigns_a_column(columns, #[trigger] assignments[i])
    &&& forall|i: int, j: int, c: Seq<char>|
        0 <= i < j < assignments.len() ==> !(#[trigger] assigns_to(assignments[i], c)
            && #[trigger] assigns_to(assignments[j], c))
}

/// A SET list is accepted exactly where it assigns columns of the table, each
/// once; it then pairs each column, in order, with the value that is assigned to
/// it.
pub proof fn set_lists_assign_each_column_once(
    table: Seq<char>,
    columns: Seq<Seq<char>>,
    assignments: Seq<AssignmentView>,
)
    ensures
        set_list(table, columns, assignments) is Ok <==> assigns_columns_once(columns, assignments),
        set_list(table, columns, assignments) matches Ok(pairs) ==> {
            &&& pairs.len() == assignments.len()
            &&& forall|i: int|
                0 <= i < pairs.len() ==> assigns_to(assignments[i], (#[trigger] pairs[i]).0)
                    && pairs[i].1 == assignments[i].value
        },
    decreases assignments.len(),
{
    if assignments.len() > 0 {
        let front = assignments.drop_last();
        let n = assignments.len() - 1;
        let last = assignments.last();
        assert(last == assignments[n]);
        set_lists_assign_each_column_once(table, columns, front);
        if assigns_columns_once(columns, assignments) {
            assert forall|i: int| 0 <= i < front.len() implies assigns_a_column(
                columns,
                #[trigger] front[i],
            ) by {
                assert(front[i] == assignments[i]);
            }
            assert forall|i: int, j: int, c: Seq<char>| 0 <= i < j < front.len() implies !(
            #[trigger] assigns_to(front[i], c) && #[trigger] assigns_to(front[j], c)) by {
                assert(front[i] == assignments[i] && front[j] == assignments[j]);
            }
            assert(assigns_columns_once(columns, front));
            assert(assigns_a_column(columns, assignments[n]));
            let done = set_list(table, columns, front)->Ok_0;
            let c = choose|c: Seq<char>|
                columns.contains(c) && #[trigger] assigns_to(assignments[n], c);
            assert(assigns_to(last, c));
            if firsts(done).contains(c) {
                let k = firsts(done).index_of(c);
                assert(done[k].0 == c);
                assert(assigns_to(front[k], c));
                assert(front[k] == assignments[k]);
                assert(assigns_to(assignments[k], c) && assigns_to(assignments[n], c));
            }
        }
        if set_list(table, columns, assignments) is Ok {
            let done = set_list(table, columns, front)->Ok_0;
            let pairs = set_list(table, columns, assignments)->Ok_0;
            let target = pairs.last().0;
            assert(pairs == done.push((target, last.value)));
            assert(assigns_to(last, target));
            assert forall|i: int| 0 <= i < pairs.len() implies assigns_to(
                assignments[i],
                (#[trigger] pairs[i]).0,
            ) && pairs[i].1 == assignments[i].value by {
                if i < n {
                    assert(pairs[i] == done[i]);
                    assert(front[i] == assignments[i]);
                }
            }
            assert forall|i: int| 0 <= i < assignments.len() implies assigns_a_column(
                columns,
                #[trigger] assignments[i],
            ) by {
                if i < n {
                    assert(front[i] == assignments[i]);
                    assert(assigns_a_column(columns, front[i]));
                } else {
                    assert(assigns_to(assignments[i], target));
                }
            }
            assert forall|i: int, j: int, c: Seq<char>| 0 <= i < j < assignments.len() implies !(
            #[trigger] assigns_to(assignments[i], c) && #[trigger] assigns_to(
                assignments[j],
                c,
            )) by {
                assert(front[i] == assignments[i]);
                if j < n {
                    assert(front[j] == assignments[j]);
                    assert(!(assigns_to(front[i], c) && assigns_to(front[j], c)));
                } else if assigns_to(assignments[i], c) && assigns_to(assignments[j], c) {
                    assert(c == target);
                    assert(done[i].0 == c);
                    assert(firsts(done)[i] == c);
                }
            }
        }
    } else {
        assert(assigns_columns_once(columns, assignments));
    }
}

/// Whether a WHEN clause may stand in an upsert: without a condition, an update
/// of live rows with a SET list that is accepted, or an insert of the others.
pub open spec fn is_upsert_clause(columns: Seq<Seq<char>>, clause: ClauseView) -> bool {
    clause.condition is None && match (clause.kind, clause.action) {
        (MergeClauseKind::Matched, ActionView::Update(assignments)) => assigns_columns_once(
            columns,
            assignments,
        ),
        (MergeClauseKind::NotMatched, ActionView::Insert) => true,
        _ => false,
    }
}

/// Whether WHEN clauses are accepted one by one, with one update at most.
pub open spec fn is_upsert_so_far(columns: Seq<Seq<char>>, clauses: Seq<ClauseView>) -> bool {
    &&& forall|i: int| 0 <= i < clauses.len() ==> is_upsert_clause(columns, #[trigger] clauses[i])
    &&& forall|i: int, j: int|
        0 <= i < j < clauses.len() ==> !((#[trigger] clauses[i]).kind is Matched && (
        #[trigger] clauses[j]).kind is Matched)
}

proof fn clauses_are_taken_in(
    table: Seq<char>,
    columns: Seq<Seq<char>>,
    clauses: Seq<ClauseView>,
)
    ensures
        clause_state(table, columns, clauses) is Ok <==> is_upsert_so_far(columns, clauses),
        clause_state(table, columns, clauses) matches Ok(state) ==> {
            &&& state.insert <==> exists|i: int|
                0 <= i < clauses.len() && (#[trigger] clauses[i]).kind is NotMatched
            &&& match state.update {
                Some(pairs) => exists|i: int|
                    0 <= i < clauses.len() && (#[trigger] clauses[i]).kind is Matched && (
                    clauses[i].action matches ActionView::Update(assignments) && set_list(
                        table,
                        columns,
                        assignments,
                    ) == Ok::<Seq<PairView>, Seq<char>>(pairs)),
                None => forall|i: int|
                    0 <= i < clauses.len() ==> !((#[trigger] clauses[i]).kind is Matched),
            }
        },
    decreases clauses.len(),
{
    if clauses.len() > 0 {
        let front = clauses.drop_last();
        let n = clauses.len() - 1;
        let last = clauses.last();
        assert(last == clauses[n]);
        clauses_are_taken_in(table, columns, front);
        match last.action {
            ActionView::Update(assignments) => {
                set_lists_assign_each_column_once(table, columns, assignments);
            },
            _ => {},
        }
        assert forall|i: int| 0 <= i < n implies front[i] == #[trigger] clauses[i] by {}
        assert forall|i: int| 0 <= i < n implies #[trigger] front[i] == clauses[i] by {}
        if is_upsert_so_far(columns, clauses) {
            assert(is_upsert_so_far(columns, front));
            let state = clause_state(table, columns, front)->Ok_0;
            assert(is_upsert_clause(columns, clauses[n]));
            if state.update is Some && last.kind is Matched {
                let i = choose|i: int| 0 <= i < front.len() && (#[trigger] front[i]).kind is Matched;
                assert(clauses[i].kind is Matched && clauses[n].kind is Matched);
            }
        }
        if clause_state(table, columns, clauses) is Ok {
            let before = clause_state(table, columns, front)->Ok_0;
            let state = clause_state(table, columns, clauses)->Ok_0;
            assert(is_upsert_clause(columns, last));
            assert forall|i: int| 0 <= i < clauses.len() implies is_upsert_clause(
                columns,
                #[trigger] clauses[i],
            ) by {
                if i < n {
                    assert(is_upsert_clause(columns, front[i]));
                }
            }
            assert forall|i: int, j: int| 0 <= i < j < clauses.len() implies !((
            #[trigger] clauses[i]).kind is Matched && (#[trigger] clauses[j]).kind is Matched) by {
                if j == n && last.kind is Matched {
                    assert(before.update is None);
                    assert(!(front[i].kind is Matched));
                } else if j < n {
                    assert(!(front[i].kind is Matched && front[j].kind is Matched));
                }
            }
            if before.update is Some && state.update == before.update {
                let pairs = before.update->0;
                let i = choose|i: int|
                    0 <= i < front.len() && (#[trigger] front[i]).kind is Matched && (
                    front[i].action matches ActionView::Update(assignments) && set_list(
                        table,
                        columns,
                        assignments,
                    ) == Ok::<Seq<PairView>, Seq<char>>(pairs));
                assert(clauses[i] == front[i]);
            }
            if before.insert {
                let i = choose|i: int|
                    0 <= i < front.len() && (#[trigger] front[i]).kind is NotMatched;
                assert(clauses[i].kind is NotMatched);
            }
            if exists|i: int|
                0 <= i < clauses.len() && (#[trigger] clauses[i]).kind is NotMatched {
                let i = choose|i: int|
                    0 <= i < clauses.len() && (#[trigger] clauses[i]).kind is NotMatched;
                if i < n {
                    assert(front[i].kind is NotMatched);
                }
            }
        }
    }
}

/// A MERGE is accepted exactly where it inserts rows that are new and updates
/// live ones, by one clause at most, with no condition. Live rows get what the
/// SET list of that clause assigns; where it assigns nothing, or there is no such
/// clause, all columns.
pub proof fn only_upserts_are_accepted(
    table: Seq<char>,
    columns: Seq<Seq<char>>,
    clauses: Seq<ClauseView>,
)
    ensures
        upsert(table, columns, clauses) is Ok <==> is_upsert_so_far(columns, clauses) && exists|
            i: int,
        |
            0 <= i < clauses.len() && (#[trigger] clauses[i]).kind is NotMatched,
        upsert(table, columns, clauses) matches Ok(list) ==> forall|i: int|
            0 <= i < clauses.len() ==> (#[trigger] clauses[i].action matches ActionView::Update(
                assignments,
            ) ==> match set_list(table, columns, assignments) {
                Ok(pairs) => list == if pairs.len() > 0 {
                    Some(pairs)
                } else {
                    None
                },
                Err(_) => false,
            }),
        upsert(table, columns, clauses) matches Ok(Some(pairs)) ==> exists|i: int|
            0 <= i < clauses.len() && (#[trigger] clauses[i]).action is Update,
{
    clauses_are_taken_in(table, columns, clauses);
    if upsert(table, columns, clauses) is Ok {
        let list = upsert(table, columns, clauses)->Ok_0;
        let state = clause_state(table, columns, clauses)->Ok_0;
        assert forall|i: int| 0 <= i < clauses.len() implies (
        #[trigger] clauses[i].action matches ActionView::Update(assignments) ==> match set_list(
            table,
            columns,
            assignments,
        ) {
            Ok(pairs) => list == if pairs.len() > 0 {
                Some(pairs)
            } else {
                None
            },
            Err(_) => false,
        }) by {
            if clauses[i].action is Update {
                assert(is_upsert_clause(columns, clauses[i]));
                assert(clauses[i].kind is Matched);
                let pairs = state.update->0;
                let k = choose|k: int|
                    0 <= k < clauses.len() && (#[trigger] clauses[k]).kind is Matched && (
                    clauses[k].action matches ActionView::Update(assignments) && set_list(
                        table,
                        columns,
                        assignments,
                    ) == Ok::<Seq<PairView>, Seq<char>>(pairs));
                if k < i {
                    assert(!(clauses[k].kind is Matched && clauses[i].kind is Matched));
                } else if i < k {
                    assert(!(clauses[i].kind is Matched && clauses[k].kind is Matched));
                }
            }
        }
        if list is Some {
            let k = choose|k: int|
                0 <= k < clauses.len() && (#[trigger] clauses[k]).kind is Matched;
            assert(clauses[k].action is Update);
        }
    }
}

/// Whether an operand is a column that the target table qualifies, in whatever
/// case.
pub open spec fn is_of_target(operand: OperandView, target: Seq<char>) -> bool {
    operand matches Some(parts) && parts.len() == 2 && lowercase(parts[0].value) == lowercase(
        target,
    )
}

/// The key is the column that the target table qualifies, whichever side of the
/// equality it stands on; without one on either side there is none.
pub proof fn the_key_is_the_targets_column(
    left: OperandView,
    right: OperandView,
    text: Seq<char>,
    target: Seq<char>,
)
    ensures
        is_of_target(left, target) ==> match left {
            Some(parts) => merge_key_column(
                OnView { equality: Some((left, right)), text },
                target,
            ) == Ok::<Seq<char>, Seq<char>>(
                if parts[1].quote is Some {
                    parts[1].value
                } else {
                    lowercase(parts[1].value)
                },
            ),
            None => false,
        },
        !(is_of_target(left, target) && is_of_target(right, target)) ==> merge_key_column(
            OnView { equality: Some((left, right)), text },
            target,
        ) == merge_key_column(OnView { equality: Some((right, left)), text }, target),
        !is_of_target(left, target) && !is_of_target(right, target) ==> merge_key_column(
            OnView { equality: Some((left, right)), text },
            target,
        ) is Err,
        merge_key_column(OnView { equality: None, text }, target) is Err,
{
}

/// A source is read whole: a subquery stands in brackets in the query, and a
/// table under the last part of its name. Its alias, where it renames no columns,
/// ends the query.
pub proof fn sources_are_read_whole(source: FactorView)
    ensures
        source_sql(source) is Err <==> source.relation is Other,
        source.relation matches RelationView::Derived { subquery, .. } ==> (source_sql(
            source,
        ) matches Ok(sql) ==> exists|front: Seq<char>, back: Seq<char>|
            sql == #[trigger] (front + seq!['('] + subquery + seq![')'] + back)),
        source.relation matches RelationView::Table { name, alias } ==> (source_sql(
            source,
        ) matches Ok(sql) ==> exists|table: Seq<char>, back: Seq<char>|
            {
                &&& sql == #[trigger] ("SELECT * FROM "@ + table + back)
                &&& name.parts.len() > 0 ==> (name.parts[name.parts.len() - 1] matches Some(ident)
                    ==> table == ident.value)
                &&& back == match alias {
                    Some(a) => " AS "@ + a.name,
                    None => seq![],
                }
            }),
{
    reveal_strlit(" FROM (");
    reveal_strlit("SELECT * FROM (");
    reveal_strlit(") AS __mgr_inner__");
    reveal_strlit(") AS ");
    reveal_strlit(") AS __mgr_src__");
    match source.relation {
        RelationView::Derived { subquery, alias } => {
            let sql = source_sql(source)->Ok_0;
            let (front, back) = match alias {
                Some(a) => if a.columns.len() > 0 {
                    (
                        "SELECT "@ + joined(renamed_columns(a.columns), ", "@) + " FROM ("@,
                        ") AS __mgr_inner__"@,
                    )
                } else {
                    ("SELECT * FROM ("@, ") AS "@ + a.name)
                },
                None => ("SELECT * FROM ("@, ") AS __mgr_src__"@),
            };
            assert(sql =~= front + subquery + back);
            assert(front.last() == '(');
            assert(back[0] == ')');
            assert(sql =~= front.drop_last() + seq!['('] + subquery + seq![')']
                + back.drop_first());
        },
        RelationView::Table { name, alias } => {
            let sql = source_sql(source)->Ok_0;
            let table = match last_ident(name) {
                Some(ident) => ident.value,
                None => name.text,
            };
            match alias {
                Some(a) => {
                    let back = " AS "@ + a.name;
                    assert(sql =~= "SELECT * FROM "@ + table + back);
                },
                None => {
                    assert(sql =~= "SELECT * FROM "@ + table + Seq::<char>::empty());
                },
            }
        },
        RelationView::Other => {},
    }
}

/// The columns of a VALUES list are renamed in their order: the first is
/// `column1`.
pub proof fn columns_are_renamed_by_number(columns: Seq<Seq<char>>, i: int)
    requires
        0 <= i < columns.len(),
    ensures
        renamed_columns(columns).len() == columns.len(),
        exists|digits: Seq<char>|
            {
                &&& is_numeral(digits)
                &&& numeral(digits) == i + 1
                &&& renamed_columns(columns)[i] == #[trigger] ("column"@ + digits + " AS "@
                    + columns[i])
            },
{
    decimal_writes_the_number((i + 1) as nat);
    let digits = decimal((i + 1) as nat);
    assert(renamed_columns(columns)[i] == "column"@ + digits + " AS "@ + columns[i]);
}

/// The columns that a target and a source share are those whose names both have,
/// in the order of the target, each with the first column of that name in the
/// source.
pub proof fn columns_are_shared_by_name(table: Schema, source: Schema, n: int, t: int, s: int)
    requires
        0 <= n <= table.fields@.len(),
    ensures
        shared_columns(table, source, n).contains((t, s)) <==> {
            &&& 0 <= t < n
            &&& 0 <= s < source.fields@.len()
            &&& source.fields@[s].name@ == table.fields@[t].name@
            &&& forall|k: int|
                0 <= k < s ==> (#[trigger] source.fields@[k]).name@ != table.fields@[t].name@
        },
        forall|i: int|
            0 <= i < shared_columns(table, source, n).len() ==> (#[trigger] shared_columns(
                table,
                source,
                n,
            )[i]).0 < n,
        forall|i: int, j: int|
            0 <= i < j < shared_columns(table, source, n).len() ==> (#[trigger] shared_columns(
                table,
                source,
                n,
            )[i]).0 < (#[trigger] shared_columns(table, source, n)[j]).0,
    decreases n,
{
    let all = shared_columns(table, source, n);
    if n > 0 {
        let front = shared_columns(table, source, n - 1);
        let name = table.fields@[n - 1].name@;
        columns_are_shared_by_name(table, source, n - 1, t, s);
        columns_are_found_by_name(source, name);
        if front.contains((t, s)) {
            assert(all[front.index_of((t, s))] == (t, s));
        }
        match source.position(name) {
            Some(c) => {
                assert(all[front.len() as int] == (n - 1, c));
                if all.contains((t, s)) && (t, s) != (n - 1, c) {
                    assert(front[all.index_of((t, s))] == (t, s));
                }
                if t == n - 1 && 0 <= s < source.fields@.len() && s != c {
                    if s < c {
                        assert(source.fields@[s].name@ != name);
                    } else {
                        assert(source.fields@[c].name@ == name);
                    }
                }
            },
            None => {},
        }
    }
}

/// A source is known by its alias, and a table without one by the last part of its
/// name; a subquery without one has no name. A source of which no columns are
/// renamed is queried under the alias.
pub proof fn sources_are_known_by_their_alias(
    source: FactorView,
    alias: Option<AliasView>,
    name: NameView,
    subquery: Seq<char>,
)
    requires
        source.relation == (RelationView::Table { name, alias }) || source.relation == (
        RelationView::Derived { subquery, alias }),
    ensures
        alias matches Some(a) ==> source_alias(source) == Some(a.name) && alias_or_empty(source)
            == a.name,
        alias is None && source.relation is Derived ==> source_alias(source) is None
            && alias_or_empty(source).len() == 0,
        alias is None && source.relation is Table && name.parts.len() > 0 ==> match name.parts[
        name.parts.len() - 1] {
            Some(ident) => source_alias(source) == Some(ident.value),
            None => source_alias(source) is None,
        },
        alias matches Some(a) ==> (source.relation is Table || a.columns.len() == 0 ==> (
        source_sql(source) matches Ok(sql) && exists|front: Seq<char>|
            sql == #[trigger] (front + " AS "@ + a.name))),
{
    reveal_strlit(") AS ");
    reveal_strlit(" AS ");
    match alias {
        Some(a) => {
            if source.relation is Table || a.columns.len() == 0 {
                let sql = source_sql(source)->Ok_0;
                let front = match source.relation {
                    RelationView::Derived { subquery, .. } => "SELECT * FROM ("@ + subquery
                        + seq![')'],
                    _ => "SELECT * FROM "@ + match last_ident(name) {
                        Some(ident) => ident.value,
                        None => name.text,
                    },
                };
                assert(") AS "@ =~= seq![')'] + " AS "@);
                assert(sql =~= front + " AS "@ + a.name);
            }
        },
        None => {},
    }
}

/// An override decides alone whether mutations go through the log: `1` turns it on
/// and any other text turns it off. Without one the configuration counts, and without
/// that the log is on.
pub proof fn overrides_decide_on_the_log(
    text: Seq<char>,
    configured: Option<bool>,
    other_config: Option<bool>,
)
    ensures
        wal_mode(Some(text), configured) == wal_mode(Some(text), other_config),
        wal_mode(Some(text), configured) <==> text.len() == 1 && text[0] == '1',
        configured matches Some(mode) ==> wal_mode(None, configured) == mode,
        wal_mode(None, None),
{
    reveal_strlit("1");
    if text.len() == 1 && text[0] == '1' {
        assert(text =~= "1"@);
    }
}

/// The pairs of a SET list are its columns with what they are assigned, in their
/// order.
pub proof fn pairs_are_columns_and_values(pairs: Seq<(String, String)>, i: int)
    ensures
        pair_views(pairs).len() == pairs.len(),
        0 <= i < pairs.len() ==> pair_views(pairs)[i].0 == pairs[i].0@ && pair_views(pairs)[i].1
            == pairs[i].1@,
        firsts(pair_views(pairs)).len() == pairs.len(),
        0 <= i < pairs.len() ==> firsts(pair_views(pairs))[i] == pairs[i].0@,
{
}

} // verus!
