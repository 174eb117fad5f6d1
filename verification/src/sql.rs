//! SQL statements, as far as the engine looks into them.
//!
//! The parser is DataFusion's. Its syntax tree is turned, node for node, into
//! the types of this file, which keep what the engine reads: names, aliases,
//! the shape of a MERGE, and the text of expressions that are evaluated
//! elsewhere.
use vstd::prelude::*;

use datafusion_sql::parser::{DFParser, Statement as ParsedStatement};
use datafusion_sql::sqlparser::ast;
use datafusion_sql::sqlparser::ast::{
    Assignment as ParsedAssignment, Delete as ParsedDelete, Expr as ParsedExpr,
    Merge as ParsedMerge, MergeClause as ParsedClause, ObjectName as ParsedName,
    TableFactor as ParsedFactor, Update as ParsedUpdate,
};

use crate::scalar::text_view;
use crate::text::texts;
use tokens::{flushes_unnamed, names_no_channel};

pub mod tokens;

verus! {

/// An identifier; `quote` is the character that quotes it, if any.
#[derive(Debug, PartialEq, Eq)]
pub struct Ident {
    pub value: String,
    pub quote: Option<char>,
}

pub struct IdentView {
    pub value: Seq<char>,
    pub quote: Option<char>,
}

impl View for Ident {
    type V = IdentView;

    open spec fn view(&self) -> IdentView {
        IdentView { value: self.value@, quote: self.quote }
    }
}

/// A name with its qualifiers: each part, where it is an identifier, and the
/// whole as SQL text.
#[derive(Debug, PartialEq, Eq)]
pub struct ObjectName {
    pub parts: Vec<Option<Ident>>,
    pub text: String,
}

pub struct NameView {
    pub parts: Seq<Option<IdentView>>,
    pub text: Seq<char>,
}

pub open spec fn part_view(part: Option<Ident>) -> Option<IdentView> {
    match part {
        Some(ident) => Some(ident@),
        None => None,
    }
}

impl View for ObjectName {
    type V = NameView;

    open spec fn view(&self) -> NameView {
        NameView {
            parts: self.parts@.map_values(|p: Option<Ident>| part_view(p)),
            text: self.text@,
        }
    }
}

/// An alias with the column names that it declares.
#[derive(Debug, PartialEq, Eq)]
pub struct TableAlias {
    pub name: String,
    pub columns: Vec<String>,
}

pub struct AliasView {
    pub name: Seq<char>,
    pub columns: Seq<Seq<char>>,
}

impl View for TableAlias {
    type V = AliasView;

    open spec fn view(&self) -> AliasView {
        AliasView { name: self.name@, columns: texts(self.columns@) }
    }
}

pub open spec fn alias_view(alias: Option<TableAlias>) -> Option<AliasView> {
    match alias {
        Some(a) => Some(a@),
        None => None,
    }
}

/// What a table reference refers to.
#[derive(Debug, PartialEq, Eq)]
pub enum Relation {
    Table { name: ObjectName, alias: Option<TableAlias> },
    Derived { subquery: String, alias: Option<TableAlias> },
    Other,
}

pub enum RelationView {
    Table { name: NameView, alias: Option<AliasView> },
    Derived { subquery: Seq<char>, alias: Option<AliasView> },
    Other,
}

/// A table reference, with its SQL text.
#[derive(Debug, PartialEq, Eq)]
pub struct TableFactor {
    pub relation: Relation,
    pub text: String,
}

pub struct FactorView {
    pub relation: RelationView,
    pub text: Seq<char>,
}

impl View for TableFactor {
    type V = FactorView;

    open spec fn view(&self) -> FactorView {
        FactorView {
            relation: match self.relation {
                Relation::Table { name, alias } => RelationView::Table {
                    name: name@,
                    alias: alias_view(alias),
                },
                Relation::Derived { subquery, alias } => RelationView::Derived {
                    subquery: subquery@,
                    alias: alias_view(alias),
                },
                Relation::Other => RelationView::Other,
            },
            text: self.text@,
        }
    }
}

/// The left-hand side of an assignment.
#[derive(Debug, PartialEq, Eq)]
pub enum AssignmentTarget {
    ColumnName(ObjectName),
    Tuple,
}

/// `target = value` in a SET list; the value is SQL text.
#[derive(Debug, PartialEq, Eq)]
pub struct Assignment {
    pub target: AssignmentTarget,
    pub value: String,
}

/// `target` is `None` for a tuple of columns.
pub struct AssignmentView {
    pub target: Option<NameView>,
    pub value: Seq<char>,
}

impl View for Assignment {
    type V = AssignmentView;

    open spec fn view(&self) -> AssignmentView {
        AssignmentView {
            target: match self.target {
                AssignmentTarget::ColumnName(name) => Some(name@),
                AssignmentTarget::Tuple => None,
            },
            value: self.value@,
        }
    }
}

pub open spec fn assignment_views(assignments: Seq<Assignment>) -> Seq<AssignmentView> {
    assignments.map_values(|a: Assignment| a@)
}

/// One side of an ON equality: the parts of a qualified column name, or
/// anything else.
#[derive(Debug, PartialEq, Eq)]
pub enum Operand {
    Compound(Vec<Ident>),
    Other,
}

/// `None` for an operand that is no qualified column name.
pub type OperandView = Option<Seq<IdentView>>;

impl View for Operand {
    type V = OperandView;

    open spec fn view(&self) -> OperandView {
        match self {
            Operand::Compound(parts) => Some(parts@.map_values(|i: Ident| i@)),
            Operand::Other => None,
        }
    }
}

/// The ON predicate of a MERGE: its two sides where it is an equality, and its
/// SQL text.
#[derive(Debug, PartialEq, Eq)]
pub struct OnPredicate {
    pub equality: Option<(Operand, Operand)>,
    pub text: String,
}

pub struct OnView {
    pub equality: Option<(OperandView, OperandView)>,
    pub text: Seq<char>,
}

impl View for OnPredicate {
    type V = OnView;

    open spec fn view(&self) -> OnView {
        OnView {
            equality: match self.equality {
                Some((left, right)) => Some((left@, right@)),
                None => None,
            },
            text: self.text@,
        }
    }
}

#[derive(Debug, Clone, Copy, PartialEq, Eq, Structural)]
pub enum MergeClauseKind {
    Matched,
    NotMatched,
    NotMatchedByTarget,
    NotMatchedBySource,
}

/// What a WHEN clause does.
#[derive(Debug, PartialEq, Eq)]
pub enum MergeAction {
    Insert,
    Update(Vec<Assignment>),
    Delete,
}

pub enum ActionView {
    Insert,
    Update(Seq<AssignmentView>),
    Delete,
}

/// A WHEN clause of a MERGE; `condition` is what follows its AND, if it has
/// one.
#[derive(Debug, PartialEq, Eq)]
pub struct MergeClause {
    pub kind: MergeClauseKind,
    pub condition: Option<String>,
    pub action: MergeAction,
}

pub struct ClauseView {
    pub kind: MergeClauseKind,
    pub condition: Option<Seq<char>>,
    pub action: ActionView,
}

impl View for MergeClause {
    type V = ClauseView;

    open spec fn view(&self) -> ClauseView {
        ClauseView {
            kind: self.kind,
            condition: text_view(self.condition),
            action: match self.action {
                MergeAction::Insert => ActionView::Insert,
                MergeAction::Update(assignments) => ActionView::Update(
                    assignment_views(assignments@),
                ),
                MergeAction::Delete => ActionView::Delete,
            },
        }
    }
}

/// `DELETE FROM from WHERE selection`.
#[derive(Debug, PartialEq, Eq)]
pub struct Delete {
    pub from: Vec<TableFactor>,
    pub selection: Option<String>,
}

/// `UPDATE table SET assignments WHERE selection`.
#[derive(Debug, PartialEq, Eq)]
pub struct Update {
    pub table: TableFactor,
    pub assignments: Vec<Assignment>,
    pub selection: Option<String>,
}

/// `MERGE INTO table USING source ON on clauses`.
#[derive(Debug, PartialEq, Eq)]
pub struct Merge {
    pub table: TableFactor,
    pub source: TableFactor,
    pub on: OnPredicate,
    pub clauses: Vec<MergeClause>,
}

/// A statement: a mutation, or any other.
#[derive(Debug, PartialEq, Eq)]
pub enum SqlStatement {
    Delete(Delete),
    Update(Update),
    Merge(Merge),
    Other,
}

pub enum StatementView {
    Delete { from: Seq<FactorView>, selection: Option<Seq<char>> },
    Update {
        table: FactorView,
        assignments: Seq<AssignmentView>,
        selection: Option<Seq<char>>,
    },
    Merge { table: FactorView, source: FactorView, on: OnView, clauses: Seq<ClauseView> },
    Other,
}

impl Delete {
    pub open spec fn from_views(self) -> Seq<FactorView> {
        self.from@.map_values(|t: TableFactor| t@)
    }
}

impl Merge {
    pub open spec fn clause_views(self) -> Seq<ClauseView> {
        self.clauses@.map_values(|c: MergeClause| c@)
    }
}

impl View for SqlStatement {
    type V = StatementView;

    open spec fn view(&self) -> StatementView {
        match *self {
            SqlStatement::Delete(d) => StatementView::Delete {
                from: d.from_views(),
                selection: text_view(d.selection),
            },
            SqlStatement::Update(u) => StatementView::Update {
                table: u.table@,
                assignments: assignment_views(u.assignments@),
                selection: text_view(u.selection),
            },
            SqlStatement::Merge(m) => StatementView::Merge {
                table: m.table@,
                source: m.source@,
                on: m.on@,
                clauses: m.clause_views(),
            },
            SqlStatement::Other => StatementView::Other,
        }
    }
}

/// The views of a sequence of statements.
pub open spec fn statement_views(statements: Seq<SqlStatement>) -> Seq<StatementView> {
    statements.map_values(|s: SqlStatement| s@)
}

#[verifier::external_type_specification]
#[verifier::external_body]
pub struct ExStatement(ParsedStatement);

#[verifier::external_type_specification]
#[verifier::external_body]
pub struct ExDelete(ParsedDelete);

#[verifier::external_type_specification]
#[verifier::external_body]
pub struct ExUpdate(ParsedUpdate);

#[verifier::external_type_specification]
#[verifier::external_body]
pub struct ExMerge(ParsedMerge);

#[verifier::external_type_specification]
#[verifier::external_body]
pub struct ExTableFactor(ParsedFactor);

#[verifier::external_type_specification]
#[verifier::external_body]
pub struct ExObjectName(ParsedName);

#[verifier::external_type_specification]
#[verifier::external_body]
pub struct ExAssignment(ParsedAssignment);

#[verifier::external_type_specification]
#[verifier::external_body]
pub struct ExSqlExpr(ParsedExpr);

#[verifier::external_type_specification]
#[verifier::external_body]
pub struct ExMergeClause(ParsedClause);

/// What `DFParser::parse_sql` makes of a text: the statements, or the message
/// of the error.
pub uninterp spec fn parsed_sql(sql: Seq<char>) -> core::result::Result<
    Seq<StatementView>,
    Seq<char>,
>;

/// Calls `DFParser::parse_sql`, which parses with the generic dialect; what it
/// returns depends on the text alone. The functions that follow turn the tree
/// into the types above, node for node, and an error is kept as its message.
///
/// The parser panics on a FLUSH for a channel that it does not name. The stack
/// that it needs grows with the depth of the expressions.
#[verifier::external_body]
pub(crate) fn parse_sql(sql: &str) -> (r: core::result::Result<Vec<SqlStatement>, String>)
    requires
        !flushes_unnamed(sql@),
    ensures
        match r {
            Ok(statements) => parsed_sql(sql@) == Ok::<Seq<StatementView>, Seq<char>>(
                statement_views(statements@),
            ),
            Err(message) => parsed_sql(sql@) == Err::<Seq<StatementView>, Seq<char>>(message@),
        },
{
    let parsed = DFParser::parse_sql(sql).map_err(|e| e.to_string())?;
    Ok(parsed.into_iter().map(convert_statement).collect())
}

/// Tells apart the variants of the parser's `Statement` and, under it, of
/// `sqlparser::ast::Statement`.
#[verifier::external_body]
fn convert_statement(statement: ParsedStatement) -> SqlStatement {
    let ParsedStatement::Statement(inner) = statement else { return SqlStatement::Other };
    match *inner {
        ast::Statement::Delete(d) => SqlStatement::Delete(convert_delete(d)),
        ast::Statement::Update(u) => SqlStatement::Update(convert_update(u)),
        ast::Statement::Merge(m) => SqlStatement::Merge(convert_merge(m)),
        _ => SqlStatement::Other,
    }
}

/// Moves the fields of `sqlparser::ast::Delete`; the predicate becomes its
/// `Display` text.
#[verifier::external_body]
fn convert_delete(d: ParsedDelete) -> Delete {
    let tables = match d.from {
        ast::FromTable::WithFromKeyword(tables) => tables,
        ast::FromTable::WithoutKeyword(tables) => tables,
    };
    Delete {
        from: tables.into_iter().map(|t| convert_factor(t.relation)).collect(),
        selection: d.selection.map(|e| e.to_string()),
    }
}

/// Moves the fields of `sqlparser::ast::Update`; the predicate becomes its
/// `Display` text.
#[verifier::external_body]
fn convert_update(u: ParsedUpdate) -> Update {
    Update {
        table: convert_factor(u.table.relation),
        assignments: u.assignments.into_iter().map(convert_assignment).collect(),
        selection: u.selection.map(|e| e.to_string()),
    }
}

/// Moves the fields of `sqlparser::ast::Merge`.
#[verifier::external_body]
fn convert_merge(m: ParsedMerge) -> Merge {
    let text = m.on.to_string();
    let equality = match *m.on {
        ParsedExpr::BinaryOp { left, op: ast::BinaryOperator::Eq, right } => Some(
            (convert_operand(*left), convert_operand(*right)),
        ),
        _ => None,
    };
    Merge {
        table: convert_factor(m.table),
        source: convert_factor(m.source),
        on: OnPredicate { equality, text },
        clauses: m.clauses.into_iter().map(convert_clause).collect(),
    }
}

/// Tells apart the variants of `sqlparser::ast::TableFactor`; the whole and a
/// subquery become their `Display` text.
#[verifier::external_body]
fn convert_factor(factor: ParsedFactor) -> TableFactor {
    let text = factor.to_string();
    let alias_of = |a: ast::TableAlias| TableAlias {
        name: a.name.value,
        columns: a.columns.into_iter().map(|c| c.name.value).collect(),
    };
    let relation = match factor {
        ParsedFactor::Table { name, alias, .. } =>
            Relation::Table { name: convert_name(name), alias: alias.map(alias_of) },
        ParsedFactor::Derived { subquery, alias, .. } =>
            Relation::Derived { subquery: subquery.to_string(), alias: alias.map(alias_of) },
        _ => Relation::Other,
    };
    TableFactor { relation, text }
}

/// Moves the parts of a `sqlparser::ast::ObjectName`; the whole becomes its
/// `Display` text.
#[verifier::external_body]
fn convert_name(name: ParsedName) -> ObjectName {
    let text = name.to_string();
    let ident_of = |i: &ast::Ident| Ident { value: i.value.clone(), quote: i.quote_style };
    let parts = name.0.iter().map(|part| part.as_ident().map(ident_of)).collect();
    ObjectName { parts, text }
}

/// Moves the fields of `sqlparser::ast::Assignment`; the value becomes its
/// `Display` text.
#[verifier::external_body]
fn convert_assignment(assignment: ParsedAssignment) -> Assignment {
    let target = match assignment.target {
        ast::AssignmentTarget::ColumnName(name) => AssignmentTarget::ColumnName(convert_name(name)),
        ast::AssignmentTarget::Tuple(_) => AssignmentTarget::Tuple,
    };
    Assignment { target, value: assignment.value.to_string() }
}

/// Tells `sqlparser::ast::Expr::CompoundIdentifier` from other expressions.
#[verifier::external_body]
fn convert_operand(expr: ParsedExpr) -> Operand {
    let ident_of = |i: ast::Ident| Ident { value: i.value, quote: i.quote_style };
    match expr {
        ParsedExpr::CompoundIdentifier(parts) => Operand::Compound(
            parts.into_iter().map(ident_of).collect(),
        ),
        _ => Operand::Other,
    }
}

/// Moves the fields of `sqlparser::ast::MergeClause`; the condition becomes its
/// `Display` text.
#[verifier::external_body]
fn convert_clause(clause: ParsedClause) -> MergeClause {
    let kind = match clause.clause_kind {
        ast::MergeClauseKind::Matched => MergeClauseKind::Matched,
        ast::MergeClauseKind::NotMatched => MergeClauseKind::NotMatched,
        ast::MergeClauseKind::NotMatchedByTarget => MergeClauseKind::NotMatchedByTarget,
        ast::MergeClauseKind::NotMatchedBySource => MergeClauseKind::NotMatchedBySource,
    };
    let assignments = |u: ast::MergeUpdateExpr| u.assignments.into_iter().map(convert_assignment);
    let action = match clause.action {
        ast::MergeAction::Insert(_) => MergeAction::Insert,
        ast::MergeAction::Update(u) => MergeAction::Update(assignments(u).collect()),
        ast::MergeAction::Delete { .. } => MergeAction::Delete,
    };
    MergeClause { kind, condition: clause.predicate.map(|p| p.to_string()), action }
}

/// The identifier that ends a name, if its last part is one.
pub open spec fn last_ident(name: NameView) -> Option<IdentView> {
    if name.parts.len() == 0 {
        None
    } else {
        name.parts.last()
    }
}

pub fn last_part(name: &ObjectName) -> (r: Option<&Ident>)
    ensures
        r is Some <==> last_ident(name@) is Some,
        r matches Some(ident) ==> last_ident(name@) == Some(ident@),
{
    let n: usize = name.parts.len();
    if n == 0 {
        return None;
    }
    assert(name@.parts.last() == part_view(name.parts@[n - 1]));
    match &name.parts[n - 1] {
        Some(ident) => Some(ident),
        None => None,
    }
}

/// The one table that a mutation is about; `None` for other statements, and
/// for a DELETE from no table or from several.
pub open spec fn target_factor(statement: StatementView) -> Option<FactorView> {
    match statement {
        StatementView::Delete { from, .. } => if from.len() == 1 {
            Some(from[0])
        } else {
            None
        },
        StatementView::Update { table, .. } => Some(table),
        StatementView::Merge { table, .. } => Some(table),
        StatementView::Other => None,
    }
}

pub(crate) fn target_of(statement: &SqlStatement) -> (r: Option<&TableFactor>)
    ensures
        r is Some <==> target_factor(statement@) is Some,
        r matches Some(factor) ==> target_factor(statement@) == Some(factor@),
{
    match statement {
        SqlStatement::Delete(d) => {
            if d.from.len() == 1 {
                assert(d.from_views()[0] == d.from@[0]@);
                Some(&d.from[0])
            } else {
                None
            }
        },
        SqlStatement::Update(u) => Some(&u.table),
        SqlStatement::Merge(m) => Some(&m.table),
        SqlStatement::Other => None,
    }
}

/// The SQL text of the name of the table that a mutation is about, qualifiers
/// and quotes included, where it is a plain table.
pub open spec fn qualified_target(statement: StatementView) -> Option<Seq<char>> {
    match target_factor(statement) {
        Some(FactorView { relation: RelationView::Table { name, .. }, .. }) => Some(name.text),
        _ => None,
    }
}

/// The name of the target table of a mutation as it is written, under which
/// the table is registered.
pub fn statement_target_table(statement: &SqlStatement) -> (r: Option<String>)
    ensures
        text_view(r) == qualified_target(statement@),
{
    match target_of(statement) {
        Some(factor) => match &factor.relation {
            Relation::Table { name, .. } => Some(name.text.clone()),
            _ => None,
        },
        None => None,
    }
}

/// The bare name of the table that a mutation is about: the last part of its
/// name, without qualifiers and quotes.
pub open spec fn bare_target(statement: StatementView) -> Option<Seq<char>> {
    match target_factor(statement) {
        Some(FactorView { relation: RelationView::Table { name, .. }, .. }) => match last_ident(
            name,
        ) {
            Some(ident) => Some(ident.value),
            None => None,
        },
        _ => None,
    }
}

/// The bare name of the table that a parsed text mutates, where the text is
/// exactly one mutation.
pub open spec fn sole_target(statements: Seq<StatementView>) -> Option<Seq<char>> {
    if statements.len() == 1 {
        bare_target(statements[0])
    } else {
        None
    }
}

/// The bare target table of what the parser gave.
pub fn sole_mutation_target(statements: &Vec<SqlStatement>) -> (r: Option<String>)
    ensures
        text_view(r) == sole_target(statement_views(statements@)),
{
    if statements.len() != 1 {
        return None;
    }
    assert(statement_views(statements@)[0] == statements@[0]@);
    match target_of(&statements[0]) {
        Some(factor) => match &factor.relation {
            Relation::Table { name, .. } => match last_part(name) {
                Some(ident) => Some(ident.value.clone()),
                None => None,
            },
            _ => None,
        },
        None => None,
    }
}

/// The bare target table name of a single DELETE, UPDATE or MERGE, or `None`
/// for any other text. The quotes are stripped, so the result is the name of
/// the registered table and of its directory.
pub fn mutation_target_table(sql: &str) -> (r: Option<String>)
    ensures
        text_view(r) == if flushes_unnamed(sql@) {
            None
        } else {
            match parsed_sql(sql@) {
                Ok(statements) => sole_target(statements),
                Err(_) => None,
            }
        },
{
    if names_no_channel(sql) {
        return None;
    }
    match parse_sql(sql) {
        Ok(statements) => sole_mutation_target(&statements),
        Err(_) => None,
    }
}

/// A mutation of a table has the table as its target, whether it is a DELETE, an
/// UPDATE or a MERGE: as it is written, and by the last part of its name.
pub proof fn mutations_have_their_table(
    name: NameView,
    alias: Option<AliasView>,
    text: Seq<char>,
    statement: StatementView,
)
    requires
        ({
            let table = FactorView { relation: RelationView::Table { name, alias }, text };
            ||| statement matches StatementView::Delete { from, .. } && from == seq![table]
            ||| statement matches StatementView::Update { table: t, .. } && t == table
            ||| statement matches StatementView::Merge { table: t, .. } && t == table
        }),
    ensures
        qualified_target(statement) == Some(name.text),
        name.parts.len() > 0 ==> (name.parts[name.parts.len() - 1] matches Some(ident) ==> {
            &&& bare_target(statement) == Some(ident.value)
            &&& sole_target(seq![statement]) == Some(ident.value)
        }),
        name.parts.len() > 0 && name.parts[name.parts.len() - 1] is None ==> bare_target(
            statement,
        ) is None,
        name.parts.len() == 0 ==> bare_target(statement) is None,
{
    let table = FactorView { relation: RelationView::Table { name, alias }, text };
    if statement is Delete {
        assert(seq![table][0] == table);
    }
    assert(seq![statement][0] == statement);
}

/// Nothing else has a target: other statements, a DELETE from no table or from
/// several, and what is no table; nor has a text of no statement or of several.
pub proof fn other_statements_have_no_target(
    statement: StatementView,
    statements: Seq<StatementView>,
)
    requires
        match statement {
            StatementView::Delete { from, .. } => from.len() != 1 || !(from[0].relation is Table),
            StatementView::Update { table, .. } => !(table.relation is Table),
            StatementView::Merge { table, .. } => !(table.relation is Table),
            StatementView::Other => true,
        },
    ensures
        qualified_target(statement) is None,
        bare_target(statement) is None,
        statements.len() != 1 ==> sole_target(statements) is None,
{
}

/// Names are seen as they are written: each part with its quotes, and the whole as
/// text.
pub proof fn names_are_seen_with_their_quotes(name: ObjectName, i: int)
    ensures
        name@.text == name.text@,
        name@.parts.len() == name.parts@.len(),
        0 <= i < name.parts@.len() ==> match name.parts@[i] {
            Some(ident) => name@.parts[i] matches Some(seen) && seen.value == ident.value@
                && seen.quote == ident.quote,
            None => name@.parts[i] is None,
        },
{
}

/// Table references are seen as they are: what they refer to, their alias, and their
/// text.
pub proof fn tables_are_seen_with_their_alias(factor: TableFactor)
    ensures
        factor@.text == factor.text@,
        match factor.relation {
            Relation::Table { name, alias } => factor@.relation == (RelationView::Table {
                name: name@,
                alias: alias_view(alias),
            }),
            Relation::Derived { subquery, alias } => factor@.relation == (RelationView::Derived {
                subquery: subquery@,
                alias: alias_view(alias),
            }),
            Relation::Other => factor@.relation is Other,
        },
        match factor.relation {
            Relation::Table { alias: Some(a), .. } => factor@.relation matches RelationView::Table {
                alias: Some(seen),
                ..
            } && seen.name == a.name@ && seen.columns == texts(a.columns@),
            Relation::Derived { alias: Some(a), .. } => factor@.relation matches
                RelationView::Derived { alias: Some(seen), .. } && seen.name == a.name@
                && seen.columns == texts(a.columns@),
            _ => true,
        },
{
}

/// The clauses of a MERGE, with their assignments, are seen as they are and in their
/// order.
pub proof fn clauses_are_seen_in_order(merge: Merge, i: int, k: int)
    requires
        0 <= i < merge.clauses@.len(),
    ensures
        merge.clause_views().len() == merge.clauses@.len(),
        ({
            let clause = merge.clauses@[i];
            let seen = merge.clause_views()[i];
            &&& seen.kind == clause.kind
            &&& clause.condition is Some <==> seen.condition is Some
            &&& clause.action is Insert <==> seen.action is Insert
            &&& clause.action is Delete <==> seen.action is Delete
            &&& clause.action matches MergeAction::Update(assignments) ==> (seen.action matches
                ActionView::Update(views) && views.len() == assignments@.len() && (0 <= k
                < views.len() ==> {
                &&& views[k].value == assignments@[k].value@
                &&& match assignments@[k].target {
                    AssignmentTarget::ColumnName(name) => views[k].target == Some(name@),
                    AssignmentTarget::Tuple => views[k].target is None,
                }
            }))
        }),
{
}

/// The two sides of an ON equality are seen as they are.
pub proof fn sides_are_seen_as_they_are(on: OnPredicate, i: int)
    ensures
        on@.text == on.text@,
        match (on.equality, on@.equality) {
            (None, seen) => seen is None,
            (Some((left, right)), Some((l, r))) => l == left@ && r == right@ && match (left, l) {
                (Operand::Compound(parts), Some(seen)) => seen.len() == parts@.len() && (0 <= i
                    < parts@.len() ==> seen[i].value == parts@[i].value@ && seen[i].quote
                    == parts@[i].quote),
                (Operand::Other, seen) => seen is None,
                _ => false,
            },
            _ => false,
        },
{
}

} // verus!
