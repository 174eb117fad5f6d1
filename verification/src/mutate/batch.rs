//! Several mutations in a row, made visible at once.
//!
//! Each statement runs against providers of its own, which follow every commit,
//! so that a later statement sees what an earlier one did. The public providers
//! are refreshed at the end, each mutated table once.
//!
//! A table is the same however a statement spells its name: `trips`, `Trips`
//! and `"trips"` share one provider and one refresh.
use vstd::prelude::*;

use super::statement::{normalize_sql_identifier, normalized};
use crate::scalar::text_view;
use crate::sql::{
    last_ident, last_part, qualified_target, statement_target_table, target_factor, target_of,
    FactorView, IdentView, NameView, Relation, RelationView, SqlStatement, StatementView,
};
use crate::text::{lowercase, texts};

verus! {

/// What a table is known by, however its name is spelled: the last identifier
/// of the name, in lower case unless it is quoted.
pub open spec fn name_key(name: NameView) -> Seq<char> {
    match last_ident(name) {
        Some(ident) => normalized(ident),
        None => name.text,
    }
}

/// What the table that a mutation is about is known by.
pub open spec fn target_key(statement: StatementView) -> Option<Seq<char>> {
    match target_factor(statement) {
        Some(FactorView { relation: RelationView::Table { name, .. }, .. }) => Some(name_key(name)),
        _ => None,
    }
}

fn key_of_target(statement: &SqlStatement) -> (r: Option<String>)
    ensures
        text_view(r) == target_key(statement@),
{
    match target_of(statement) {
        Some(factor) => match &factor.relation {
            Relation::Table { name, .. } => match last_part(name) {
                Some(ident) => Some(normalize_sql_identifier(ident)),
                None => Some(name.text.clone()),
            },
            _ => None,
        },
        None => None,
    }
}

/// What to do with a statement of a batch.
#[derive(Debug, PartialEq, Eq)]
pub enum BatchStep {
    /// No mutation: run it as it is. It counts no row.
    Passthrough,
    /// Commit it. Where `open` names a table, open a write-side provider for
    /// it first.
    Mutate { open: Option<String> },
}

/// A table that has a write-side provider.
pub struct OpenTable {
    /// What the table is known by.
    pub key: String,
    /// Its name, as the statement spelled it for which it was opened. The
    /// provider is registered under that name.
    pub name: String,
    /// Whether a statement changed it.
    pub changed: bool,
}

pub struct TableView {
    pub key: Seq<char>,
    pub name: Seq<char>,
    pub changed: bool,
}

impl View for OpenTable {
    type V = TableView;

    open spec fn view(&self) -> TableView {
        TableView { key: self.key@, name: self.name@, changed: self.changed }
    }
}

/// A batch of statements under way.
pub struct BatchRun {
    /// The rows that each statement touched, in order.
    pub counts: Vec<u64>,
    /// The tables that have a write-side provider.
    pub tables: Vec<OpenTable>,
}

pub struct BatchView {
    pub counts: Seq<u64>,
    pub tables: Seq<TableView>,
}

impl View for BatchRun {
    type V = BatchView;

    open spec fn view(&self) -> BatchView {
        BatchView {
            counts: self.counts@,
            tables: self.tables@.map_values(|t: OpenTable| t@),
        }
    }
}

/// What the tables are known by.
pub open spec fn table_keys(tables: Seq<TableView>) -> Seq<Seq<char>> {
    tables.map_values(|t: TableView| t.key)
}

/// The tables with one more, unless it is there.
pub open spec fn with_table(tables: Seq<TableView>, key: Seq<char>, name: Seq<char>) -> Seq<
    TableView,
> {
    if table_keys(tables).contains(key) {
        tables
    } else {
        tables.push(TableView { key, name, changed: false })
    }
}

/// The tables, one of them changed.
pub open spec fn with_change(tables: Seq<TableView>, key: Seq<char>) -> Seq<TableView> {
    tables.map_values(
        |t: TableView|
            TableView { key: t.key, name: t.name, changed: t.changed || t.key == key },
    )
}

/// The names of the tables that were changed, in the order in which they were
/// opened.
pub open spec fn changed_names(tables: Seq<TableView>) -> Seq<Seq<char>>
    decreases tables.len(),
{
    if tables.len() == 0 {
        seq![]
    } else {
        let front = changed_names(tables.drop_last());
        if tables.last().changed {
            front.push(tables.last().name)
        } else {
            front
        }
    }
}

/// What the tables that were changed are known by.
pub open spec fn changed_keys(tables: Seq<TableView>) -> Seq<Seq<char>>
    decreases tables.len(),
{
    if tables.len() == 0 {
        seq![]
    } else {
        let front = changed_keys(tables.drop_last());
        if tables.last().changed {
            front.push(tables.last().key)
        } else {
            front
        }
    }
}

/// The place of a table.
pub open spec fn table_place(tables: Seq<TableView>, key: Seq<char>) -> int {
    table_keys(tables).index_of(key)
}

/// A batch in which the target of a statement has been opened.
pub open spec fn after_opening(run: BatchView, statement: StatementView) -> BatchView {
    match (target_key(statement), qualified_target(statement)) {
        (Some(key), Some(name)) => BatchView {
            counts: run.counts,
            tables: with_table(run.tables, key, name),
        },
        _ => run,
    }
}

/// A batch in which a statement was run as it is.
pub open spec fn after_passing(run: BatchView) -> BatchView {
    BatchView { counts: run.counts.push(0), tables: run.tables }
}

/// A batch in which a mutation was committed.
pub open spec fn after_commit(
    run: BatchView,
    statement: StatementView,
    count: u64,
    changed: bool,
) -> BatchView {
    BatchView {
        counts: run.counts.push(count),
        tables: match target_key(statement) {
            Some(key) if changed => with_change(run.tables, key),
            _ => run.tables,
        },
    }
}

proof fn opening_keeps(tables: Seq<TableView>, key: Seq<char>, name: Seq<char>)
    requires
        table_keys(tables).no_duplicates(),
    ensures
        table_keys(with_table(tables, key, name)).no_duplicates(),
        forall|k: Seq<char>| #[trigger]
            table_keys(with_table(tables, key, name)).contains(k) <==> table_keys(tables).contains(
                k,
            ) || k == key,
        changed_keys(with_table(tables, key, name)) == changed_keys(tables),
{
    let keys = table_keys(tables);
    let more = table_keys(with_table(tables, key, name));
    if !keys.contains(key) {
        assert(more =~= keys.push(key));
        assert(with_table(tables, key, name).drop_last() =~= tables);
        assert forall|i: int, j: int| 0 <= i < j < more.len() implies more[i] != more[j] by {
            if j == keys.len() {
                assert(keys.contains(keys[i]));
            }
        }
    }
    assert forall|k: Seq<char>| #[trigger] more.contains(k) <==> keys.contains(k) || k == key by {
        if keys.contains(k) {
            assert(more[keys.index_of(k)] == k);
        }
        if !keys.contains(key) {
            assert(more[keys.len() as int] == key);
        }
        if more.contains(k) && k != key {
            assert(keys[more.index_of(k)] == k);
        }
    }
}

proof fn change_keeps(tables: Seq<TableView>, key: Seq<char>)
    ensures
        table_keys(with_change(tables, key)) == table_keys(tables),
        forall|k: Seq<char>| #[trigger]
            changed_keys(with_change(tables, key)).contains(k) <==> changed_keys(tables).contains(k)
                || (k == key && table_keys(tables).contains(key)),
    decreases tables.len(),
{
    let after = with_change(tables, key);
    assert(table_keys(after) =~= table_keys(tables));
    if tables.len() > 0 {
        let front = tables.drop_last();
        change_keeps(front, key);
        assert(after.drop_last() =~= with_change(front, key));
        let old_front = changed_keys(front);
        let new_front = changed_keys(with_change(front, key));
        assert(table_keys(tables) =~= table_keys(front).push(tables.last().key));
        assert forall|k: Seq<char>| #[trigger]
            changed_keys(after).contains(k) <==> changed_keys(tables).contains(k) || (k == key
                && table_keys(tables).contains(key)) by {
            pushed_contains(new_front, tables.last().key, k);
            pushed_contains(old_front, tables.last().key, k);
            pushed_contains(table_keys(front), tables.last().key, key);
            assert(new_front.contains(k) <==> old_front.contains(k) || (k == key && table_keys(
                front,
            ).contains(key)));
        }
    }
}

proof fn pushed_contains(s: Seq<Seq<char>>, x: Seq<char>, y: Seq<char>)
    ensures
        s.push(x).contains(y) <==> s.contains(y) || x == y,
{
    if s.contains(y) {
        assert(s.push(x)[s.index_of(y)] == y);
    }
    assert(s.push(x)[s.len() as int] == x);
    if s.push(x).contains(y) && x != y {
        assert(s[s.push(x).index_of(y)] == y);
    }
}

proof fn changed_keys_distinct(tables: Seq<TableView>)
    requires
        table_keys(tables).no_duplicates(),
    ensures
        changed_keys(tables).no_duplicates(),
        changed_keys(tables).len() == changed_names(tables).len(),
        forall|k: Seq<char>| #[trigger]
            changed_keys(tables).contains(k) ==> table_keys(tables).contains(k),
    decreases tables.len(),
{
    if tables.len() > 0 {
        let front = tables.drop_last();
        let last = tables.last();
        assert(table_keys(tables) =~= table_keys(front).push(last.key));
        assert(table_keys(front).no_duplicates()) by {
            assert forall|i: int, j: int|
                0 <= i < table_keys(front).len() && 0 <= j < table_keys(front).len() && i
                    != j implies table_keys(front)[i] != table_keys(front)[j] by {
                assert(table_keys(tables)[i] == table_keys(front)[i]);
                assert(table_keys(tables)[j] == table_keys(front)[j]);
            }
        }
        changed_keys_distinct(front);
        assert(!table_keys(front).contains(last.key)) by {
            if table_keys(front).contains(last.key) {
                let i = table_keys(front).index_of(last.key);
                assert(table_keys(tables)[i] == table_keys(tables)[tables.len() - 1]);
            }
        }
        let keys = changed_keys(front);
        if last.changed {
            assert(!keys.contains(last.key));
            assert forall|i: int, j: int|
                0 <= i < keys.push(last.key).len() && 0 <= j < keys.push(last.key).len() && i
                    != j implies keys.push(last.key)[i] != keys.push(last.key)[j] by {
                if i < keys.len() {
                    assert(keys.contains(keys[i]));
                }
                if j < keys.len() {
                    assert(keys.contains(keys[j]));
                }
            }
        }
        assert forall|k: Seq<char>| #[trigger] changed_keys(tables).contains(k) implies table_keys(
            tables,
        ).contains(k) by {
            pushed_contains(keys, last.key, k);
            pushed_contains(table_keys(front), last.key, k);
        }
    }
}

impl BatchRun {
    /// No table is listed twice.
    pub open spec fn well_formed(self) -> bool {
        table_keys(self@.tables).no_duplicates()
    }

    /// Whether the table that a statement is about has a write-side provider.
    pub open spec fn has_target(self, statement: StatementView) -> bool {
        target_key(statement) matches Some(key) && table_keys(self@.tables).contains(key)
    }

    /// A batch of which nothing has run.
    pub fn new() -> (r: BatchRun)
        ensures
            r.well_formed(),
            r@ == (BatchView { counts: seq![], tables: seq![] }),
    {
        let r = BatchRun { counts: Vec::new(), tables: Vec::new() };
        assert(r@.tables =~= seq![]);
        assert(r@.counts =~= seq![]);
        r
    }

    fn find(&self, key: &String) -> (r: Option<usize>)
        ensures
            match r {
                Some(i) => i < self.tables@.len() && table_keys(self@.tables)[i as int] == key@,
                None => !table_keys(self@.tables).contains(key@),
            },
    {
        let ghost keys = table_keys(self@.tables);
        let mut i: usize = 0;
        while i < self.tables.len()
            invariant
                i <= self.tables@.len(),
                keys == table_keys(self@.tables),
                keys.len() == self.tables@.len(),
                forall|k: int| 0 <= k < i ==> keys[k] != key@,
            decreases self.tables@.len() - i,
        {
            assert(keys[i as int] == self.tables@[i as int].key@);
            if self.tables[i].key == *key {
                return Some(i);
            }
            i = i + 1;
        }
        None
    }

    /// What to do with the next statement.
    pub fn step(&self, statement: &SqlStatement) -> (r: BatchStep)
        ensures
            match r {
                BatchStep::Passthrough => statement@ is Other,
                BatchStep::Mutate { open } => {
                    &&& !(statement@ is Other)
                    &&& text_view(open) == if self.has_target(statement@) {
                        None
                    } else {
                        qualified_target(statement@)
                    }
                },
            },
    {
        match statement {
            SqlStatement::Other => BatchStep::Passthrough,
            _ => match key_of_target(statement) {
                Some(key) => match self.find(&key) {
                    Some(i) => {
                        assert(table_keys(self@.tables)[i as int] == key@);
                        BatchStep::Mutate { open: None }
                    },
                    None => BatchStep::Mutate { open: statement_target_table(statement) },
                },
                None => BatchStep::Mutate { open: statement_target_table(statement) },
            },
        }
    }

    /// Records that the table that a statement is about has a write-side
    /// provider, under the name that the statement spells.
    pub fn opened(&mut self, statement: &SqlStatement)
        requires
            old(self).well_formed(),
        ensures
            final(self).well_formed(),
            final(self)@ == after_opening(old(self)@, statement@),
    {
        let ghost before = self@;
        match (key_of_target(statement), statement_target_table(statement)) {
            (Some(key), Some(name)) => {
                proof {
                    opening_keeps(before.tables, key@, name@);
                }
                if self.find(&key).is_none() {
                    let table = OpenTable { key, name, changed: false };
                    let ghost view = table@;
                    self.tables.push(table);
                    assert(self@.tables =~= before.tables.push(view));
                } else {
                    assert(table_keys(before.tables).contains(key@));
                }
            },
            _ => {},
        }
    }

    /// The name under which the write-side provider for a statement is
    /// registered, which may be another spelling than the statement's.
    pub fn provider_name(&self, statement: &SqlStatement) -> (r: Option<String>)
        requires
            self.well_formed(),
        ensures
            text_view(r) == if self.has_target(statement@) {
                Some(
                    self@.tables[table_place(self@.tables, target_key(statement@)->0)].name,
                )
            } else {
                None
            },
    {
        match key_of_target(statement) {
            Some(key) => match self.find(&key) {
                Some(i) => {
                    let ghost keys = table_keys(self@.tables);
                    proof {
                        assert(keys.contains(key@));
                        let j = keys.index_of(key@);
                        assert(keys[j] == keys[i as int]);
                    }
                    Some(self.tables[i].name.clone())
                },
                None => None,
            },
            None => None,
        }
    }

    /// Records that a statement was run as it is.
    pub fn passed(&mut self)
        requires
            old(self).well_formed(),
        ensures
            final(self).well_formed(),
            final(self)@ == after_passing(old(self)@),
    {
        self.counts.push(0);
    }

    /// Records that a mutation was committed: the rows that it touched, and
    /// whether it changed the table. The write-side provider of a changed
    /// table has to follow the commit.
    pub fn committed(&mut self, statement: &SqlStatement, count: u64, changed: bool)
        requires
            old(self).well_formed(),
            old(self).has_target(statement@),
        ensures
            final(self).well_formed(),
            final(self)@ == after_commit(old(self)@, statement@, count, changed),
    {
        let ghost before = self@;
        self.counts.push(count);
        if changed {
            match key_of_target(statement) {
                Some(key) => {
                    proof {
                        change_keeps(before.tables, key@);
                    }
                    match self.find(&key) {
                        Some(i) => {
                            let ghost keys = table_keys(before.tables);
                            let mut marked: OpenTable = OpenTable {
                                key: key.clone(),
                                name: self.tables[i].name.clone(),
                                changed: true,
                            };
                            std::mem::swap(&mut self.tables[i], &mut marked);
                            proof {
                                assert forall|j: int| 0 <= j < before.tables.len() implies (
                                #[trigger] self@.tables[j]) == with_change(before.tables, key@)[j] by {
                                    if j != i {
                                        assert(keys[j] != keys[i as int]);
                                    }
                                }
                                assert(self@.tables =~= with_change(before.tables, key@));
                            }
                        },
                        None => {},
                    }
                },
                None => {},
            }
        }
    }

    /// The counts of the statements, and the names of the tables whose public
    /// provider takes over the snapshot of the write-side one.
    pub fn finish(self) -> (r: (Vec<u64>, Vec<String>))
        ensures
            r.0 == self.counts,
            texts(r.1@) == changed_names(self@.tables),
    {
        let mut names: Vec<String> = Vec::new();
        let mut i: usize = 0;
        assert(self@.tables.take(0) =~= seq![]);
        assert(texts(names@) =~= seq![]);
        while i < self.tables.len()
            invariant
                i <= self.tables@.len(),
                self@.tables.len() == self.tables@.len(),
                texts(names@) == changed_names(self@.tables.take(i as int)),
            decreases self.tables@.len() - i,
        {
            let ghost more = self@.tables.take(i as int + 1);
            assert(more.drop_last() =~= self@.tables.take(i as int));
            assert(more.last() == self.tables@[i as int]@);
            if self.tables[i].changed {
                let ghost before = texts(names@);
                let name = self.tables[i].name.clone();
                let ghost n = name@;
                names.push(name);
                assert(texts(names@) =~= before.push(n));
            }
            i = i + 1;
        }
        assert(self@.tables.take(i as int) =~= self@.tables);
        (self.counts, names)
    }
}

/// One thing that happened in a batch.
pub enum BatchEvent {
    Passed,
    Committed { statement: StatementView, count: u64, changed: bool },
}

/// A batch in which all this happened, the target of every mutation opened
/// before it.
pub open spec fn run_of(events: Seq<BatchEvent>) -> BatchView
    decreases events.len(),
{
    if events.len() == 0 {
        BatchView { counts: seq![], tables: seq![] }
    } else {
        let before = run_of(events.drop_last());
        match events.last() {
            BatchEvent::Passed => after_passing(before),
            BatchEvent::Committed { statement, count, changed } => after_commit(
                after_opening(before, statement),
                statement,
                count,
                changed,
            ),
        }
    }
}

/// Whether an event changed a table.
pub open spec fn changes(event: BatchEvent, key: Seq<char>) -> bool {
    event matches BatchEvent::Committed { statement, changed, .. } && changed && target_key(
        statement,
    ) == Some(key)
}

proof fn target_is_named(statement: StatementView)
    ensures
        target_key(statement) is Some <==> qualified_target(statement) is Some,
{
}

/// Whatever happens in a batch, each table that some statement changed is
/// refreshed exactly once, however the statements spell its name, and no other
/// is. There is one count for each statement.
pub proof fn refreshed_exactly_once(events: Seq<BatchEvent>)
    ensures
        run_of(events).counts.len() == events.len(),
        table_keys(run_of(events).tables).no_duplicates(),
        changed_keys(run_of(events).tables).no_duplicates(),
        changed_names(run_of(events).tables).len() == changed_keys(run_of(events).tables).len(),
        forall|key: Seq<char>| #[trigger]
            changed_keys(run_of(events).tables).contains(key) <==> exists|i: int|
                0 <= i < events.len() && changes(#[trigger] events[i], key),
    decreases events.len(),
{
    let run = run_of(events);
    if events.len() > 0 {
        let front = events.drop_last();
        let before = run_of(front);
        refreshed_exactly_once(front);
        match events.last() {
            BatchEvent::Passed => {},
            BatchEvent::Committed { statement, count, changed } => {
                target_is_named(statement);
                match (target_key(statement), qualified_target(statement)) {
                    (Some(key), Some(name)) => {
                        opening_keeps(before.tables, key, name);
                        change_keeps(with_table(before.tables, key, name), key);
                    },
                    _ => {},
                }
            },
        }
        assert forall|key: Seq<char>| #[trigger]
            changed_keys(run.tables).contains(key) <==> exists|i: int|
                0 <= i < events.len() && changes(#[trigger] events[i], key) by {
            let last = events[events.len() - 1];
            assert(changed_keys(run.tables).contains(key) <==> changed_keys(
                before.tables,
            ).contains(key) || changes(last, key));
            if changed_keys(before.tables).contains(key) {
                let i = choose|i: int| 0 <= i < front.len() && changes(#[trigger] front[i], key);
                assert(events[i] == front[i]);
            }
            if exists|i: int| 0 <= i < events.len() && changes(#[trigger] events[i], key) {
                let i = choose|i: int|
                    0 <= i < events.len() && changes(#[trigger] events[i], key);
                if i < front.len() {
                    assert(front[i] == events[i]);
                }
            }
        }
    }
    changed_keys_distinct(run.tables);
}

/// What a mutation does, from the tables that it sees: the contents of its
/// target afterwards, how many rows it touches, and whether it commits
/// anything. `T` is the type of the contents of a table.
pub struct Effect<T> {
    pub contents: T,
    pub count: u64,
    pub changed: bool,
}

/// The contents of tables, by what these are known by.
pub type Tables<T> = Map<Seq<char>, T>;

/// What statements leave, and the counts that they give.
pub struct Outcome<T> {
    pub tables: Tables<T>,
    pub counts: Seq<u64>,
}

/// Statements run one by one: each sees what the ones before it did.
pub open spec fn one_by_one<T>(
    effect: spec_fn(StatementView, Tables<T>) -> Effect<T>,
    tables: Tables<T>,
    statements: Seq<StatementView>,
) -> Outcome<T>
    decreases statements.len(),
{
    if statements.len() == 0 {
        Outcome { tables, counts: seq![] }
    } else {
        let before = one_by_one(effect, tables, statements.drop_last());
        let statement = statements.last();
        match target_key(statement) {
            Some(key) => {
                let e = effect(statement, before.tables);
                Outcome {
                    tables: if e.changed {
                        before.tables.insert(key, e.contents)
                    } else {
                        before.tables
                    },
                    counts: before.counts.push(e.count),
                }
            },
            None => Outcome { tables: before.tables, counts: before.counts.push(0) },
        }
    }
}

/// A batch, with the tables that its write-side providers show.
pub struct BatchState<T> {
    pub run: BatchView,
    pub write: Tables<T>,
}

/// The write-side tables once the target of a statement has been opened: a
/// table is opened as its public provider shows it.
pub open spec fn write_side<T>(write: Tables<T>, public: Tables<T>, key: Seq<char>) -> Tables<T> {
    if write.contains_key(key) {
        write
    } else {
        write.insert(key, public[key])
    }
}

/// Statements run as a batch: each mutation sees the write-side tables, and the
/// public ones stay as they are.
pub open spec fn in_batch<T>(
    effect: spec_fn(StatementView, Tables<T>) -> Effect<T>,
    public: Tables<T>,
    statements: Seq<StatementView>,
) -> BatchState<T>
    decreases statements.len(),
{
    if statements.len() == 0 {
        BatchState {
            run: BatchView { counts: seq![], tables: seq![] },
            write: Map::empty(),
        }
    } else {
        let before = in_batch(effect, public, statements.drop_last());
        let statement = statements.last();
        match target_key(statement) {
            Some(key) => {
                let write = write_side(before.write, public, key);
                let e = effect(statement, write);
                BatchState {
                    run: after_commit(
                        after_opening(before.run, statement),
                        statement,
                        e.count,
                        e.changed,
                    ),
                    write: if e.changed {
                        write.insert(key, e.contents)
                    } else {
                        write
                    },
                }
            },
            None => BatchState { run: after_passing(before.run), write: before.write },
        }
    }
}

/// The public tables after a batch: those that it changed are taken over from
/// the write side.
pub open spec fn published<T>(public: Tables<T>, state: BatchState<T>) -> Tables<T> {
    Map::new(
        |key: Seq<char>| public.contains_key(key),
        |key: Seq<char>|
            if changed_keys(state.run.tables).contains(key) {
                state.write[key]
            } else {
                public[key]
            },
    )
}

/// Whether a mutation reads only these tables: what it does is the same where
/// there are others too.
pub open spec fn reads_only<T>(
    effect: spec_fn(StatementView, Tables<T>) -> Effect<T>,
    statement: StatementView,
    tables: Tables<T>,
) -> bool {
    forall|more: Tables<T>| #[trigger]
        tables.submap_of(more) ==> effect(statement, more) == effect(statement, tables)
}

/// Whether every mutation of a batch has a public table as its target, and
/// reads only tables that the batch has opened.
pub open spec fn batch_succeeds<T>(
    effect: spec_fn(StatementView, Tables<T>) -> Effect<T>,
    public: Tables<T>,
    statements: Seq<StatementView>,
) -> bool
    decreases statements.len(),
{
    statements.len() == 0 || {
        let front = statements.drop_last();
        &&& batch_succeeds(effect, public, front)
        &&& statements.last() is Other || target_key(statements.last()) is Some
        &&& target_key(statements.last()) matches Some(key) ==> {
            &&& public.contains_key(key)
            &&& reads_only(
                effect,
                statements.last(),
                write_side(in_batch(effect, public, front).write, public, key),
            )
        }
    }
}

/// What a batch has in common with running its statements one by one.
pub open spec fn keeps_up<T>(
    public: Tables<T>,
    state: BatchState<T>,
    outcome: Outcome<T>,
) -> bool {
    &&& state.run.counts == outcome.counts
    &&& table_keys(state.run.tables).no_duplicates()
    &&& forall|k: Seq<char>| #[trigger]
        outcome.tables.contains_key(k) <==> public.contains_key(k)
    &&& forall|k: Seq<char>| #[trigger]
        state.write.contains_key(k) <==> table_keys(state.run.tables).contains(k)
    &&& forall|k: Seq<char>| #[trigger]
        state.write.contains_key(k) ==> public.contains_key(k) && state.write[k]
            == outcome.tables[k]
    &&& forall|k: Seq<char>|
        #[trigger] public.contains_key(k) && !changed_keys(state.run.tables).contains(k)
            ==> outcome.tables[k] == public[k]
}

proof fn batch_keeps_up<T>(
    effect: spec_fn(StatementView, Tables<T>) -> Effect<T>,
    public: Tables<T>,
    statements: Seq<StatementView>,
)
    requires
        batch_succeeds(effect, public, statements),
    ensures
        keeps_up(
            public,
            in_batch(effect, public, statements),
            one_by_one(effect, public, statements),
        ),
        in_batch(effect, public, statements).run.counts.len() == statements.len(),
    decreases statements.len(),
{
    if statements.len() > 0 {
        let front = statements.drop_last();
        let statement = statements.last();
        batch_keeps_up(effect, public, front);
        let before = in_batch(effect, public, front);
        let outcome = one_by_one(effect, public, front);
        match target_key(statement) {
            Some(key) => {
                target_is_named(statement);
                let name = qualified_target(statement)->0;
                let write = write_side(before.write, public, key);
                opening_keeps(before.run.tables, key, name);
                change_keeps(with_table(before.run.tables, key, name), key);
                changed_keys_distinct(before.run.tables);
                assert(write.submap_of(outcome.tables)) by {
                    assert forall|k: Seq<char>| #[trigger] write.contains_key(k) implies
                        outcome.tables.contains_key(k) && write[k] == outcome.tables[k] by {
                        if !before.write.contains_key(k) {
                            assert(k == key);
                            assert(!table_keys(before.run.tables).contains(k));
                            assert(public.contains_key(k));
                        }
                    }
                }
                assert(effect(statement, outcome.tables) == effect(statement, write));
                let state = in_batch(effect, public, statements);
                let after = one_by_one(effect, public, statements);
                assert forall|k: Seq<char>|
                    #[trigger] public.contains_key(k) && !changed_keys(state.run.tables).contains(
                        k,
                    ) implies after.tables[k] == public[k] by {
                    assert(!changed_keys(before.run.tables).contains(k));
                }
                assert(keeps_up(public, state, after));
            },
            None => {},
        }
    }
}

/// A batch does what its statements do one by one: the counts are the same, one
/// for each statement, and so are the public tables at the end. A batch without
/// statements opens and refreshes nothing.
pub proof fn batch_is_one_by_one<T>(
    effect: spec_fn(StatementView, Tables<T>) -> Effect<T>,
    public: Tables<T>,
    statements: Seq<StatementView>,
)
    requires
        batch_succeeds(effect, public, statements),
    ensures
        in_batch(effect, public, statements).run.counts == one_by_one(
            effect,
            public,
            statements,
        ).counts,
        in_batch(effect, public, statements).run.counts.len() == statements.len(),
        published(public, in_batch(effect, public, statements)) =~= one_by_one(
            effect,
            public,
            statements,
        ).tables,
        statements.len() == 0 ==> in_batch(effect, public, statements).run.tables.len() == 0,
{
    batch_keeps_up(effect, public, statements);
    let state = in_batch(effect, public, statements);
    changed_keys_distinct(state.run.tables);
    let tables = one_by_one(effect, public, statements).tables;
    assert forall|k: Seq<char>| #[trigger] public.contains_key(k) implies published(
        public,
        state,
    )[k] == tables[k] by {
        if changed_keys(state.run.tables).contains(k) {
            assert(state.write.contains_key(k));
        }
    }
}

/// A table is known by the last identifier of its name, in whatever kind of
/// mutation: in lower case, so that its spelling does not matter, unless it is
/// quoted.
pub proof fn spellings_share_a_table(
    name: NameView,
    factor: FactorView,
    statement: StatementView,
    ident: IdentView,
)
    requires
        factor.relation matches RelationView::Table { name: n, .. } && n == name,
        name.parts.len() > 0,
        name.parts[name.parts.len() - 1] == Some(ident),
        ({
            ||| statement matches StatementView::Delete { from, .. } && from == seq![factor]
            ||| statement matches StatementView::Update { table: t, .. } && t == factor
            ||| statement matches StatementView::Merge { table: t, .. } && t == factor
        }),
    ensures
        ident.quote is None ==> target_key(statement) == Some(lowercase(ident.value)),
        ident.quote is Some ==> target_key(statement) == Some(ident.value),
{
    if statement is Delete {
        assert(seq![factor][0] == factor);
    }
}

/// The tables that are refreshed are those that were changed, in the order in
/// which they were opened, each under the name that it was opened by.
pub proof fn changed_tables_are_refreshed(tables: Seq<TableView>)
    ensures
        changed_names(tables) == tables.filter(|t: TableView| t.changed).map_values(
            |t: TableView| t.name,
        ),
        changed_keys(tables) == tables.filter(|t: TableView| t.changed).map_values(
            |t: TableView| t.key,
        ),
    decreases tables.len(),
{
    reveal(Seq::filter);
    let changed = |t: TableView| t.changed;
    let name = |t: TableView| t.name;
    let key = |t: TableView| t.key;
    if tables.len() > 0 {
        let front = tables.drop_last();
        changed_tables_are_refreshed(front);
        if tables.last().changed {
            let kept = front.filter(changed);
            assert(kept.push(tables.last()).map_values(name) =~= kept.map_values(name).push(
                tables.last().name,
            ));
            assert(kept.push(tables.last()).map_values(key) =~= kept.map_values(key).push(
                tables.last().key,
            ));
        }
    } else {
        assert(tables.filter(changed).map_values(name) =~= seq![]);
        assert(tables.filter(changed).map_values(key) =~= seq![]);
    }
}

/// Opening a table keeps the open ones as they are, and a table that is open keeps
/// the name that it was opened by. A change marks the table and no other.
pub proof fn open_tables_keep_their_name(
    tables: Seq<TableView>,
    key: Seq<char>,
    name: Seq<char>,
    i: int,
)
    requires
        0 <= i < tables.len(),
    ensures
        with_table(tables, key, name).len() >= tables.len(),
        with_table(tables, key, name)[i] == tables[i],
        tables[i].key == key ==> with_table(tables, key, name) == tables,
        with_table(tables, key, name).len() > tables.len() ==> with_table(tables, key, name)
            == tables.push(TableView { key, name, changed: false }),
        with_change(tables, key).len() == tables.len(),
        with_change(tables, key)[i].key == tables[i].key,
        with_change(tables, key)[i].name == tables[i].name,
        with_change(tables, key)[i].changed <==> tables[i].changed || tables[i].key == key,
{
    assert(table_keys(tables)[i] == tables[i].key);
}

/// The counts are those of the statements, in their order; a statement that was
/// run as it is counts no row.
pub proof fn statements_are_counted_in_order(events: Seq<BatchEvent>, i: int)
    requires
        0 <= i < events.len(),
    ensures
        run_of(events).counts.len() == events.len(),
        run_of(events).counts[i] == match events[i] {
            BatchEvent::Passed => 0,
            BatchEvent::Committed { count, .. } => count,
        },
    decreases events.len(),
{
    refreshed_exactly_once(events);
    refreshed_exactly_once(events.drop_last());
    if i < events.len() - 1 {
        statements_are_counted_in_order(events.drop_last(), i);
    }
}

/// The place of an open table is where the table of that key stands.
pub proof fn tables_are_found_by_key(tables: Seq<TableView>, key: Seq<char>, i: int)
    requires
        table_keys(tables).no_duplicates(),
        0 <= i < tables.len(),
        tables[i].key == key,
    ensures
        table_place(tables, key) == i,
{
    let keys = table_keys(tables);
    assert(keys[i] == key);
    assert(keys.contains(key));
    let k = keys.index_of(key);
    assert(keys[k] == keys[i]);
}

} // verus!
