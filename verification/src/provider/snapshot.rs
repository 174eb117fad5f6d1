//! The snapshot that a provider serves, and how it moves forward.
//!
//! A provider is pinned to one manifest sequence. Its schema, its indexes and
//! statistics, and the plan that it scans by all belong to that sequence. A
//! commit of its own moves it by the commit's delta; a commit of another
//! process is noticed when a plan is loaded, and the provider is pinned anew.
use std::sync::Arc;

use vstd::prelude::*;
use vstd::string::*;

use super::ProviderConfig;
use crate::error::{other, QueryError, Result};
use crate::plan::{
    apply_delta_to_groups, full_schema_of, groups_after, kept_groups, kept_groups_are_former_ones,
    kept_groups_are_no_more, make_full_schema, CommitDelta, PlanView, ScanPlan, TableSchema,
};
use crate::scalar::Schema;
use crate::text::laws::{decimal_writes_the_number, is_numeral, numeral};
use crate::text::{decimal, decimal_text};

verus! {

/// What a provider serves. `S` is the type of the row group statistics, `D`
/// that of what is loaded along with a snapshot: its indexes and its table
/// statistics.
pub struct SnapshotState<S, D> {
    /// The data columns.
    pub data_schema: Arc<Schema>,
    /// The data columns, then the id and the address of the row.
    pub full_schema: Arc<Schema>,
    /// The plan, or one without row groups where it has not been loaded.
    pub scan_plan: ScanPlan<S>,
    pub derived: Arc<D>,
    /// The manifest sequence of the snapshot; 0 where there is none yet.
    pub pinned_sequence: u64,
}

impl<S, D> SnapshotState<S, D> {
    pub open spec fn well_formed(self) -> bool {
        full_schema_of(*self.data_schema, *self.full_schema)
    }

    /// A snapshot whose plan has not been loaded.
    pub fn unloaded(table: &str, schema: &TableSchema, derived: Arc<D>, sequence: u64) -> (r:
        SnapshotState<S, D>)
        ensures
            r.well_formed(),
            r.data_schema == schema.columns,
            r.scan_plan@ == (PlanView::<S> { table: table@, schema: *schema, row_groups: seq![] }),
            r.derived == derived,
            r.pinned_sequence == sequence,
    {
        let full = make_full_schema(&schema.columns);
        SnapshotState {
            data_schema: Arc::clone(&schema.columns),
            full_schema: Arc::new(full),
            scan_plan: ScanPlan::empty(table, schema),
            derived,
            pinned_sequence: sequence,
        }
    }
}

pub open spec fn unsupported_type_message(table: Seq<char>) -> Seq<char> {
    "table '"@ + table + "' has a column with an unsupported Arrow type"@
}

/// The columns of a stored schema, which are `None` where one has a type that
/// cannot be queried.
pub fn require_columns(table: &str, columns: Option<Schema>) -> (r: Result<Schema>)
    ensures
        match columns {
            Some(schema) => r == Ok::<Schema, QueryError>(schema),
            None => r matches Err(e) && e.says(unsupported_type_message(table@)),
        },
{
    match columns {
        Some(schema) => Ok(schema),
        None => {
            let mut message: String = "table '".to_owned();
            message.append(table);
            message.append("' has a column with an unsupported Arrow type");
            Err(other(message.as_str()))
        },
    }
}

/// How a committed delta is taken over.
#[derive(Debug, Clone, Copy, PartialEq, Eq, Structural)]
pub enum DeltaStep {
    /// Nothing changed.
    Noop,
    /// The plan before the commit is at hand: change it as the delta says.
    Incremental,
    /// It is not: forget what was loaded. The next query loads it anew.
    Invalidate,
}

pub open spec fn stale_delta_message(pinned: u64, previous: u64) -> Seq<char> {
    "provider pinned to sequence "@ + decimal(pinned as nat) + " but delta starts from "@ + decimal(
        previous as nat,
    ) + "; refresh stale"@
}

/// A table as the query engine sees it. `T` is the type of a small table held
/// in memory.
pub struct IcefallDBTableProvider<S, D, T> {
    pub table: String,
    pub config: ProviderConfig,
    pub snapshot: SnapshotState<S, D>,
    /// The loaded plan, with the sequence that it is for.
    pub scan_cache: Option<(u64, ScanPlan<S>)>,
    /// The table in memory, with the sequence that it is for.
    pub tiny_table_cache: Option<(u64, Arc<T>)>,
    /// How often the snapshot was refreshed, by a delta or from another
    /// provider.
    pub refreshes: u64,
}

impl<S, D, T> IcefallDBTableProvider<S, D, T> {
    pub open spec fn well_formed(self) -> bool {
        self.snapshot.well_formed()
    }

    /// The loaded plan, where it is for the pinned sequence.
    pub open spec fn current_plan(self) -> Option<PlanView<S>> {
        match self.scan_cache {
            Some((sequence, plan)) => if sequence == self.snapshot.pinned_sequence {
                Some(plan@)
            } else {
                None
            },
            None => None,
        }
    }

    /// A provider of a snapshot; `scan_cache` holds its plan, where that has
    /// been loaded.
    pub fn from_snapshot(
        table: &str,
        config: ProviderConfig,
        snapshot: SnapshotState<S, D>,
        scan_cache: Option<(u64, ScanPlan<S>)>,
    ) -> (r: IcefallDBTableProvider<S, D, T>)
        ensures
            r.table@ == table@,
            r.config == config,
            r.snapshot == snapshot,
            r.scan_cache == scan_cache,
            r.tiny_table_cache is None,
            r.refreshes == 0,
    {
        IcefallDBTableProvider {
            table: table.to_owned(),
            config,
            snapshot,
            scan_cache,
            tiny_table_cache: None,
            refreshes: 0,
        }
    }

    /// The name of the table.
    pub fn table(&self) -> (r: &str)
        ensures
            r@ == self.table@,
    {
        self.table.as_str()
    }

    /// The manifest sequence that the provider is pinned to.
    pub fn pinned_sequence(&self) -> (r: u64)
        ensures
            r == self.snapshot.pinned_sequence,
    {
        self.snapshot.pinned_sequence
    }

    pub fn config(&self) -> (r: &ProviderConfig)
        ensures
            *r == self.config,
    {
        &self.config
    }

    /// How often the snapshot was refreshed.
    pub fn apply_delta_count(&self) -> (r: u64)
        ensures
            r == self.refreshes,
    {
        self.refreshes
    }

    /// The loaded plan, where it is for the pinned sequence.
    pub fn cached_plan(&self) -> (r: Option<&ScanPlan<S>>)
        ensures
            match self.current_plan() {
                Some(plan) => r matches Some(p) && p@ == plan,
                None => r is None,
            },
    {
        match &self.scan_cache {
            Some((sequence, plan)) => {
                if *sequence == self.snapshot.pinned_sequence {
                    Some(plan)
                } else {
                    None
                }
            },
            None => None,
        }
    }

    /// Pins the provider to a newer snapshot, which another process committed.
    /// A provider is never rolled back: where it has moved on meanwhile, it
    /// stays. Returns whether it was pinned.
    pub fn repin_snapshot(&mut self, schema: &TableSchema, derived: Arc<D>, latest: u64) -> (r: bool)
        ensures
            final(self).table == old(self).table,
            final(self).config == old(self).config,
            final(self).scan_cache == old(self).scan_cache,
            final(self).tiny_table_cache == old(self).tiny_table_cache,
            final(self).refreshes == old(self).refreshes,
            final(self).snapshot.pinned_sequence >= old(self).snapshot.pinned_sequence,
            r == (latest >= old(self).snapshot.pinned_sequence),
            if r {
                &&& final(self).well_formed()
                &&& final(self).snapshot.data_schema == schema.columns
                &&& final(self).snapshot.scan_plan@ == (PlanView::<S> {
                    table: old(self).table@,
                    schema: *schema,
                    row_groups: seq![],
                })
                &&& final(self).snapshot.derived == derived
                &&& final(self).snapshot.pinned_sequence == latest
            } else {
                final(self).snapshot == old(self).snapshot
            },
    {
        if latest >= self.snapshot.pinned_sequence {
            self.snapshot =
            SnapshotState::unloaded(self.table.as_str(), schema, derived, latest);
            true
        } else {
            false
        }
    }

    /// Keeps a plan that was loaded at `latest`, where the provider is pinned
    /// there. Returns whether it was kept: a plan must not be paired with the
    /// indexes and statistics of another snapshot.
    pub fn install_plan(&mut self, latest: u64, plan: ScanPlan<S>) -> (r: bool)
        ensures
            final(self).table == old(self).table,
            final(self).config == old(self).config,
            final(self).snapshot == old(self).snapshot,
            final(self).tiny_table_cache == old(self).tiny_table_cache,
            final(self).refreshes == old(self).refreshes,
            r == (old(self).snapshot.pinned_sequence == latest),
            if r {
                final(self).current_plan() == Some(plan@)
            } else {
                final(self).scan_cache == old(self).scan_cache
            },
    {
        if self.snapshot.pinned_sequence == latest {
            self.scan_cache = Some((latest, plan));
            true
        } else {
            false
        }
    }

    /// Whether `r` is how a committed delta is taken over.
    pub open spec fn steps_by(self, delta: CommitDelta<S>, r: Result<DeltaStep>) -> bool {
        match r {
            Ok(DeltaStep::Noop) => delta.noop,
            Ok(step) => {
                &&& !delta.noop
                &&& delta.previous_sequence == self.snapshot.pinned_sequence
                &&& step is Incremental <==> self.current_plan() is Some
            },
            Err(e) => {
                &&& !delta.noop
                &&& delta.previous_sequence != self.snapshot.pinned_sequence
                &&& e.says(
                    stale_delta_message(
                        self.snapshot.pinned_sequence,
                        delta.previous_sequence,
                    ),
                )
            },
        }
    }

    /// Decides how a committed delta is taken over. A delta that does not start
    /// from the pinned sequence is refused.
    pub fn delta_step(&self, delta: &CommitDelta<S>) -> (r: Result<DeltaStep>)
        ensures
            self.steps_by(*delta, r),
    {
        if delta.noop {
            return Ok(DeltaStep::Noop);
        }
        let pinned: u64 = self.snapshot.pinned_sequence;
        if pinned != delta.previous_sequence {
            let mut message: String = "provider pinned to sequence ".to_owned();
            let at = decimal_text(pinned);
            message.append(at.as_str());
            message.append(" but delta starts from ");
            let from = decimal_text(delta.previous_sequence);
            message.append(from.as_str());
            message.append("; refresh stale");
            return Err(other(message.as_str()));
        }
        if self.cached_plan().is_some() {
            Ok(DeltaStep::Incremental)
        } else {
            Ok(DeltaStep::Invalidate)
        }
    }

    /// The plan after a delta: the row groups that it keeps, changed as it
    /// changed them, and those that it adds. `new_schema` is the schema after
    /// the commit, where the commit changed it.
    pub fn plan_after(&self, delta: &CommitDelta<S>, new_schema: &Option<TableSchema>) -> (r:
        ScanPlan<S>)
        requires
            self.current_plan() is Some,
        ensures
            r@ == plan_after_delta(
                self.table@,
                self.current_plan()->0,
                *delta,
                *new_schema,
            ),
    {
        match &self.scan_cache {
            Some((_, base)) => {
                let row_groups = apply_delta_to_groups(
                    self.table.as_str(),
                    &base.row_groups,
                    delta,
                );
                let schema = match new_schema {
                    Some(schema) => schema.copied(),
                    None => base.schema.copied(),
                };
                ScanPlan { table: self.table.clone(), schema, row_groups }
            },
            None => ScanPlan {
                table: self.table.clone(),
                schema: self.snapshot.scan_plan.schema.copied(),
                row_groups: Vec::new(),
            },
        }
    }

    /// Takes over a delta, with the plan after it and what was loaded along
    /// with it.
    pub fn install_delta(
        &mut self,
        delta: &CommitDelta<S>,
        plan: ScanPlan<S>,
        new_schema: &Option<TableSchema>,
        derived: Arc<D>,
    )
        requires
            old(self).well_formed(),
        ensures
            final(self).well_formed(),
            final(self).table == old(self).table,
            final(self).config == old(self).config,
            final(self).snapshot.data_schema == schema_after(old(self).snapshot, *new_schema),
            final(self).snapshot.scan_plan@ == plan@,
            final(self).snapshot.derived == derived,
            final(self).snapshot.pinned_sequence == delta.new_sequence,
            final(self).current_plan() == Some(plan@),
            final(self).tiny_table_cache is None,
            final(self).refreshes == next_count(old(self).refreshes),
    {
        self.set_schema(new_schema);
        self.snapshot.scan_plan = plan.copied();
        self.snapshot.derived = derived;
        self.snapshot.pinned_sequence = delta.new_sequence;
        self.scan_cache = Some((delta.new_sequence, plan));
        self.forget_table();
    }

    /// Takes over a delta without a plan: the next query loads it.
    pub fn invalidate_to_committed_delta(
        &mut self,
        delta: &CommitDelta<S>,
        new_schema: &Option<TableSchema>,
        derived: Arc<D>,
    )
        requires
            old(self).well_formed(),
        ensures
            final(self).well_formed(),
            final(self).table == old(self).table,
            final(self).config == old(self).config,
            final(self).snapshot.data_schema == schema_after(old(self).snapshot, *new_schema),
            final(self).snapshot.scan_plan@ == (PlanView::<S> {
                table: old(self).table@,
                schema: match new_schema {
                    Some(schema) => *schema,
                    None => old(self).snapshot.scan_plan.schema,
                },
                row_groups: seq![],
            }),
            final(self).snapshot.derived == derived,
            final(self).snapshot.pinned_sequence == delta.new_sequence,
            final(self).scan_cache is None,
            final(self).tiny_table_cache is None,
            final(self).refreshes == next_count(old(self).refreshes),
    {
        let schema = match new_schema {
            Some(schema) => schema.copied(),
            None => self.snapshot.scan_plan.schema.copied(),
        };
        self.set_schema(new_schema);
        self.snapshot.scan_plan = ScanPlan::empty(self.table.as_str(), &schema);
        self.snapshot.derived = derived;
        self.snapshot.pinned_sequence = delta.new_sequence;
        self.scan_cache = None;
        self.forget_table();
    }

    /// Takes over the snapshot of another provider, with its loaded plan.
    pub fn replace_snapshot_from(&mut self, source: &SnapshotState<S, D>, plan: ScanPlan<S>)
        requires
            source.well_formed(),
        ensures
            final(self).well_formed(),
            final(self).table == old(self).table,
            final(self).config == old(self).config,
            final(self).snapshot.data_schema == source.data_schema,
            final(self).snapshot.full_schema == source.full_schema,
            final(self).snapshot.scan_plan@ == plan@,
            final(self).snapshot.derived == source.derived,
            final(self).snapshot.pinned_sequence == source.pinned_sequence,
            final(self).current_plan() == Some(plan@),
            final(self).tiny_table_cache is None,
            final(self).refreshes == next_count(old(self).refreshes),
    {
        self.snapshot = SnapshotState {
            data_schema: Arc::clone(&source.data_schema),
            full_schema: Arc::clone(&source.full_schema),
            scan_plan: plan.copied(),
            derived: Arc::clone(&source.derived),
            pinned_sequence: source.pinned_sequence,
        };
        self.scan_cache = Some((source.pinned_sequence, plan));
        self.forget_table();
    }

    fn set_schema(&mut self, new_schema: &Option<TableSchema>)
        requires
            old(self).well_formed(),
        ensures
            final(self).well_formed(),
            final(self).table == old(self).table,
            final(self).config == old(self).config,
            final(self).snapshot.data_schema == schema_after(old(self).snapshot, *new_schema),
            final(self).snapshot.scan_plan == old(self).snapshot.scan_plan,
            final(self).snapshot.derived == old(self).snapshot.derived,
            final(self).snapshot.pinned_sequence == old(self).snapshot.pinned_sequence,
            final(self).scan_cache == old(self).scan_cache,
            final(self).tiny_table_cache == old(self).tiny_table_cache,
            final(self).refreshes == old(self).refreshes,
    {
        match new_schema {
            Some(schema) => {
                let full = make_full_schema(&schema.columns);
                self.snapshot.data_schema = Arc::clone(&schema.columns);
                self.snapshot.full_schema = Arc::new(full);
            },
            None => {},
        }
    }

    fn forget_table(&mut self)
        ensures
            final(self).table == old(self).table,
            final(self).config == old(self).config,
            final(self).snapshot == old(self).snapshot,
            final(self).scan_cache == old(self).scan_cache,
            final(self).tiny_table_cache is None,
            final(self).refreshes == next_count(old(self).refreshes),
    {
        self.tiny_table_cache = None;
        self.refreshes = if self.refreshes == u64::MAX {
            0
        } else {
            self.refreshes + 1
        };
    }
}

/// The data columns after a commit.
pub open spec fn schema_after<S, D>(
    before: SnapshotState<S, D>,
    new_schema: Option<TableSchema>,
) -> Arc<Schema> {
    match new_schema {
        Some(schema) => schema.columns,
        None => before.data_schema,
    }
}

/// The count after one more refresh; it starts anew past the largest number.
pub open spec fn next_count(n: u64) -> u64 {
    if n == u64::MAX {
        0
    } else {
        (n + 1) as u64
    }
}

/// The plan of a table after a commit.
pub open spec fn plan_after_delta<S>(
    table: Seq<char>,
    base: PlanView<S>,
    delta: CommitDelta<S>,
    new_schema: Option<TableSchema>,
) -> PlanView<S> {
    PlanView {
        table,
        schema: match new_schema {
            Some(schema) => schema,
            None => base.schema,
        },
        row_groups: groups_after(table, base.row_groups, delta),
    }
}

/// How often loading a plan is tried before it is loaded for one query only.
pub const MAX_PLAN_LOADS: usize = 16;

/// What to do for the plan of a query.
#[derive(Debug, Clone, Copy, PartialEq, Eq, Structural)]
pub enum PlanStep {
    /// The loaded plan is current.
    UseCached,
    /// Load the plan, pin the provider where the manifest has moved on, and
    /// keep the plan.
    Load,
    /// The snapshot keeps moving: load the plan for this query only.
    LoadUncached,
}

/// Getting the plan of a query.
pub struct PlanLoad {
    pub attempts: usize,
    /// Where the provider was pinned when the last attempt began.
    pub pinned: u64,
}

impl PlanLoad {
    pub open spec fn well_formed(self) -> bool {
        self.attempts <= MAX_PLAN_LOADS
    }

    pub fn new() -> (r: PlanLoad)
        ensures
            r.well_formed(),
            r.attempts == 0,
    {
        PlanLoad { attempts: 0, pinned: 0 }
    }

    /// Begins the next attempt.
    pub fn next<S, D, T>(&mut self, provider: &IcefallDBTableProvider<S, D, T>) -> (r: PlanStep)
        requires
            old(self).well_formed(),
        ensures
            final(self).well_formed(),
            if old(self).attempts < MAX_PLAN_LOADS {
                &&& final(self).attempts == old(self).attempts + 1
                &&& final(self).pinned == provider.snapshot.pinned_sequence
                &&& r == if provider.current_plan() is Some {
                    PlanStep::UseCached
                } else {
                    PlanStep::Load
                }
            } else {
                *final(self) == *old(self) && r is LoadUncached
            },
    {
        if self.attempts >= MAX_PLAN_LOADS {
            return PlanStep::LoadUncached;
        }
        self.attempts = self.attempts + 1;
        self.pinned = provider.snapshot.pinned_sequence;
        if provider.cached_plan().is_some() {
            PlanStep::UseCached
        } else {
            PlanStep::Load
        }
    }

    /// Whether the manifest has moved since the attempt began, so that the
    /// provider has to be pinned anew before the plan is kept.
    pub fn must_repin(&self, latest: u64) -> (r: bool)
        ensures
            r == (latest != self.pinned),
    {
        latest != self.pinned
    }
}

/// A loaded plan is used for the sequence that it was loaded at and for no other:
/// a provider that is pinned elsewhere, with the same plan at hand, has none.
pub proof fn plans_are_for_their_sequence<S, D, T>(
    a: IcefallDBTableProvider<S, D, T>,
    b: IcefallDBTableProvider<S, D, T>,
)
    requires
        a.scan_cache == b.scan_cache,
        a.snapshot.pinned_sequence != b.snapshot.pinned_sequence,
    ensures
        a.current_plan() is None || b.current_plan() is None,
        a.scan_cache is None ==> a.current_plan() is None,
        a.scan_cache matches Some((sequence, plan)) ==> (sequence == a.snapshot.pinned_sequence
            ==> a.current_plan() == Some(plan@)),
{
}

/// A commit leaves a plan the table that it is of. Its schema is the new one where
/// the commit changed it, and its row groups are those of the fragments that were
/// not removed, in their order, followed by the added ones.
pub proof fn commits_keep_the_other_fragments<S>(
    table: Seq<char>,
    base: PlanView<S>,
    delta: CommitDelta<S>,
    new_schema: Option<TableSchema>,
    k: int,
)
    ensures
        ({
            let after = plan_after_delta(table, base, delta, new_schema);
            let added = delta.added_row_groups@;
            let kept = after.row_groups.len() - added.len();
            &&& after.table == table
            &&& new_schema matches Some(schema) ==> after.schema == schema
            &&& new_schema is None ==> after.schema == base.schema
            &&& 0 <= kept <= base.row_groups.len()
            &&& 0 <= k < added.len() ==> after.row_groups[kept + k] == added[k]@
            &&& 0 <= k < kept ==> !delta.removed_fragment_ids@.contains(
                after.row_groups[k].fragment_id,
            )
        }),
{
    let removed = delta.removed_fragment_ids@;
    let updates = delta.updated_fragments@;
    let kept = kept_groups(table, base.row_groups, removed, updates);
    kept_groups_are_no_more(table, base.row_groups, removed, updates);
    if 0 <= k < kept.len() {
        kept_groups_are_former_ones(table, base.row_groups, removed, updates, k);
    }
}

/// The count of refreshes goes up by one.
pub proof fn refreshes_are_counted(n: u64)
    ensures
        n < u64::MAX ==> next_count(n) == n + 1,
        n == u64::MAX ==> next_count(n) == 0,
{
}

/// A delta is taken over only where it starts from the sequence that the provider
/// is pinned to, and by changing a plan only where that is of this sequence. A delta
/// that changes nothing is never refused.
pub proof fn deltas_start_from_the_pinned_sequence<S, D, T>(
    provider: IcefallDBTableProvider<S, D, T>,
    delta: CommitDelta<S>,
    r: Result<DeltaStep>,
)
    requires
        provider.steps_by(delta, r),
    ensures
        delta.noop <==> (r matches Ok(DeltaStep::Noop)),
        r is Err <==> !delta.noop && delta.previous_sequence != provider.snapshot.pinned_sequence,
        r matches Ok(DeltaStep::Incremental) ==> (provider.scan_cache matches Some((sequence, _))
            && sequence == delta.previous_sequence),
        r matches Ok(DeltaStep::Invalidate) ==> (provider.scan_cache matches Some((sequence, _))
            ==> sequence != delta.previous_sequence),
{
}

/// A commit that changes the schema gives a snapshot the new columns, and any other
/// leaves the columns as they were.
pub proof fn commits_keep_the_columns<S, D>(
    before: SnapshotState<S, D>,
    new_schema: Option<TableSchema>,
)
    ensures
        new_schema matches Some(schema) ==> schema_after(before, new_schema) == schema.columns,
        new_schema is None ==> schema_after(before, new_schema) == before.data_schema,
{
}

/// The message names the sequence that the provider is pinned to first, then the one
/// that the delta starts from.
pub proof fn messages_name_both_sequences(pinned: u64, previous: u64)
    ensures
        exists|a: Seq<char>, b: Seq<char>|
            {
                &&& is_numeral(a) && numeral(a) == pinned
                &&& is_numeral(b) && numeral(b) == previous
                &&& stale_delta_message(pinned, previous) == #[trigger] (
                "provider pinned to sequence "@ + a + " but delta starts from "@ + b
                    + "; refresh stale"@)
            },
{
    decimal_writes_the_number(pinned as nat);
    decimal_writes_the_number(previous as nat);
    let a = decimal(pinned as nat);
    let b = decimal(previous as nat);
    assert(stale_delta_message(pinned, previous) == "provider pinned to sequence "@ + a
        + " but delta starts from "@ + b + "; refresh stale"@);
}

} // verus!
