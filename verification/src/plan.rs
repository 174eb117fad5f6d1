//! Scan plans: the row groups of a table at a snapshot, and how a commit
//! changes them.
pub mod reload;

use std::sync::Arc;

use vstd::prelude::*;
use vstd::string::*;

use crate::scalar::{text_view, DataType, Field, Schema};
use crate::storage::RowIdSegment;

verus! {

/// What is known of the rows of a fragment. `S` holds the statistics, which
/// only pruning reads.
pub struct RowGroupMeta<S> {
    pub rows: usize,
    pub row_ids: Vec<RowIdSegment>,
    pub stats: S,
}

/// A row group that a scan reads.
pub struct PlannedRowGroup<S> {
    pub fragment_id: u64,
    /// The file that holds the rows.
    pub data_path: String,
    /// The manifest sequence that the plan was made at.
    pub snapshot: u64,
    pub meta: Arc<RowGroupMeta<S>>,
    /// The path of the deletion vector, if there is one.
    pub deletes: Option<String>,
    /// How many rows the deletion vector covers.
    pub deleted_count: u64,
}

pub ghost struct RowGroupView<S> {
    pub fragment_id: u64,
    pub data_path: Seq<char>,
    pub snapshot: u64,
    pub meta: Arc<RowGroupMeta<S>>,
    pub deletes: Option<Seq<char>>,
    pub deleted_count: u64,
}

impl<S> View for PlannedRowGroup<S> {
    type V = RowGroupView<S>;

    open spec fn view(&self) -> RowGroupView<S> {
        RowGroupView {
            fragment_id: self.fragment_id,
            data_path: self.data_path@,
            snapshot: self.snapshot,
            meta: self.meta,
            deletes: text_view(self.deletes),
            deleted_count: self.deleted_count,
        }
    }
}

impl<S> PlannedRowGroup<S> {
    pub fn copied(&self) -> (r: PlannedRowGroup<S>)
        ensures
            r@ == self@,
    {
        PlannedRowGroup {
            fragment_id: self.fragment_id,
            data_path: self.data_path.clone(),
            snapshot: self.snapshot,
            meta: Arc::clone(&self.meta),
            deletes: match &self.deletes {
                Some(path) => Some(path.clone()),
                None => None,
            },
            deleted_count: self.deleted_count,
        }
    }
}

/// The views of a sequence of row groups.
pub open spec fn group_views<S>(groups: Seq<PlannedRowGroup<S>>) -> Seq<RowGroupView<S>> {
    groups.map_values(|g: PlannedRowGroup<S>| g@)
}

pub fn copied_groups<S>(groups: &Vec<PlannedRowGroup<S>>) -> (r: Vec<PlannedRowGroup<S>>)
    ensures
        group_views(r@) == group_views(groups@),
{
    let mut out: Vec<PlannedRowGroup<S>> = Vec::new();
    let mut i: usize = 0;
    while i < groups.len()
        invariant
            i <= groups@.len(),
            out@.len() == i,
            forall|k: int| 0 <= k < i ==> (#[trigger] out@[k])@ == groups@[k]@,
        decreases groups@.len() - i,
    {
        out.push(groups[i].copied());
        i = i + 1;
    }
    assert(group_views(out@) =~= group_views(groups@));
    out
}

/// The schema of a table, as it is stored: its columns, and what else was
/// declared of it.
pub struct TableSchema {
    pub columns: Arc<Schema>,
    /// The columns that the table is partitioned by.
    pub partition_by: Option<Arc<Vec<String>>>,
    /// The columns that the table is declared to be grouped by.
    pub agg_group_keys: Option<Arc<Vec<String>>>,
}

impl TableSchema {
    pub fn copied(&self) -> (r: TableSchema)
        ensures
            r == *self,
    {
        TableSchema {
            columns: Arc::clone(&self.columns),
            partition_by: match &self.partition_by {
                Some(names) => Some(Arc::clone(names)),
                None => None,
            },
            agg_group_keys: match &self.agg_group_keys {
                Some(names) => Some(Arc::clone(names)),
                None => None,
            },
        }
    }
}

/// The row groups of a table at a snapshot.
pub struct ScanPlan<S> {
    pub table: String,
    pub schema: TableSchema,
    pub row_groups: Vec<PlannedRowGroup<S>>,
}

pub ghost struct PlanView<S> {
    pub table: Seq<char>,
    pub schema: TableSchema,
    pub row_groups: Seq<RowGroupView<S>>,
}

impl<S> View for ScanPlan<S> {
    type V = PlanView<S>;

    open spec fn view(&self) -> PlanView<S> {
        PlanView {
            table: self.table@,
            schema: self.schema,
            row_groups: group_views(self.row_groups@),
        }
    }
}

impl<S> ScanPlan<S> {
    /// The plan of a table without row groups.
    pub fn empty(table: &str, schema: &TableSchema) -> (r: ScanPlan<S>)
        ensures
            r@ == (PlanView::<S> { table: table@, schema: *schema, row_groups: seq![] }),
    {
        let r = ScanPlan {
            table: table.to_owned(),
            schema: schema.copied(),
            row_groups: Vec::new(),
        };
        assert(group_views(r.row_groups@) =~= seq![]);
        r
    }

    pub fn copied(&self) -> (r: ScanPlan<S>)
        ensures
            r@ == self@,
    {
        ScanPlan {
            table: self.table.clone(),
            schema: self.schema.copied(),
            row_groups: copied_groups(&self.row_groups),
        }
    }
}

/// What a commit changed in one fragment: its deletion vector.
pub struct FragmentDelta {
    pub fragment_id: u64,
    /// The new deletion vector, relative to the table.
    pub new_deletes: Option<String>,
    pub new_deleted_count: u64,
}

/// What a commit changed.
pub struct CommitDelta<S> {
    pub previous_sequence: u64,
    pub new_sequence: u64,
    /// Whether nothing changed.
    pub noop: bool,
    pub removed_fragment_ids: Vec<u64>,
    pub updated_fragments: Vec<FragmentDelta>,
    pub added_row_groups: Vec<PlannedRowGroup<S>>,
    /// Whether the table has a new schema.
    pub schema_changed: bool,
}

/// The change of a fragment: the last one that is listed for it.
pub open spec fn update_of(updates: Seq<FragmentDelta>, fragment_id: u64) -> Option<int>
    decreases updates.len(),
{
    if updates.len() == 0 {
        None
    } else if updates.last().fragment_id == fragment_id {
        Some(updates.len() - 1)
    } else {
        update_of(updates.drop_last(), fragment_id)
    }
}

proof fn update_of_bounds(updates: Seq<FragmentDelta>, fragment_id: u64)
    ensures
        update_of(updates, fragment_id) matches Some(i) ==> 0 <= i < updates.len()
            && updates[i].fragment_id == fragment_id,
    decreases updates.len(),
{
    if updates.len() > 0 && updates.last().fragment_id != fragment_id {
        update_of_bounds(updates.drop_last(), fragment_id);
    }
}

fn find_update(updates: &Vec<FragmentDelta>, fragment_id: u64) -> (r: Option<usize>)
    ensures
        match update_of(updates@, fragment_id) {
            Some(i) => r matches Some(k) && k == i && k < updates@.len(),
            None => r is None,
        },
{
    proof {
        update_of_bounds(updates@, fragment_id);
    }
    let mut i: usize = updates.len();
    assert(updates@.take(i as int) =~= updates@);
    while i > 0
        invariant
            i <= updates@.len(),
            update_of(updates@, fragment_id) == update_of(updates@.take(i as int), fragment_id),
        decreases i,
    {
        assert(updates@.take(i as int).drop_last() =~= updates@.take(i - 1));
        i = i - 1;
        if updates[i].fragment_id == fragment_id {
            return Some(i);
        }
    }
    None
}

/// The path of a file of a table.
pub open spec fn table_path(table: Seq<char>, path: Seq<char>) -> Seq<char> {
    table + "/"@ + path
}

pub fn path_in_table(table: &str, path: &str) -> (r: String)
    ensures
        r@ == table_path(table@, path@),
{
    let mut out: String = table.to_owned();
    out.append("/");
    out.append(path);
    out
}

/// A row group after a commit changed its fragment: it has the new deletion
/// vector, and is else as it was.
pub open spec fn updated_group<S>(
    table: Seq<char>,
    group: RowGroupView<S>,
    updates: Seq<FragmentDelta>,
) -> RowGroupView<S> {
    match update_of(updates, group.fragment_id) {
        Some(i) => RowGroupView {
            deletes: match text_view(updates[i].new_deletes) {
                Some(path) => Some(table_path(table, path)),
                None => None,
            },
            deleted_count: updates[i].new_deleted_count,
            ..group
        },
        None => group,
    }
}

/// The row groups of `base` that a commit keeps, changed as it changed them.
pub open spec fn kept_groups<S>(
    table: Seq<char>,
    base: Seq<RowGroupView<S>>,
    removed: Seq<u64>,
    updates: Seq<FragmentDelta>,
) -> Seq<RowGroupView<S>>
    decreases base.len(),
{
    if base.len() == 0 {
        seq![]
    } else {
        let front = kept_groups(table, base.drop_last(), removed, updates);
        if removed.contains(base.last().fragment_id) {
            front
        } else {
            front.push(updated_group(table, base.last(), updates))
        }
    }
}

/// The row groups of a table after a commit: those that it keeps, then those
/// that it adds.
pub open spec fn groups_after<S>(
    table: Seq<char>,
    base: Seq<RowGroupView<S>>,
    delta: CommitDelta<S>,
) -> Seq<RowGroupView<S>> {
    kept_groups(table, base, delta.removed_fragment_ids@, delta.updated_fragments@) + group_views(
        delta.added_row_groups@,
    )
}

fn contains_id(ids: &Vec<u64>, id: u64) -> (r: bool)
    ensures
        r == ids@.contains(id),
{
    let mut i: usize = 0;
    while i < ids.len()
        invariant
            i <= ids@.len(),
            forall|k: int| 0 <= k < i ==> ids@[k] != id,
        decreases ids@.len() - i,
    {
        if ids[i] == id {
            return true;
        }
        i = i + 1;
    }
    false
}

/// Applies a commit to the row groups of a plan, without reading anything.
pub fn apply_delta_to_groups<S>(
    table: &str,
    base: &Vec<PlannedRowGroup<S>>,
    delta: &CommitDelta<S>,
) -> (r: Vec<PlannedRowGroup<S>>)
    ensures
        group_views(r@) == groups_after(table@, group_views(base@), *delta),
{
    let ghost all = group_views(base@);
    let ghost removed = delta.removed_fragment_ids@;
    let ghost updates = delta.updated_fragments@;
    let mut out: Vec<PlannedRowGroup<S>> = Vec::new();
    let mut i: usize = 0;
    assert(all.take(0) =~= seq![]);
    assert(group_views(out@) =~= seq![]);
    while i < base.len()
        invariant
            i <= base@.len(),
            all == group_views(base@),
            all.len() == base@.len(),
            removed == delta.removed_fragment_ids@,
            updates == delta.updated_fragments@,
            group_views(out@) == kept_groups(table@, all.take(i as int), removed, updates),
        decreases base@.len() - i,
    {
        assert(all.take(i as int + 1).drop_last() =~= all.take(i as int));
        assert(all.take(i as int + 1).last() == base@[i as int]@);
        let ghost before = group_views(out@);
        let group = &base[i];
        if !contains_id(&delta.removed_fragment_ids, group.fragment_id) {
            let mut kept = group.copied();
            match find_update(&delta.updated_fragments, group.fragment_id) {
                Some(u) => {
                    let update = &delta.updated_fragments[u];
                    kept.deletes = match &update.new_deletes {
                        Some(path) => Some(path_in_table(table, path.as_str())),
                        None => None,
                    };
                    kept.deleted_count = update.new_deleted_count;
                },
                None => {},
            }
            assert(kept@ == updated_group(table@, base@[i as int]@, updates));
            out.push(kept);
            assert(group_views(out@) =~= before.push(kept@));
        }
        i = i + 1;
    }
    assert(all.take(i as int) =~= all);
    let ghost kept = group_views(out@);
    let mut added = copied_groups(&delta.added_row_groups);
    let ghost more = group_views(added@);
    out.append(&mut added);
    assert(group_views(out@) =~= kept + more);
    out
}

/// What a commit leaves of a table: no row group of a removed fragment is
/// kept, and every kept one is a former one, changed only in its deletion
/// vector.
pub proof fn kept_groups_are_former_ones<S>(
    table: Seq<char>,
    base: Seq<RowGroupView<S>>,
    removed: Seq<u64>,
    updates: Seq<FragmentDelta>,
    k: int,
)
    requires
        0 <= k < kept_groups(table, base, removed, updates).len(),
    ensures
        !removed.contains(kept_groups(table, base, removed, updates)[k].fragment_id),
        exists|i: int|
            0 <= i < base.len() && kept_groups(table, base, removed, updates)[k] == updated_group(
                table,
                #[trigger] base[i],
                updates,
            ),
    decreases base.len(),
{
    let front = base.drop_last();
    let kept = kept_groups(table, front, removed, updates);
    if k < kept.len() {
        kept_groups_are_former_ones(table, front, removed, updates, k);
        let i = choose|i: int|
            0 <= i < front.len() && kept[k] == updated_group(table, #[trigger] front[i], updates);
        assert(base[i] == front[i]);
    } else {
        assert(base[base.len() - 1] == base.last());
    }
}

/// A commit loses no row group: each one of a fragment that is not removed is
/// kept, and one of a fragment that is not changed is kept as it is.
pub proof fn other_groups_stay<S>(
    table: Seq<char>,
    base: Seq<RowGroupView<S>>,
    removed: Seq<u64>,
    updates: Seq<FragmentDelta>,
    i: int,
)
    requires
        0 <= i < base.len(),
        !removed.contains(base[i].fragment_id),
    ensures
        kept_groups(table, base, removed, updates).contains(
            updated_group(table, base[i], updates),
        ),
        update_of(updates, base[i].fragment_id) is None ==> updated_group(table, base[i], updates)
            == base[i],
    decreases base.len(),
{
    let front = base.drop_last();
    let kept = kept_groups(table, front, removed, updates);
    let all = kept_groups(table, base, removed, updates);
    let group = updated_group(table, base[i], updates);
    if i < front.len() {
        assert(front[i] == base[i]);
        other_groups_stay(table, front, removed, updates, i);
        let k = kept.index_of(group);
        assert(all[k] == group);
    } else {
        assert(all[kept.len() as int] == group);
    }
}

/// The fragments of a sequence of row groups.
pub open spec fn fragments<S>(groups: Seq<RowGroupView<S>>) -> Seq<u64> {
    groups.map_values(|g: RowGroupView<S>| g.fragment_id)
}

proof fn kept_fragments_stay_distinct<S>(
    table: Seq<char>,
    base: Seq<RowGroupView<S>>,
    removed: Seq<u64>,
    updates: Seq<FragmentDelta>,
)
    requires
        fragments(base).no_duplicates(),
    ensures
        fragments(kept_groups(table, base, removed, updates)).no_duplicates(),
        forall|f: u64| #[trigger]
            fragments(kept_groups(table, base, removed, updates)).contains(f) <==> fragments(
                base,
            ).contains(f) && !removed.contains(f),
    decreases base.len(),
{
    let kept = kept_groups(table, base, removed, updates);
    if base.len() > 0 {
        let front = base.drop_last();
        let front_kept = kept_groups(table, front, removed, updates);
        let last = base.last().fragment_id;
        assert(fragments(front) =~= fragments(base).drop_last());
        assert(fragments(base) =~= fragments(front).push(last));
        assert(fragments(base)[base.len() - 1] == last);
        assert(!fragments(front).contains(last)) by {
            if fragments(front).contains(last) {
                let k = fragments(front).index_of(last);
                assert(fragments(base)[k] == last);
            }
        }
        kept_fragments_stay_distinct(table, front, removed, updates);
        if !removed.contains(last) {
            assert(fragments(kept) =~= fragments(front_kept).push(last));
            let ids = fragments(kept);
            assert forall|i: int, j: int| 0 <= i < j < ids.len() implies ids[i] != ids[j] by {
                if j == front_kept.len() {
                    assert(fragments(front_kept).contains(fragments(front_kept)[i]));
                } else {
                    assert(fragments(front_kept)[i] != fragments(front_kept)[j]);
                }
            }
        }
        assert forall|f: u64| #[trigger] fragments(kept).contains(f) <==> fragments(base).contains(
            f,
        ) && !removed.contains(f) by {
            if fragments(front).contains(f) {
                assert(fragments(base)[fragments(front).index_of(f)] == f);
            }
            if fragments(base).contains(f) && f != last {
                assert(fragments(front)[fragments(base).index_of(f)] == f);
            }
            if fragments(front_kept).contains(f) {
                assert(fragments(kept)[fragments(front_kept).index_of(f)] == f);
            }
            if !removed.contains(last) {
                assert(fragments(kept)[front_kept.len() as int] == last);
                if fragments(kept).contains(f) && f != last {
                    assert(fragments(front_kept)[fragments(kept).index_of(f)] == f);
                }
            }
        }
    } else {
        assert(fragments(kept) =~= seq![]);
    }
}

/// After a commit each fragment is still planned once, where the commit adds
/// only fragments that the table does not keep: the fragments are those that
/// it had and that were not removed, and those that were added.
pub proof fn fragments_stay_distinct<S>(
    table: Seq<char>,
    base: Seq<RowGroupView<S>>,
    delta: CommitDelta<S>,
)
    requires
        fragments(base).no_duplicates(),
        fragments(group_views(delta.added_row_groups@)).no_duplicates(),
        forall|f: u64| #[trigger]
            fragments(group_views(delta.added_row_groups@)).contains(f) ==> !fragments(
                base,
            ).contains(f) || delta.removed_fragment_ids@.contains(f),
    ensures
        fragments(groups_after(table, base, delta)).no_duplicates(),
        forall|f: u64| #[trigger]
            fragments(groups_after(table, base, delta)).contains(f) <==> (fragments(base).contains(
                f,
            ) && !delta.removed_fragment_ids@.contains(f)) || fragments(
                group_views(delta.added_row_groups@),
            ).contains(f),
{
    let removed = delta.removed_fragment_ids@;
    let kept = kept_groups(table, base, removed, delta.updated_fragments@);
    let added = group_views(delta.added_row_groups@);
    kept_fragments_stay_distinct(table, base, removed, delta.updated_fragments@);
    let a = fragments(kept);
    let b = fragments(added);
    let all = fragments(groups_after(table, base, delta));
    assert(all =~= a + b);
    assert forall|i: int, j: int| 0 <= i < j < all.len() implies all[i] != all[j] by {
        if i < a.len() && j >= a.len() {
            assert(a.contains(a[i]));
            assert(b.contains(b[j - a.len()]));
        }
    }
    assert forall|f: u64| #[trigger] all.contains(f) <==> a.contains(f) || b.contains(f) by {
        if a.contains(f) {
            assert(all[a.index_of(f)] == f);
        }
        if b.contains(f) {
            assert(all[a.len() + b.index_of(f)] == f);
        }
        if all.contains(f) {
            let k = all.index_of(f);
            if k < a.len() {
                assert(a[k] == f);
            } else {
                assert(b[k - a.len()] == f);
            }
        }
    }
}

/// A commit that neither removes, changes nor adds anything leaves the row
/// groups as they are.
pub proof fn empty_delta_changes_nothing<S>(
    table: Seq<char>,
    base: Seq<RowGroupView<S>>,
    delta: CommitDelta<S>,
)
    requires
        delta.removed_fragment_ids@.len() == 0,
        delta.updated_fragments@.len() == 0,
        delta.added_row_groups@.len() == 0,
    ensures
        groups_after(table, base, delta) == base,
    decreases base.len(),
{
    let added = group_views(delta.added_row_groups@);
    if base.len() > 0 {
        empty_delta_changes_nothing(table, base.drop_last(), delta);
        assert(kept_groups(
            table,
            base.drop_last(),
            delta.removed_fragment_ids@,
            delta.updated_fragments@,
        ) + added =~= kept_groups(
            table,
            base.drop_last(),
            delta.removed_fragment_ids@,
            delta.updated_fragments@,
        ));
        assert(base.drop_last().push(base.last()) =~= base);
    }
    assert(groups_after(table, base, delta) =~= base);
}

/// The name of the column that holds the id of a row.
pub const PSEUDO_COL_ROWID: &'static str = "_rowid";

/// The name of the column that holds the address of a row.
pub const PSEUDO_COL_ROWADDR: &'static str = "_rowaddr";

/// Whether `field` is a column of that name, unsigned and never null.
pub open spec fn is_pseudo(field: Field, name: Seq<char>) -> bool {
    field.name@ == name && field.data_type == DataType::UInt64 && !field.nullable
}

/// Whether `full` has the columns of `data`, then the id and the address of
/// the row.
pub open spec fn full_schema_of(data: Schema, full: Schema) -> bool {
    let n = data.fields@.len() as int;
    &&& full.fields@.len() == n + 2
    &&& full.fields@.take(n) == data.fields@
    &&& is_pseudo(full.fields@[n], PSEUDO_COL_ROWID@)
    &&& is_pseudo(full.fields@[n + 1], PSEUDO_COL_ROWADDR@)
}

/// The schema that a table is queried by: its columns, then the id and the
/// address of the row. They come last, so that a data column has the same
/// place in both schemas.
pub fn make_full_schema(data_schema: &Schema) -> (r: Schema)
    ensures
        full_schema_of(*data_schema, r),
{
    let mut full = data_schema.copied();
    full.fields.push(
        Field {
            name: PSEUDO_COL_ROWID.to_owned(),
            data_type: DataType::UInt64,
            nullable: false,
        },
    );
    full.fields.push(
        Field {
            name: PSEUDO_COL_ROWADDR.to_owned(),
            data_type: DataType::UInt64,
            nullable: false,
        },
    );
    assert(full.fields@.take(data_schema.fields@.len() as int) =~= data_schema.fields@);
    full
}

/// A manifest, as far as it counts rows: the rows of each fragment, where it
/// lists them, and the rows that are deleted of each.
pub struct Manifest {
    pub sequence: u64,
    pub row_counts: Option<Vec<usize>>,
    pub deleted_counts: Vec<u64>,
}

/// The sequence of a manifest; 0 for a table without one.
pub fn manifest_sequence(manifest: &Option<Manifest>) -> (r: u64)
    ensures
        r == match manifest {
            Some(m) => m.sequence,
            None => 0,
        },
{
    match manifest {
        Some(m) => m.sequence,
        None => 0,
    }
}

/// The rows of a fragment that are not deleted.
pub open spec fn live_rows(rows: usize, deleted: u64) -> int {
    if deleted <= rows {
        rows - deleted
    } else {
        0
    }
}

/// The rows of the first `n` fragments that are not deleted.
pub open spec fn live_total(rows: Seq<usize>, deleted: Seq<u64>, n: int) -> int
    decreases n,
{
    if n <= 0 {
        0
    } else {
        live_total(rows, deleted, n - 1) + live_rows(rows[n - 1], deleted[n - 1])
    }
}

proof fn live_total_grows(rows: Seq<usize>, deleted: Seq<u64>, k: int, n: int)
    requires
        0 <= k <= n,
    ensures
        0 <= live_total(rows, deleted, k) <= live_total(rows, deleted, n),
    decreases n,
{
    if k < n {
        live_total_grows(rows, deleted, k, n - 1);
    } else if n > 0 {
        live_total_grows(rows, deleted, n - 1, n - 1);
    }
}

impl Manifest {
    /// The live rows of the table, where the manifest counts the rows of every
    /// fragment.
    pub open spec fn live(self) -> Option<int> {
        match self.row_counts {
            Some(counts) => if counts@.len() == self.deleted_counts@.len() {
                Some(live_total(counts@, self.deleted_counts@, counts@.len() as int))
            } else {
                None
            },
            None => None,
        }
    }
}

/// The live rows of the table, from the manifest alone.
pub fn manifest_live_row_count(manifest: &Manifest) -> (r: Option<usize>)
    requires
        manifest.live() matches Some(n) ==> n <= usize::MAX,
    ensures
        match manifest.live() {
            Some(n) => r matches Some(k) && k == n,
            None => r is None,
        },
{
    match &manifest.row_counts {
        Some(counts) => {
            if counts.len() != manifest.deleted_counts.len() {
                return None;
            }
            let mut total: usize = 0;
            let mut i: usize = 0;
            while i < counts.len()
                invariant
                    i <= counts@.len() == manifest.deleted_counts@.len(),
                    total == live_total(counts@, manifest.deleted_counts@, i as int),
                    live_total(counts@, manifest.deleted_counts@, counts@.len() as int)
                        <= usize::MAX,
                decreases counts@.len() - i,
            {
                proof {
                    live_total_grows(
                        counts@,
                        manifest.deleted_counts@,
                        i as int + 1,
                        counts@.len() as int,
                    );
                }
                let deleted: u64 = manifest.deleted_counts[i];
                let live: usize = if deleted <= counts[i] as u64 {
                    counts[i] - deleted as usize
                } else {
                    0
                };
                total = total + live;
                i = i + 1;
            }
            Some(total)
        },
        None => None,
    }
}

/// A row group takes the deletion vector of the last change that is listed for
/// its fragment, as a path within the table, and how many rows it covers.
pub proof fn the_last_change_counts<S>(
    table: Seq<char>,
    group: RowGroupView<S>,
    updates: Seq<FragmentDelta>,
    i: int,
)
    requires
        0 <= i < updates.len(),
        updates[i].fragment_id == group.fragment_id,
        forall|k: int|
            i < k < updates.len() ==> (#[trigger] updates[k]).fragment_id != group.fragment_id,
    ensures
        updated_group(table, group, updates).deleted_count == updates[i].new_deleted_count,
        updates[i].new_deletes is None ==> updated_group(table, group, updates).deletes is None,
        updates[i].new_deletes matches Some(path) ==> updated_group(table, group, updates).deletes
            == Some(table.push('/') + path@),
        ({
            let after = updated_group(table, group, updates);
            &&& after.fragment_id == group.fragment_id
            &&& after.data_path == group.data_path
            &&& after.snapshot == group.snapshot
            &&& after.meta == group.meta
        }),
    decreases updates.len(),
{
    reveal_strlit("/");
    assert("/"@ =~= seq!['/']);
    if updates[i].new_deletes is Some {
        let path = updates[i].new_deletes->0@;
        assert(table_path(table, path) =~= table.push('/') + path);
    }
    let n = updates.len() - 1;
    if i < n {
        let front = updates.drop_last();
        assert(updates[n].fragment_id != group.fragment_id);
        assert forall|k: int| i < k < front.len() implies (#[trigger] front[k]).fragment_id
            != group.fragment_id by {
            assert(front[k] == updates[k]);
        }
        the_last_change_counts(table, group, front, i);
        update_of_bounds(front, group.fragment_id);
    }
}

/// A row group of a fragment for which no change is listed stays as it is.
pub proof fn unchanged_groups_stay<S>(
    table: Seq<char>,
    group: RowGroupView<S>,
    updates: Seq<FragmentDelta>,
)
    requires
        forall|k: int|
            0 <= k < updates.len() ==> (#[trigger] updates[k]).fragment_id != group.fragment_id,
    ensures
        updated_group(table, group, updates) == group,
{
    update_of_bounds(updates, group.fragment_id);
}

/// A commit keeps the order of the row groups, and looks at each one by itself.
pub proof fn kept_groups_keep_their_order<S>(
    table: Seq<char>,
    front: Seq<RowGroupView<S>>,
    back: Seq<RowGroupView<S>>,
    removed: Seq<u64>,
    updates: Seq<FragmentDelta>,
)
    ensures
        kept_groups(table, front + back, removed, updates) == kept_groups(
            table,
            front,
            removed,
            updates,
        ) + kept_groups(table, back, removed, updates),
        back.len() == 1 && removed.contains(back[0].fragment_id) ==> kept_groups(
            table,
            back,
            removed,
            updates,
        ).len() == 0,
        back.len() == 1 && !removed.contains(back[0].fragment_id) ==> kept_groups(
            table,
            back,
            removed,
            updates,
        ) == seq![updated_group(table, back[0], updates)],
    decreases back.len(),
{
    if back.len() == 0 {
        assert(front + back =~= front);
        assert(kept_groups(table, front, removed, updates) + kept_groups(
            table,
            back,
            removed,
            updates,
        ) =~= kept_groups(table, front, removed, updates));
    } else {
        assert((front + back).drop_last() =~= front + back.drop_last());
        kept_groups_keep_their_order(table, front, back.drop_last(), removed, updates);
        assert(kept_groups(table, front + back, removed, updates) =~= kept_groups(
            table,
            front,
            removed,
            updates,
        ) + kept_groups(table, back, removed, updates));
        if back.len() == 1 {
            assert(kept_groups(table, back.drop_last(), removed, updates).len() == 0);
            assert(!removed.contains(back[0].fragment_id) ==> kept_groups(
                table,
                back,
                removed,
                updates,
            ) =~= seq![updated_group(table, back[0], updates)]);
        }
    }
}

/// The sum of a sequence of counts.
pub open spec fn sum_of(counts: Seq<int>) -> int
    decreases counts.len(),
{
    if counts.len() == 0 {
        0
    } else {
        sum_of(counts.drop_last()) + counts.last()
    }
}

proof fn live_and_deleted_up_to(rows: Seq<usize>, deleted: Seq<u64>, n: int)
    requires
        0 <= n <= rows.len() == deleted.len(),
        forall|i: int| 0 <= i < n ==> #[trigger] deleted[i] <= rows[i],
    ensures
        live_total(rows, deleted, n) + sum_of(deleted.take(n).map_values(|d: u64| d as int))
            == sum_of(rows.take(n).map_values(|r: usize| r as int)),
    decreases n,
{
    let a = |d: u64| d as int;
    let b = |r: usize| r as int;
    if n > 0 {
        live_and_deleted_up_to(rows, deleted, n - 1);
        assert(deleted[n - 1] <= rows[n - 1]);
        assert(deleted.take(n).map_values(a).drop_last() =~= deleted.take(n - 1).map_values(a));
        assert(rows.take(n).map_values(b).drop_last() =~= rows.take(n - 1).map_values(b));
    }
}

/// The live rows and the deleted ones are all rows of the table, where no
/// fragment has more rows deleted than it has.
pub proof fn live_and_deleted_rows_are_all_rows(manifest: Manifest)
    requires
        manifest.row_counts matches Some(counts) && counts@.len() == manifest.deleted_counts@.len()
            && forall|i: int|
            0 <= i < counts@.len() ==> #[trigger] manifest.deleted_counts@[i] <= counts@[i],
    ensures
        manifest.live() matches Some(live) && live + sum_of(
            manifest.deleted_counts@.map_values(|d: u64| d as int),
        ) == sum_of(manifest.row_counts->0@.map_values(|r: usize| r as int)),
{
    let rows = manifest.row_counts->0@;
    let deleted = manifest.deleted_counts@;
    live_and_deleted_up_to(rows, deleted, rows.len() as int);
    assert(rows.take(rows.len() as int) =~= rows);
    assert(deleted.take(rows.len() as int) =~= deleted);
}

/// A fragment of which more rows are deleted than it has counts for nothing.
pub proof fn overdeleted_fragments_are_empty(
    rows: Seq<usize>,
    deleted: Seq<u64>,
    r: usize,
    d: u64,
)
    requires
        rows.len() == deleted.len(),
        d >= r,
    ensures
        live_total(rows.push(r), deleted.push(d), rows.len() as int + 1) == live_total(
            rows,
            deleted,
            rows.len() as int,
        ),
{
    live_total_reads_the_front(rows, deleted, rows.push(r), deleted.push(d), rows.len() as int);
}

proof fn live_total_reads_the_front(
    rows: Seq<usize>,
    deleted: Seq<u64>,
    more_rows: Seq<usize>,
    more_deleted: Seq<u64>,
    n: int,
)
    requires
        n <= rows.len() == deleted.len(),
        rows.len() <= more_rows.len(),
        deleted.len() <= more_deleted.len(),
        forall|i: int| 0 <= i < n ==> rows[i] == more_rows[i],
        forall|i: int| 0 <= i < n ==> deleted[i] == more_deleted[i],
    ensures
        live_total(rows, deleted, n) == live_total(more_rows, more_deleted, n),
    decreases n,
{
    if n > 0 {
        live_total_reads_the_front(rows, deleted, more_rows, more_deleted, n - 1);
    }
}

/// A table is queried by its own columns, in their places, and behind them by the
/// id and the address of the row.
pub proof fn rows_have_an_id_and_an_address(data: Schema, full: Schema, c: int)
    requires
        full_schema_of(data, full),
    ensures
        full.fields@.len() == data.fields@.len() + 2,
        0 <= c < data.fields@.len() ==> full.fields@[c] == data.fields@[c],
        ({
            let id = full.fields@[data.fields@.len() as int];
            let address = full.fields@[data.fields@.len() as int + 1];
            &&& id.name@ == "_rowid"@ && id.data_type is UInt64 && !id.nullable
            &&& address.name@ == "_rowaddr"@ && address.data_type is UInt64 && !address.nullable
        }),
{
    if 0 <= c < data.fields@.len() {
        assert(full.fields@.take(data.fields@.len() as int)[c] == data.fields@[c]);
    }
}

pub(crate) proof fn kept_groups_are_no_more<S>(
    table: Seq<char>,
    base: Seq<RowGroupView<S>>,
    removed: Seq<u64>,
    updates: Seq<FragmentDelta>,
)
    ensures
        kept_groups(table, base, removed, updates).len() <= base.len(),
    decreases base.len(),
{
    if base.len() > 0 {
        kept_groups_are_no_more(table, base.drop_last(), removed, updates);
    }
}

/// The row groups are seen as they are, in their order.
pub proof fn groups_keep_what_was_planned<S>(groups: Seq<PlannedRowGroup<S>>, i: int)
    ensures
        group_views(groups).len() == groups.len(),
        0 <= i < groups.len() ==> {
            let seen = group_views(groups)[i];
            &&& seen.fragment_id == groups[i].fragment_id
            &&& seen.data_path == groups[i].data_path@
            &&& seen.snapshot == groups[i].snapshot
            &&& seen.meta == groups[i].meta
            &&& seen.deleted_count == groups[i].deleted_count
            &&& groups[i].deletes is None ==> seen.deletes is None
            &&& groups[i].deletes matches Some(path) ==> seen.deletes == Some(path@)
        },
{
}

/// A manifest tells the live rows exactly where it counts the rows of every fragment.
pub proof fn live_rows_need_every_count(manifest: Manifest)
    ensures
        manifest.live() is Some <==> (manifest.row_counts matches Some(counts) && counts@.len()
            == manifest.deleted_counts@.len()),
{
}

} // verus!
