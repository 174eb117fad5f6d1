//! What a scan returns.
//!
//! A model of the readers: which rows each of them gives, of which columns.
//! Whichever of them serves a scan, the rows are the same.
use vstd::multiset::Multiset;
use vstd::prelude::*;

use super::route::{
    bulk_columns, has_deletions, is_path, memory_snapshot, native_chosen, reaches, wants_pseudo,
    ScanPath, ScanRequest,
};
use super::ProviderConfig;
use crate::expr::Expr;
use crate::parquet_exec::{
    bulk_projection_is_the_referenced_columns, filtered_column, projection_view,
    referenced_columns,
};
use crate::plan::PlannedRowGroup;
use crate::scalar::Schema;

verus! {

/// A row: the value of each column, the id and the address of the row behind
/// the data columns. `V` is the type of values.
pub type Row<V> = spec_fn(usize) -> V;

/// The contents of a table, and what filters make of its rows.
#[verifier::reject_recursive_types(S)]
#[verifier::reject_recursive_types(V)]
pub struct Contents<S, V> {
    /// The rows of a row group, deleted or not.
    pub rows: spec_fn(PlannedRowGroup<S>) -> Seq<Row<V>>,
    /// Whether the deletion vector of a row group lists a row.
    pub deleted: spec_fn(PlannedRowGroup<S>, int) -> bool,
    /// Whether a row satisfies a filter.
    pub accepts: spec_fn(Expr, Row<V>) -> bool,
    /// What stands for a column that was not read.
    pub blank: V,
}

/// Whether a filter reads a data column.
pub open spec fn reads_column(e: Expr, schema: Schema, c: usize) -> bool {
    &&& c < schema.fields@.len()
    &&& schema.position(schema.fields@[c as int].name@) == Some(c as int)
    &&& e.references(schema.fields@[c as int].name@)
}

/// Whether two rows have the same values in the columns that a filter reads.
pub open spec fn agree<V>(e: Expr, schema: Schema, a: Row<V>, b: Row<V>) -> bool {
    forall|c: usize| #[trigger] reads_column(e, schema, c) ==> a(c) == b(c)
}

impl<S, V> Contents<S, V> {
    /// A row group without a deletion vector has no deleted row, and a filter
    /// depends on no other column than those that it reads.
    pub open spec fn well_formed(self, schema: Schema) -> bool {
        &&& forall|g: PlannedRowGroup<S>, i: int|
            g.deletes is None ==> !#[trigger] (self.deleted)(g, i)
        &&& forall|e: Expr, a: Row<V>, b: Row<V>|
            agree(e, schema, a, b) ==> #[trigger] (self.accepts)(e, a) == #[trigger] (self.accepts)(
                e,
                b,
            )
    }

    /// Whether a row satisfies all filters.
    pub open spec fn accepts_all(self, filters: Seq<Expr>, row: Row<V>) -> bool {
        forall|f: int| 0 <= f < filters.len() ==> (self.accepts)(#[trigger] filters[f], row)
    }

    /// A row of which only some columns were read.
    pub open spec fn decoded(self, row: Row<V>, columns: spec_fn(usize) -> bool) -> Row<V> {
        |c: usize|
            if columns(c) {
                row(c)
            } else {
                self.blank
            }
    }
}

/// The projected columns of a row.
pub open spec fn projected<V>(row: Row<V>, projection: Seq<usize>) -> Seq<V> {
    projection.map_values(|c: usize| row(c))
}

/// How a reader goes about it: whether it leaves deleted rows out, and which
/// columns it reads.
pub struct Reader {
    pub leaves_out_deleted: bool,
    pub columns: spec_fn(usize) -> bool,
}

/// The custom scan: it knows the deletion vectors, and has every column.
pub open spec fn custom_reader() -> Reader {
    Reader { leaves_out_deleted: true, columns: |c: usize| true }
}

/// The native reader: it reads the files as they are, of which it has the data
/// columns, or only those that are decoded in bulk.
pub open spec fn native_reader(n_data: int, bulk: Option<Seq<usize>>) -> Reader {
    Reader {
        leaves_out_deleted: false,
        columns: |c: usize|
            c < n_data && match bulk {
                Some(columns) => columns.contains(c),
                None => true,
            },
    }
}

/// A scan of the table in memory, which the custom scan has loaded: without
/// deleted rows, and with the data columns.
pub open spec fn memory_reader(n_data: int) -> Reader {
    Reader { leaves_out_deleted: true, columns: |c: usize| c < n_data }
}

/// What a reader gives of the first `n` rows of a row group.
pub open spec fn read_rows<S, V>(
    contents: Contents<S, V>,
    reader: Reader,
    group: PlannedRowGroup<S>,
    filters: Seq<Expr>,
    projection: Seq<usize>,
    n: int,
) -> Multiset<Seq<V>>
    decreases n,
{
    if n <= 0 {
        Multiset::empty()
    } else {
        let front = read_rows(contents, reader, group, filters, projection, n - 1);
        let row = contents.decoded((contents.rows)(group)[n - 1], reader.columns);
        if reader.leaves_out_deleted && (contents.deleted)(group, n - 1) {
            front
        } else if contents.accepts_all(filters, row) {
            front.insert(projected(row, projection))
        } else {
            front
        }
    }
}

/// What a reader gives of a row group.
pub open spec fn read_group<S, V>(
    contents: Contents<S, V>,
    reader: Reader,
    group: PlannedRowGroup<S>,
    filters: Seq<Expr>,
    projection: Seq<usize>,
) -> Multiset<Seq<V>> {
    read_rows(
        contents,
        reader,
        group,
        filters,
        projection,
        (contents.rows)(group).len() as int,
    )
}

/// What a reader gives of some row groups.
pub open spec fn read_groups<S, V>(
    contents: Contents<S, V>,
    reader: Reader,
    groups: Seq<PlannedRowGroup<S>>,
    filters: Seq<Expr>,
    projection: Seq<usize>,
) -> Multiset<Seq<V>>
    decreases groups.len(),
{
    if groups.len() == 0 {
        Multiset::empty()
    } else {
        read_groups(contents, reader, groups.drop_last(), filters, projection).add(
            read_group(contents, reader, groups.last(), filters, projection),
        )
    }
}

/// The answer to a scan: the live rows of the table that satisfy all filters,
/// projected.
pub open spec fn answer<S, V>(
    contents: Contents<S, V>,
    groups: Seq<PlannedRowGroup<S>>,
    filters: Seq<Expr>,
    projection: Seq<usize>,
) -> Multiset<Seq<V>> {
    read_groups(contents, custom_reader(), groups, filters, projection)
}

/// The row groups that pruning keeps.
pub open spec fn kept<S>(
    groups: Seq<PlannedRowGroup<S>>,
    keep: spec_fn(PlannedRowGroup<S>) -> bool,
) -> Seq<PlannedRowGroup<S>>
    decreases groups.len(),
{
    if groups.len() == 0 {
        seq![]
    } else if keep(groups.last()) {
        kept(groups.drop_last(), keep).push(groups.last())
    } else {
        kept(groups.drop_last(), keep)
    }
}

/// Whether pruning drops only row groups without a live row that satisfies the
/// filters.
pub open spec fn prunes_soundly<S, V>(
    contents: Contents<S, V>,
    groups: Seq<PlannedRowGroup<S>>,
    keep: spec_fn(PlannedRowGroup<S>) -> bool,
    filters: Seq<Expr>,
    projection: Seq<usize>,
) -> bool {
    forall|i: int|
        0 <= i < groups.len() && !keep(#[trigger] groups[i]) ==> read_group(
            contents,
            custom_reader(),
            groups[i],
            filters,
            projection,
        ) == Multiset::<Seq<V>>::empty()
}

proof fn pruning_keeps_the_answer<S, V>(
    contents: Contents<S, V>,
    groups: Seq<PlannedRowGroup<S>>,
    keep: spec_fn(PlannedRowGroup<S>) -> bool,
    filters: Seq<Expr>,
    projection: Seq<usize>,
)
    requires
        prunes_soundly(contents, groups, keep, filters, projection),
    ensures
        answer(contents, kept(groups, keep), filters, projection) == answer(
            contents,
            groups,
            filters,
            projection,
        ),
    decreases groups.len(),
{
    if groups.len() > 0 {
        let front = groups.drop_last();
        let last = groups.last();
        assert forall|i: int| 0 <= i < front.len() && !keep(#[trigger] front[i]) implies read_group(
            contents,
            custom_reader(),
            front[i],
            filters,
            projection,
        ) == Multiset::<Seq<V>>::empty() by {
            assert(front[i] == groups[i]);
        }
        pruning_keeps_the_answer(contents, front, keep, filters, projection);
        if keep(last) {
            assert(kept(groups, keep).drop_last() =~= kept(front, keep));
        } else {
            assert(groups[groups.len() - 1] == last);
            let rest = answer(contents, front, filters, projection);
            assert(rest.add(Multiset::empty()) =~= rest);
        }
    }
}

/// Whether a reader reads every column that the filters read or that is
/// projected.
pub open spec fn reads_enough(
    reader: Reader,
    schema: Schema,
    filters: Seq<Expr>,
    projection: Seq<usize>,
) -> bool {
    &&& forall|f: int, c: usize|
        0 <= f < filters.len() && #[trigger] reads_column(filters[f], schema, c)
            ==> (reader.columns)(c)
    &&& forall|i: int| 0 <= i < projection.len() ==> (reader.columns)(#[trigger] projection[i])
}

proof fn decoded_row_suffices<S, V>(
    contents: Contents<S, V>,
    reader: Reader,
    row: Row<V>,
    schema: Schema,
    filters: Seq<Expr>,
    projection: Seq<usize>,
)
    requires
        contents.well_formed(schema),
        reads_enough(reader, schema, filters, projection),
    ensures
        contents.accepts_all(filters, contents.decoded(row, reader.columns))
            == contents.accepts_all(filters, row),
        projected(contents.decoded(row, reader.columns), projection) == projected(row, projection),
{
    let seen = contents.decoded(row, reader.columns);
    assert forall|f: int| 0 <= f < filters.len() implies (contents.accepts)(
        #[trigger] filters[f],
        seen,
    ) == (contents.accepts)(filters[f], row) by {
        assert(agree(filters[f], schema, seen, row));
    }
    assert(projected(seen, projection) =~= projected(row, projection));
}

proof fn reader_gives_the_rows<S, V>(
    contents: Contents<S, V>,
    reader: Reader,
    group: PlannedRowGroup<S>,
    schema: Schema,
    filters: Seq<Expr>,
    projection: Seq<usize>,
    n: int,
)
    requires
        contents.well_formed(schema),
        reads_enough(reader, schema, filters, projection),
        reader.leaves_out_deleted || group.deletes is None,
    ensures
        read_rows(contents, reader, group, filters, projection, n) == read_rows(
            contents,
            custom_reader(),
            group,
            filters,
            projection,
            n,
        ),
    decreases n,
{
    if n > 0 {
        reader_gives_the_rows(contents, reader, group, schema, filters, projection, n - 1);
        let row = (contents.rows)(group)[n - 1];
        decoded_row_suffices(contents, reader, row, schema, filters, projection);
        decoded_row_suffices(contents, custom_reader(), row, schema, filters, projection);
    }
}

proof fn reader_gives_the_answer<S, V>(
    contents: Contents<S, V>,
    reader: Reader,
    groups: Seq<PlannedRowGroup<S>>,
    schema: Schema,
    filters: Seq<Expr>,
    projection: Seq<usize>,
)
    requires
        contents.well_formed(schema),
        reads_enough(reader, schema, filters, projection),
        reader.leaves_out_deleted || !has_deletions(groups),
    ensures
        read_groups(contents, reader, groups, filters, projection) == answer(
            contents,
            groups,
            filters,
            projection,
        ),
    decreases groups.len(),
{
    if groups.len() > 0 {
        let front = groups.drop_last();
        if !reader.leaves_out_deleted {
            assert(groups[groups.len() - 1].deletes is None);
            assert forall|i: int| 0 <= i < front.len() implies (#[trigger] front[i]).deletes
                is None by {
                assert(groups[i] == front[i]);
            }
        }
        reader_gives_the_answer(contents, reader, front, schema, filters, projection);
        reader_gives_the_rows(
            contents,
            reader,
            groups.last(),
            schema,
            filters,
            projection,
            (contents.rows)(groups.last()).len() as int,
        );
    }
}

/// What serves a scan.
pub enum Served {
    /// The table in memory.
    Memory,
    /// The files of the row groups that are left after pruning.
    Files(ScanPath),
}

/// Whether a scan may be served so. The table in memory is used only where
/// there is a snapshot by which it may be held.
pub open spec fn may_serve<S>(
    request: ScanRequest<S>,
    config: ProviderConfig,
    groups: Seq<PlannedRowGroup<S>>,
    served: Served,
) -> bool {
    match served {
        Served::Memory => memory_snapshot(
            request.encrypted,
            wants_pseudo(
                projection_view(*request.projection),
                request.schema.fields@.len() as int,
            ),
            groups,
            request.plan.row_groups@,
        ) is Some,
        Served::Files(path) => is_path(request, config, path),
    }
}

/// The rows that a scan gives, by what serves it. `groups` are all row groups
/// of the table.
pub open spec fn served_rows<S, V>(
    contents: Contents<S, V>,
    request: ScanRequest<S>,
    groups: Seq<PlannedRowGroup<S>>,
    projection: Seq<usize>,
    served: Served,
) -> Multiset<Seq<V>> {
    let n_data = request.schema.fields@.len() as int;
    let pruned = request.plan.row_groups@;
    match served {
        Served::Memory => read_groups(
            contents,
            memory_reader(n_data),
            groups,
            request.filters@,
            projection,
        ),
        Served::Files(ScanPath::Custom) => read_groups(
            contents,
            custom_reader(),
            pruned,
            request.filters@,
            projection,
        ),
        Served::Files(ScanPath::Native) => read_groups(
            contents,
            native_reader(n_data, None),
            pruned,
            request.filters@,
            projection,
        ),
        Served::Files(ScanPath::NativeBulk(columns)) => read_groups(
            contents,
            native_reader(n_data, Some(columns@)),
            pruned,
            request.filters@,
            projection,
        ),
    }
}

proof fn data_columns_are_enough(
    reader: Reader,
    schema: Schema,
    filters: Seq<Expr>,
    projection: Seq<usize>,
)
    requires
        forall|c: usize| c < schema.fields@.len() ==> #[trigger] (reader.columns)(c),
        !reaches(projection, schema.fields@.len() as int),
    ensures
        reads_enough(reader, schema, filters, projection),
{
    assert forall|i: int| 0 <= i < projection.len() implies (reader.columns)(
        #[trigger] projection[i],
    ) by {
        assert(projection[i] < schema.fields@.len());
    }
}

proof fn bulk_columns_are_enough<S>(
    request: ScanRequest<S>,
    columns: Seq<usize>,
    projection: Seq<usize>,
)
    requires
        bulk_columns(request) == Some(columns),
        projection_view(*request.projection) == Some(projection),
        request.schema.fields@.len() <= usize::MAX,
        !reaches(projection, request.schema.fields@.len() as int),
    ensures
        reads_enough(
            native_reader(request.schema.fields@.len() as int, Some(columns)),
            *request.schema,
            request.filters@,
            projection,
        ),
{
    let schema = *request.schema;
    let filters = request.filters@;
    let reader = native_reader(schema.fields@.len() as int, Some(columns));
    bulk_projection_is_the_referenced_columns(Some(projection), filters, schema);
    assert forall|f: int, c: usize|
        0 <= f < filters.len() && #[trigger] reads_column(filters[f], schema, c) implies (
    reader.columns)(c) by {
        assert(filtered_column(filters, schema, c as int)) by {
            assert(filters[f].references(schema.fields@[c as int].name@));
        }
        assert(referenced_columns(Some(projection), filters, schema).contains(c));
        assert(columns.contains(c));
    }
    assert forall|i: int| 0 <= i < projection.len() implies (reader.columns)(
        #[trigger] projection[i],
    ) by {
        assert(projection[i] < schema.fields@.len());
        assert(projection.contains(projection[i]));
        assert(referenced_columns(Some(projection), filters, schema).contains(projection[i]));
        assert(columns.contains(projection[i]));
    }
}

/// What serves a scan does not show in its rows: from memory, by the native
/// reader or by the custom scan, it gives exactly the live rows of the table
/// that satisfy all filters, projected.
pub proof fn every_path_gives_the_answer<S, V>(
    contents: Contents<S, V>,
    request: ScanRequest<S>,
    config: ProviderConfig,
    groups: Seq<PlannedRowGroup<S>>,
    keep: spec_fn(PlannedRowGroup<S>) -> bool,
    projection: Seq<usize>,
    served: Served,
)
    requires
        contents.well_formed(*request.schema),
        request.schema.fields@.len() <= usize::MAX,
        projection_view(*request.projection) == Some(projection),
        request.plan.row_groups@ == kept(groups, keep),
        prunes_soundly(contents, groups, keep, request.filters@, projection),
        may_serve(request, config, groups, served),
    ensures
        served_rows(contents, request, groups, projection, served) == answer(
            contents,
            groups,
            request.filters@,
            projection,
        ),
{
    let schema = *request.schema;
    let n_data = schema.fields@.len() as int;
    let filters = request.filters@;
    let pruned = request.plan.row_groups@;
    pruning_keeps_the_answer(contents, groups, keep, filters, projection);
    match served {
        Served::Memory => {
            let reader = memory_reader(n_data);
            data_columns_are_enough(reader, schema, filters, projection);
            reader_gives_the_answer(contents, reader, groups, schema, filters, projection);
        },
        Served::Files(ScanPath::Custom) => {},
        Served::Files(ScanPath::Native) => {
            assert(native_chosen(request, config));
            let reader = native_reader(n_data, None);
            data_columns_are_enough(reader, schema, filters, projection);
            reader_gives_the_answer(contents, reader, pruned, schema, filters, projection);
        },
        Served::Files(ScanPath::NativeBulk(columns)) => {
            assert(native_chosen(request, config));
            let reader = native_reader(n_data, Some(columns@));
            bulk_columns_are_enough(request, columns@, projection);
            reader_gives_the_answer(contents, reader, pruned, schema, filters, projection);
        },
    }
}

/// Settings do not show in the rows of a scan either: two scans of the same
/// table for the same columns and filters give the same rows, whatever their
/// providers are configured to, however they were pruned, and whatever serves
/// them.
pub proof fn settings_do_not_show<S, V>(
    contents: Contents<S, V>,
    a: ScanRequest<S>,
    b: ScanRequest<S>,
    config_a: ProviderConfig,
    config_b: ProviderConfig,
    groups: Seq<PlannedRowGroup<S>>,
    keep_a: spec_fn(PlannedRowGroup<S>) -> bool,
    keep_b: spec_fn(PlannedRowGroup<S>) -> bool,
    projection: Seq<usize>,
    served_a: Served,
    served_b: Served,
)
    requires
        contents.well_formed(*a.schema),
        *a.schema == *b.schema,
        a.schema.fields@.len() <= usize::MAX,
        a.filters@ == b.filters@,
        projection_view(*a.projection) == Some(projection),
        projection_view(*b.projection) == Some(projection),
        a.plan.row_groups@ == kept(groups, keep_a),
        b.plan.row_groups@ == kept(groups, keep_b),
        prunes_soundly(contents, groups, keep_a, a.filters@, projection),
        prunes_soundly(contents, groups, keep_b, b.filters@, projection),
        may_serve(a, config_a, groups, served_a),
        may_serve(b, config_b, groups, served_b),
    ensures
        served_rows(contents, a, groups, projection, served_a) == served_rows(
            contents,
            b,
            groups,
            projection,
            served_b,
        ),
{
    every_path_gives_the_answer(contents, a, config_a, groups, keep_a, projection, served_a);
    every_path_gives_the_answer(contents, b, config_b, groups, keep_b, projection, served_b);
}

} // verus!
