//! When and how the native Parquet reader is used.
pub mod footer;
pub mod groups;

use std::collections::HashSet;

use vstd::prelude::*;

use crate::expr::Expr;
use crate::plan::{sum_of, PlannedRowGroup, ScanPlan};
use crate::scalar::{columns_are_found_by_name, Schema};
use crate::text::laws::the_first_occurrence_is_found;

verus! {

/// When the native Parquet reader is used.
#[derive(Debug, Clone, Copy, PartialEq, Eq, Structural)]
pub struct NativeParquetConfig {
    /// How many columns a query has to refer to.
    pub min_filter_columns: usize,
}

impl Default for NativeParquetConfig {
    fn default() -> (r: NativeParquetConfig)
        ensures
            r.min_filter_columns == 1,
    {
        NativeParquetConfig { min_filter_columns: 1 }
    }
}

// ---------------------------------------------------------------------------
// Columns that a query refers to
// ---------------------------------------------------------------------------
/// Whether some filter reads column `i` of the schema.
pub open spec fn filtered_column(filters: Seq<Expr>, schema: Schema, i: int) -> bool {
    &&& 0 <= i < schema.fields@.len()
    &&& schema.position(schema.fields@[i].name@) == Some(i)
    &&& exists|f: int|
        0 <= f < filters.len() && (#[trigger] filters[f]).references(schema.fields@[i].name@)
}

fn is_filtered_column(filters: &Vec<Expr>, schema: &Schema, i: usize) -> (r: bool)
    requires
        i < schema.fields@.len(),
    ensures
        r == filtered_column(filters@, *schema, i as int),
{
    let name = &schema.fields[i].name;
    match schema.index_of(name) {
        Some(k) => {
            if k != i {
                return false;
            }
        },
        None => return false,
    }
    let mut f: usize = 0;
    while f < filters.len()
        invariant
            f <= filters@.len(),
            i < schema.fields@.len(),
            *name == schema.fields@[i as int].name,
            schema.position(name@) == Some(i as int),
            forall|k: int| 0 <= k < f ==> !(#[trigger] filters@[k]).references(name@),
        decreases filters@.len() - f,
    {
        if filters[f].reads(name) {
            return true;
        }
        f = f + 1;
    }
    false
}

/// The columns that a query refers to: those that it projects and those that
/// its filters read.
pub open spec fn referenced_columns(
    projection: Option<Seq<usize>>,
    filters: Seq<Expr>,
    schema: Schema,
) -> Set<usize> {
    Set::new(
        |i: usize|
            (projection matches Some(p) && p.contains(i)) || filtered_column(
                filters,
                schema,
                i as int,
            ),
    )
}

/// The view of an optional projection.
pub open spec fn projection_view(projection: Option<Vec<usize>>) -> Option<Seq<usize>> {
    match projection {
        Some(p) => Some(p@),
        None => None,
    }
}

fn count_referenced(projection: &Option<Vec<usize>>, filters: &Vec<Expr>, schema: &Schema) -> (r:
    usize)
    ensures
        r == referenced_columns(projection_view(*projection), filters@, *schema).len(),
{
    let mut out: HashSet<usize> = HashSet::new();
    match projection {
        Some(p) => {
            let mut i: usize = 0;
            while i < p.len()
                invariant
                    i <= p@.len(),
                    forall|x: usize| #[trigger] out@.contains(x) <==> p@.take(i as int).contains(x),
                decreases p@.len() - i,
            {
                let ghost shorter = p@.take(i as int);
                let ghost longer = p@.take(i as int + 1);
                assert forall|x: usize|
                    longer.contains(x) <==> shorter.contains(x) || x == p@[i as int] by {
                    if shorter.contains(x) {
                        assert(longer[shorter.index_of(x)] == x);
                    }
                    assert(longer[i as int] == p@[i as int]);
                    if longer.contains(x) && x != p@[i as int] {
                        assert(shorter[longer.index_of(x)] == x);
                    }
                }
                out.insert(p[i]);
                i = i + 1;
            }
            assert(p@.take(i as int) =~= p@);
        },
        None => {},
    }
    let ghost projected = out@;
    let mut c: usize = 0;
    while c < schema.fields.len()
        invariant
            c <= schema.fields@.len(),
            forall|x: usize| #[trigger]
                projected.contains(x) <==> (projection matches Some(p) && p@.contains(x)),
            forall|x: usize| #[trigger]
                out@.contains(x) <==> projected.contains(x) || (x < c && filtered_column(
                    filters@,
                    *schema,
                    x as int,
                )),
        decreases schema.fields@.len() - c,
    {
        if is_filtered_column(filters, schema, c) {
            out.insert(c);
        }
        c = c + 1;
    }
    assert(out@ =~= referenced_columns(projection_view(*projection), filters@, *schema));
    out.len()
}

// ---------------------------------------------------------------------------
// Native or custom scan
// ---------------------------------------------------------------------------
/// From how many rows on splitting a row group is worthwhile.
pub const MIN_ROWS_FOR_SPLIT: usize = 20_000;

/// The rows of the first `n` row groups.
pub open spec fn planned_rows<S>(groups: Seq<PlannedRowGroup<S>>, n: int) -> int
    decreases n,
{
    if n <= 0 {
        0
    } else {
        planned_rows(groups, n - 1) + groups[n - 1].meta.rows
    }
}

proof fn planned_rows_grow<S>(groups: Seq<PlannedRowGroup<S>>, k: int, n: int)
    requires
        0 <= k <= n,
    ensures
        0 <= planned_rows(groups, k) <= planned_rows(groups, n),
    decreases n,
{
    if k < n {
        planned_rows_grow(groups, k, n - 1);
    } else if n > 0 {
        planned_rows_grow(groups, n - 1, n - 1);
    }
}

/// Whether the row groups are all of one file.
pub open spec fn one_file<S>(groups: Seq<PlannedRowGroup<S>>) -> bool {
    groups.len() > 0 && forall|i: int|
        0 <= i < groups.len() ==> (#[trigger] groups[i]).data_path@ == groups[0].data_path@
}

/// Whether a scan with filters is of a single large file.
pub open spec fn single_large_file<S>(
    groups: Seq<PlannedRowGroup<S>>,
    filters: int,
    target_partitions: usize,
) -> bool {
    &&& target_partitions > 1
    &&& filters > 0
    &&& one_file(groups)
    &&& planned_rows(groups, groups.len() as int) >= MIN_ROWS_FOR_SPLIT
}

/// Whether a filtered scan would be one task for the native reader, which does
/// not split a row group, while the custom scan can split it.
///
/// Several files give the native reader tasks enough, an unfiltered scan has
/// nothing to gain, and a small one is not split.
pub fn should_route_single_row_group_to_custom_scan<S>(
    scan_plan: &ScanPlan<S>,
    filters: &Vec<Expr>,
    target_partitions: usize,
) -> (r: bool)
    ensures
        r == single_large_file(
            scan_plan.row_groups@,
            filters@.len() as int,
            target_partitions,
        ),
{
    let groups = &scan_plan.row_groups;
    if target_partitions <= 1 || filters.len() == 0 || groups.len() == 0 {
        return false;
    }
    let mut i: usize = 0;
    let mut rows: usize = 0;
    let mut enough = false;
    while i < groups.len()
        invariant
            i <= groups@.len(),
            groups@.len() > 0,
            *groups == scan_plan.row_groups,
            forall|k: int|
                0 <= k < i ==> (#[trigger] groups@[k]).data_path@ == groups@[0].data_path@,
            enough == (planned_rows(groups@, i as int) >= MIN_ROWS_FOR_SPLIT),
            !enough ==> rows == planned_rows(groups@, i as int),
        decreases groups@.len() - i,
    {
        if groups[i].data_path != groups[0].data_path {
            assert(!one_file(groups@));
            return false;
        }
        let more: usize = groups[i].meta.rows;
        if !enough {
            if more >= MIN_ROWS_FOR_SPLIT || rows + more >= MIN_ROWS_FOR_SPLIT {
                enough = true;
            } else {
                rows = rows + more;
            }
        }
        i = i + 1;
    }
    enough
}

/// Whether the native Parquet reader is used for a scan: the table is local,
/// the query refers to enough columns, and the scan is not a single task that
/// only the custom scan can split.
pub fn should_use_native_parquet<S>(
    local: bool,
    scan_plan: &ScanPlan<S>,
    projection: &Option<Vec<usize>>,
    filters: &Vec<Expr>,
    arrow_schema: &Schema,
    target_partitions: usize,
    config: NativeParquetConfig,
) -> (r: bool)
    ensures
        r == native_reader_fits(
            local,
            scan_plan.row_groups@,
            projection_view(*projection),
            filters@,
            *arrow_schema,
            target_partitions,
            config.min_filter_columns,
        ),
{
    if !local {
        return false;
    }
    if count_referenced(projection, filters, arrow_schema) < config.min_filter_columns {
        return false;
    }
    !should_route_single_row_group_to_custom_scan(scan_plan, filters, target_partitions)
}

/// When the native Parquet reader is used for a scan.
pub open spec fn native_reader_fits<S>(
    local: bool,
    groups: Seq<PlannedRowGroup<S>>,
    projection: Option<Seq<usize>>,
    filters: Seq<Expr>,
    schema: Schema,
    target_partitions: usize,
    min_columns: usize,
) -> bool {
    &&& local
    &&& referenced_columns(projection, filters, schema).len() >= min_columns
    &&& !single_large_file(groups, filters.len() as int, target_partitions)
}

/// The columns that the filters read, among the first `n`, in ascending order.
pub open spec fn filter_columns(filters: Seq<Expr>, schema: Schema, n: int) -> Seq<usize>
    decreases n,
{
    if n <= 0 {
        seq![]
    } else {
        let front = filter_columns(filters, schema, n - 1);
        if filtered_column(filters, schema, n - 1) {
            front.push((n - 1) as usize)
        } else {
            front
        }
    }
}

/// Whether every one of `wanted` is among `columns`.
pub open spec fn all_among(wanted: Seq<usize>, columns: Seq<usize>) -> bool {
    forall|i: int| 0 <= i < wanted.len() ==> columns.contains(#[trigger] wanted[i])
}

/// The columns that a scan decodes where it filters afterwards: those that the
/// filters read, where the query projects no other.
pub open spec fn bulk_projection(
    projection: Option<Seq<usize>>,
    filters: Seq<Expr>,
    schema: Schema,
) -> Option<Seq<usize>> {
    let columns = filter_columns(filters, schema, schema.fields@.len() as int);
    match projection {
        Some(p) => if filters.len() > 0 && columns.len() > 0 && all_among(p, columns) {
            Some(columns)
        } else {
            None
        },
        None => None,
    }
}

proof fn filter_columns_are_filtered(filters: Seq<Expr>, schema: Schema, n: int)
    requires
        0 <= n <= schema.fields@.len(),
        n <= usize::MAX,
    ensures
        forall|x: usize| #[trigger]
            filter_columns(filters, schema, n).contains(x) <==> x < n && filtered_column(
                filters,
                schema,
                x as int,
            ),
        forall|i: int, j: int|
            0 <= i < j < filter_columns(filters, schema, n).len() ==> filter_columns(
                filters,
                schema,
                n,
            )[i] < filter_columns(filters, schema, n)[j],
    decreases n,
{
    if n > 0 {
        filter_columns_are_filtered(filters, schema, n - 1);
        let front = filter_columns(filters, schema, n - 1);
        let all = filter_columns(filters, schema, n);
        assert forall|x: usize| #[trigger] all.contains(x) <==> x < n && filtered_column(
            filters,
            schema,
            x as int,
        ) by {
            if front.contains(x) {
                assert(all[front.index_of(x)] == x);
            }
            if filtered_column(filters, schema, n - 1) {
                assert(all[front.len() as int] == n - 1);
                if all.contains(x) && x != n - 1 {
                    assert(front[all.index_of(x)] == x);
                }
            }
        }
        assert forall|i: int, j: int| 0 <= i < j < all.len() implies all[i] < all[j] by {
            if j == front.len() {
                assert(front.contains(front[i]));
            }
        }
    }
}

/// Where it applies, the projection of a bulk decode is ascending, without
/// repeats, and holds exactly the columns that the query refers to.
pub proof fn bulk_projection_is_the_referenced_columns(
    projection: Option<Seq<usize>>,
    filters: Seq<Expr>,
    schema: Schema,
)
    requires
        bulk_projection(projection, filters, schema) is Some,
        schema.fields@.len() <= usize::MAX,
    ensures
        ({
            let columns = bulk_projection(projection, filters, schema)->0;
            &&& forall|i: int, j: int| 0 <= i < j < columns.len() ==> columns[i] < columns[j]
            &&& forall|x: usize| #[trigger]
                columns.contains(x) <==> referenced_columns(projection, filters, schema).contains(x)
        }),
{
    let n = schema.fields@.len() as int;
    let columns = filter_columns(filters, schema, n);
    filter_columns_are_filtered(filters, schema, n);
    let p = projection->0;
    assert forall|x: usize| #[trigger] columns.contains(x) <==> referenced_columns(
        projection,
        filters,
        schema,
    ).contains(x) by {
        if p.contains(x) {
            let i = p.index_of(x);
            assert(columns.contains(p[i]));
        }
    }
}

fn holds_column(columns: &Vec<usize>, column: usize) -> (r: bool)
    ensures
        r == columns@.contains(column),
{
    let mut i: usize = 0;
    while i < columns.len()
        invariant
            i <= columns@.len(),
            forall|k: int| 0 <= k < i ==> columns@[k] != column,
        decreases columns@.len() - i,
    {
        if columns[i] == column {
            return true;
        }
        i = i + 1;
    }
    false
}

/// Decides whether to decode the filter columns in bulk and filter afterwards,
/// rather than to filter while decoding. Where every projected column is read
/// by the filters anyway, filtering early saves no decoding.
///
/// `None`, to filter while decoding, where the query projects another column
/// or all columns, or has no filter.
pub fn native_bulk_decode_projection(
    projection: &Option<Vec<usize>>,
    filters: &Vec<Expr>,
    arrow_schema: &Schema,
) -> (r: Option<Vec<usize>>)
    ensures
        projection_view(r) == bulk_projection(
            projection_view(*projection),
            filters@,
            *arrow_schema,
        ),
{
    if filters.len() == 0 {
        return None;
    }
    let wanted = match projection {
        Some(p) => p,
        None => return None,
    };
    let mut columns: Vec<usize> = Vec::new();
    let mut c: usize = 0;
    while c < arrow_schema.fields.len()
        invariant
            c <= arrow_schema.fields@.len(),
            columns@ == filter_columns(filters@, *arrow_schema, c as int),
        decreases arrow_schema.fields@.len() - c,
    {
        if is_filtered_column(filters, arrow_schema, c) {
            columns.push(c);
        }
        c = c + 1;
    }
    if columns.len() == 0 {
        return None;
    }
    let mut i: usize = 0;
    while i < wanted.len()
        invariant
            i <= wanted@.len(),
            columns@ == filter_columns(
                filters@,
                *arrow_schema,
                arrow_schema.fields@.len() as int,
            ),
            projection_view(*projection) == Some(wanted@),
            forall|k: int| 0 <= k < i ==> columns@.contains(#[trigger] wanted@[k]),
        decreases wanted@.len() - i,
    {
        if !holds_column(&columns, wanted[i]) {
            assert(!all_among(wanted@, columns@)) by {
                assert(!columns@.contains(wanted@[i as int]));
            }
            return None;
        }
        i = i + 1;
    }
    assert(all_among(wanted@, columns@));
    Some(columns)
}

/// Where each projected column stands in what a bulk decode gives.
pub open spec fn positions_in(projection: Seq<usize>, scan: Seq<usize>) -> Seq<int> {
    projection.map_values(|c: usize| crate::text::find(scan, c))
}

/// How to get the requested columns from those that a bulk decode gives:
/// `None` where they are the same, else the place of each.
pub fn bulk_output_positions(projection: &Vec<usize>, scan_proj: &Vec<usize>) -> (r: Option<
    Vec<usize>,
>)
    requires
        all_among(projection@, scan_proj@),
    ensures
        r is None <==> projection@ == scan_proj@,
        r matches Some(places) ==> places@.map_values(|p: usize| p as int) == positions_in(
            projection@,
            scan_proj@,
        ),
{
    let mut places: Vec<usize> = Vec::new();
    let mut same = projection.len() == scan_proj.len();
    let mut i: usize = 0;
    while i < projection.len()
        invariant
            i <= projection@.len(),
            places@.len() == i,
            all_among(projection@, scan_proj@),
            forall|k: int|
                0 <= k < i ==> places@[k] == crate::text::find(scan_proj@, projection@[k]),
            same == (projection@.len() == scan_proj@.len() && forall|k: int|
                0 <= k < i ==> projection@[k] == scan_proj@[k]),
        decreases projection@.len() - i,
    {
        let column: usize = projection[i];
        assert(scan_proj@.contains(projection@[i as int]));
        let mut k: usize = 0;
        while k < scan_proj.len() && scan_proj[k] != column
            invariant
                k <= scan_proj@.len(),
                forall|j: int| 0 <= j < k ==> scan_proj@[j] != column,
            decreases scan_proj@.len() - k,
        {
            k = k + 1;
        }
        proof {
            let at = scan_proj@.index_of(column);
            assert(scan_proj@[at] == column);
            crate::text::find_is(scan_proj@, column, k as int);
        }
        places.push(k);
        if same && column != scan_proj[i] {
            same = false;
        }
        i = i + 1;
    }
    if same {
        assert(projection@ =~= scan_proj@);
        None
    } else {
        assert(places@.map_values(|p: usize| p as int) =~= positions_in(projection@, scan_proj@));
        Some(places)
    }
}

/// The rows that are planned are those of all row groups.
pub proof fn planned_rows_are_summed<S>(groups: Seq<PlannedRowGroup<S>>, n: int)
    requires
        0 <= n <= groups.len(),
    ensures
        planned_rows(groups, n) == sum_of(
            groups.take(n).map_values(|g: PlannedRowGroup<S>| g.meta.rows as int),
        ),
    decreases n,
{
    let rows = |g: PlannedRowGroup<S>| g.meta.rows as int;
    if n > 0 {
        planned_rows_are_summed(groups, n - 1);
        assert(groups.take(n).map_values(rows).drop_last() =~= groups.take(n - 1).map_values(rows));
    }
}

/// A query refers to the columns that it projects and, of each name that a filter
/// reads, to the first column of that name.
pub proof fn columns_are_projected_or_filtered(
    projection: Option<Seq<usize>>,
    filters: Seq<Expr>,
    schema: Schema,
    i: usize,
)
    ensures
        (projection matches Some(p) && p.contains(i)) ==> referenced_columns(
            projection,
            filters,
            schema,
        ).contains(i),
        (projection matches Some(p) ==> !p.contains(i)) ==> (referenced_columns(
            projection,
            filters,
            schema,
        ).contains(i) <==> {
            &&& i < schema.fields@.len()
            &&& forall|k: int|
                0 <= k < i ==> (#[trigger] schema.fields@[k]).name@ != schema.fields@[i as int].name@
            &&& exists|f: int|
                0 <= f < filters.len() && (#[trigger] filters[f]).references(
                    schema.fields@[i as int].name@,
                )
        }),
{
    if i < schema.fields@.len() {
        let name = schema.fields@[i as int].name@;
        columns_are_found_by_name(schema, name);
    }
}

/// A scan may decode the columns of the filters alone exactly where it has a
/// filter that reads a column, and projects only columns that its filters read.
pub proof fn filtered_columns_can_be_decoded_alone(
    projection: Option<Seq<usize>>,
    filters: Seq<Expr>,
    schema: Schema,
)
    requires
        schema.fields@.len() <= usize::MAX,
    ensures
        bulk_projection(projection, filters, schema) is Some <==> {
            &&& filters.len() > 0
            &&& exists|x: int| #[trigger] filtered_column(filters, schema, x)
            &&& projection matches Some(p) && forall|i: int|
                0 <= i < p.len() ==> filtered_column(filters, schema, #[trigger] p[i] as int)
        },
{
    let n = schema.fields@.len() as int;
    let columns = filter_columns(filters, schema, n);
    filter_columns_are_filtered(filters, schema, n);
    if columns.len() > 0 {
        assert(columns.contains(columns[0]));
        assert(filtered_column(filters, schema, columns[0] as int));
    }
    if exists|x: int| #[trigger] filtered_column(filters, schema, x) {
        let x = choose|x: int| #[trigger] filtered_column(filters, schema, x);
        assert(columns.contains(x as usize));
    }
    match projection {
        Some(p) => {
            if all_among(p, columns) {
                assert forall|i: int| 0 <= i < p.len() implies filtered_column(
                    filters,
                    schema,
                    #[trigger] p[i] as int,
                ) by {
                    assert(columns.contains(p[i]));
                }
            }
            if forall|i: int|
                0 <= i < p.len() ==> filtered_column(filters, schema, #[trigger] p[i] as int) {
                assert forall|i: int| 0 <= i < p.len() implies columns.contains(#[trigger] p[i]) by {
                    assert(filtered_column(filters, schema, p[i] as int));
                }
            }
        },
        None => {},
    }
}

/// The places of the requested columns are where the decode has them.
pub proof fn places_are_where_the_columns_are(projection: Seq<usize>, scan: Seq<usize>, i: int)
    requires
        all_among(projection, scan),
        0 <= i < projection.len(),
    ensures
        positions_in(projection, scan).len() == projection.len(),
        0 <= positions_in(projection, scan)[i] < scan.len(),
        scan[positions_in(projection, scan)[i]] == projection[i],
{
    assert(scan.contains(projection[i]));
    the_first_occurrence_is_found(scan, projection[i]);
}

/// A scan is of a single large file exactly where it has a filter, may use several
/// partitions, and its row groups are of one file and have rows enough to be split.
pub proof fn large_scans_are_of_one_file<S>(
    groups: Seq<PlannedRowGroup<S>>,
    filters: int,
    target_partitions: usize,
    i: int,
    j: int,
)
    ensures
        0 <= i < groups.len() && 0 <= j < groups.len() && groups[i].data_path@
            != groups[j].data_path@ ==> !single_large_file(groups, filters, target_partitions),
        filters <= 0 || target_partitions <= 1 || groups.len() == 0 ==> !single_large_file(
            groups,
            filters,
            target_partitions,
        ),
        filters > 0 && target_partitions > 1 && groups.len() == 1 ==> (single_large_file(
            groups,
            filters,
            target_partitions,
        ) <==> groups[0].meta.rows >= MIN_ROWS_FOR_SPLIT),
        filters > 0 && target_partitions > 1 && groups.len() > 0 && (forall|k: int|
            0 <= k < groups.len() ==> (#[trigger] groups[k]).data_path@ == groups[0].data_path@)
            ==> (single_large_file(groups, filters, target_partitions) <==> sum_of(
            groups.map_values(|g: PlannedRowGroup<S>| g.meta.rows as int),
        ) >= MIN_ROWS_FOR_SPLIT),
{
    planned_rows_are_summed(groups, groups.len() as int);
    assert(groups.take(groups.len() as int) =~= groups);
    reveal_with_fuel(planned_rows, 2);
}

/// The native reader fits where the files are local, the query refers to columns
/// enough, and the scan is not of a single large file.
pub proof fn the_native_reader_fits_local_scans<S>(
    local: bool,
    groups: Seq<PlannedRowGroup<S>>,
    projection: Option<Seq<usize>>,
    filters: Seq<Expr>,
    schema: Schema,
    target_partitions: usize,
    min_columns: usize,
)
    ensures
        native_reader_fits(
            local,
            groups,
            projection,
            filters,
            schema,
            target_partitions,
            min_columns,
        ) ==> local && referenced_columns(projection, filters, schema).len() >= min_columns
            && !single_large_file(groups, filters.len() as int, target_partitions),
        local && referenced_columns(projection, filters, schema).len() >= min_columns
            && !single_large_file(groups, filters.len() as int, target_partitions)
            ==> native_reader_fits(
            local,
            groups,
            projection,
            filters,
            schema,
            target_partitions,
            min_columns,
        ),
{
}

} // verus!
