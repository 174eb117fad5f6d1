//! How a scan is carried out.
//!
//! A small table is held in memory and scanned there. Otherwise the native
//! Parquet reader is used where it can give the right rows and is the faster
//! one, and the custom scan everywhere else.
use std::collections::HashSet;

use vstd::prelude::*;

use super::ProviderConfig;
use crate::expr::{Expr, Operator};
use crate::index_selector::{candidate_row_ids, lists_common, IndexLookup};
use crate::parquet_exec::{
    bulk_projection, native_bulk_decode_projection, native_reader_fits, projection_view,
    should_use_native_parquet, NativeParquetConfig,
};
use crate::plan::{sum_of, PlannedRowGroup, ScanPlan};
use crate::predicate::{expr_to_predicate, predicate_of, Predicate, PredicateView};
use crate::scalar::Schema;
use crate::text::texts;

verus! {

// ---------------------------------------------------------------------------
// Filters that the scan takes over
// ---------------------------------------------------------------------------
/// What a provider promises of a filter that is handed to it.
#[derive(Debug, Clone, Copy, PartialEq, Eq, Structural)]
pub enum FilterPushDown {
    /// The scan gives no row that fails the filter.
    Exact,
    /// The scan may use the filter to skip rows, but gives others that fail it.
    Inexact,
    /// The scan does not look at the filter.
    Unsupported,
}

/// Whether an expression is a column that the table is partitioned by.
pub open spec fn on_partition(e: Expr, partition_by: Seq<Seq<char>>) -> bool {
    e matches Expr::Column(c) && partition_by.contains(c@)
}

fn is_partition_column(e: &Expr, partition_by: &Vec<String>) -> (r: bool)
    ensures
        r == on_partition(*e, texts(partition_by@)),
{
    match e {
        Expr::Column(c) => crate::text::holds(partition_by, c),
        _ => false,
    }
}

fn is_literal(e: &Expr) -> (r: bool)
    ensures
        r == (e is Literal),
{
    matches!(e, Expr::Literal(_))
}

/// Whether an operator compares by equality or order.
pub open spec fn compares(op: Operator) -> bool {
    op == Operator::Eq || op == Operator::Lt || op == Operator::LtEq || op == Operator::Gt || op
        == Operator::GtEq
}

/// Whether a filter compares a partition column with a literal, or with a list
/// of literals.
pub open spec fn partition_filter(e: Expr, partition_by: Seq<Seq<char>>) -> bool {
    match e {
        Expr::BinaryExpr { left, op, right } => compares(op) && ((on_partition(*left, partition_by)
            && *right is Literal) || (*left is Literal && on_partition(*right, partition_by))),
        Expr::InList { expr, list, negated } => !negated && on_partition(*expr, partition_by)
            && forall|i: int| 0 <= i < list@.len() ==> (#[trigger] list@[i]) is Literal,
        _ => false,
    }
}

fn is_partition_pushdown_predicate(e: &Expr, partition_by: &Vec<String>) -> (r: bool)
    ensures
        r == partition_filter(*e, texts(partition_by@)),
{
    match e {
        Expr::BinaryExpr { left, op, right } => {
            let compares = *op == Operator::Eq || *op == Operator::Lt || *op == Operator::LtEq
                || *op == Operator::Gt || *op == Operator::GtEq;
            compares && ((is_partition_column(left, partition_by) && is_literal(right)) || (
            is_literal(left) && is_partition_column(right, partition_by)))
        },
        Expr::InList { expr, list, negated } => {
            if *negated || !is_partition_column(expr, partition_by) {
                return false;
            }
            let mut i: usize = 0;
            while i < list.len()
                invariant
                    i <= list@.len(),
                    *e matches Expr::InList { list: l, .. } && l == *list,
                    forall|k: int| 0 <= k < i ==> (#[trigger] list@[k]) is Literal,
                decreases list@.len() - i,
            {
                if !is_literal(&list[i]) {
                    assert(!(list@[i as int] is Literal));
                    return false;
                }
                i = i + 1;
            }
            true
        },
        _ => false,
    }
}

/// What is promised of a filter: it is applied exactly where it can be
/// translated, or is on a partition column; else it is not looked at.
pub open spec fn pushdown_of(
    filter: Expr,
    schema: Schema,
    partition_by: Option<Seq<Seq<char>>>,
) -> FilterPushDown {
    if (partition_by matches Some(columns) && partition_filter(filter, columns)) || predicate_of(
        filter,
        schema,
    ) is Some {
        FilterPushDown::Exact
    } else {
        FilterPushDown::Unsupported
    }
}

/// The view of optional partition columns.
pub open spec fn partition_view(partition_by: Option<&Vec<String>>) -> Option<Seq<Seq<char>>> {
    match partition_by {
        Some(columns) => Some(texts(columns@)),
        None => None,
    }
}

/// Classifies a filter. A filter that can be translated is evaluated on the
/// rows themselves, so statistics that are missing do not make it inexact.
pub fn classify_filter(filter: &Expr, arrow_schema: &Schema, partition_by: Option<&Vec<String>>) -> (r:
    FilterPushDown)
    ensures
        r == pushdown_of(*filter, *arrow_schema, partition_view(partition_by)),
{
    let by_partition = match partition_by {
        Some(columns) => is_partition_pushdown_predicate(filter, columns),
        None => false,
    };
    if by_partition || expr_to_predicate(filter, arrow_schema).is_some() {
        FilterPushDown::Exact
    } else {
        FilterPushDown::Unsupported
    }
}

/// The filters among the first `n` that can be translated.
pub open spec fn translated(filters: Seq<Expr>, schema: Schema, n: int) -> Seq<PredicateView>
    decreases n,
{
    if n <= 0 {
        seq![]
    } else {
        let front = translated(filters, schema, n - 1);
        match predicate_of(filters[n - 1], schema) {
            Some(p) => front.push(p),
            None => front,
        }
    }
}

/// The filters that can prune row groups.
pub fn pruning_predicates(filters: &Vec<Expr>, arrow_schema: &Schema) -> (r: Vec<Predicate>)
    ensures
        r@.map_values(|p: Predicate| p@) == translated(
            filters@,
            *arrow_schema,
            filters@.len() as int,
        ),
{
    let mut out: Vec<Predicate> = Vec::new();
    let mut i: usize = 0;
    assert(out@.map_values(|p: Predicate| p@) =~= seq![]);
    while i < filters.len()
        invariant
            i <= filters@.len(),
            out@.map_values(|p: Predicate| p@) == translated(filters@, *arrow_schema, i as int),
        decreases filters@.len() - i,
    {
        let ghost before = out@.map_values(|p: Predicate| p@);
        match expr_to_predicate(&filters[i], arrow_schema) {
            Some((_, predicate)) => {
                out.push(predicate);
                assert(out@.map_values(|p: Predicate| p@) =~= before.push(predicate@));
            },
            None => {},
        }
        i = i + 1;
    }
    out
}

/// What is promised to be applied exactly is either handed to pruning or on a
/// partition column; a filter that pruning gets is always promised.
pub proof fn pruning_filters_are_promised(
    filter: Expr,
    schema: Schema,
    partition_by: Option<Seq<Seq<char>>>,
)
    ensures
        translated(seq![filter], schema, 1).len() > 0 ==> pushdown_of(filter, schema, partition_by)
            == FilterPushDown::Exact,
        pushdown_of(filter, schema, partition_by) == FilterPushDown::Exact ==> translated(
            seq![filter],
            schema,
            1,
        ).len() > 0 || (partition_by matches Some(columns) && partition_filter(filter, columns)),
{
    assert(translated(seq![filter], schema, 0).len() == 0);
}

/// The row ids by which the indexes narrow a scan. They are asked only where
/// several row groups are left to choose from.
pub fn index_candidates<I: IndexLookup, S>(
    indexes: &Vec<I>,
    filters: &Vec<Expr>,
    pruned: &Vec<PlannedRowGroup<S>>,
) -> (r: Option<HashSet<u64>>)
    ensures
        if pruned@.len() > 1 {
            lists_common(r, indexes@, filters@)
        } else {
            r is None
        },
{
    if pruned.len() > 1 {
        candidate_row_ids(indexes, filters)
    } else {
        None
    }
}

// ---------------------------------------------------------------------------
// Small tables
// ---------------------------------------------------------------------------
/// Whether a projection asks for the id or the address of rows, which stand
/// behind the `n_data` data columns.
pub open spec fn wants_pseudo(projection: Option<Seq<usize>>, n_data: int) -> bool {
    projection matches Some(p) && reaches(p, n_data)
}

/// Whether some column is at place `n` or behind it.
pub open spec fn reaches(columns: Seq<usize>, n: int) -> bool {
    exists|i: int| 0 <= i < columns.len() && #[trigger] columns[i] >= n
}

pub fn has_pseudo_in_projection(projection: &Option<Vec<usize>>, n_data: usize) -> (r: bool)
    ensures
        r == wants_pseudo(projection_view(*projection), n_data as int),
{
    match projection {
        Some(p) => {
            let mut i: usize = 0;
            while i < p.len()
                invariant
                    i <= p@.len(),
                    projection_view(*projection) == Some(p@),
                    forall|k: int| 0 <= k < i ==> #[trigger] p@[k] < n_data,
                decreases p@.len() - i,
            {
                if p[i] >= n_data {
                    assert(reaches(p@, n_data as int)) by {
                        assert(p@[i as int] >= n_data);
                    }
                    return true;
                }
                i = i + 1;
            }
            assert(!reaches(p@, n_data as int));
            false
        },
        None => false,
    }
}

/// The snapshot by which a table in memory is kept; `None` where the scan must
/// not use one. An encrypted table is not held in memory, and a table in memory
/// has no row ids and addresses.
pub open spec fn memory_snapshot<S>(
    encrypted: bool,
    pseudo: bool,
    full: Seq<PlannedRowGroup<S>>,
    pruned: Seq<PlannedRowGroup<S>>,
) -> Option<u64> {
    if encrypted || pseudo || full.len() == 0 {
        None
    } else if pruned.len() > 0 {
        Some(pruned[0].snapshot)
    } else {
        Some(full[0].snapshot)
    }
}

pub fn tiny_table_sequence<S>(
    encrypted: bool,
    pseudo: bool,
    full: &Vec<PlannedRowGroup<S>>,
    pruned: &Vec<PlannedRowGroup<S>>,
) -> (r: Option<u64>)
    ensures
        r == memory_snapshot(encrypted, pseudo, full@, pruned@),
{
    if encrypted || pseudo || full.len() == 0 {
        None
    } else if pruned.len() > 0 {
        Some(pruned[0].snapshot)
    } else {
        Some(full[0].snapshot)
    }
}

/// The rows of a table, counted until they exceed a threshold.
#[derive(Debug, Clone, Copy, PartialEq, Eq, Structural)]
pub struct RowEstimate {
    pub rows: usize,
    /// Whether the threshold is exceeded, so that the bytes need not be known.
    pub exceeded: bool,
}

/// `a + b`, but no more than the largest number.
pub open spec fn saturating_sum(a: int, b: int, most: int) -> int {
    if a + b > most {
        most
    } else {
        a + b
    }
}

/// The rows of the first `n` row groups, counted until they exceed a threshold.
pub open spec fn counted_rows<S>(
    groups: Seq<PlannedRowGroup<S>>,
    threshold: usize,
    n: int,
) -> int
    decreases n,
{
    if n <= 0 {
        0
    } else {
        let before = counted_rows(groups, threshold, n - 1);
        if before > threshold {
            before
        } else {
            saturating_sum(before, groups[n - 1].meta.rows as int, usize::MAX as int)
        }
    }
}

proof fn counted_rows_stop<S>(groups: Seq<PlannedRowGroup<S>>, threshold: usize, k: int, n: int)
    requires
        0 <= k <= n,
        counted_rows(groups, threshold, k) > threshold,
    ensures
        counted_rows(groups, threshold, n) == counted_rows(groups, threshold, k),
    decreases n,
{
    if k < n {
        counted_rows_stop(groups, threshold, k, n - 1);
    }
}

/// Counts the rows of a plan, as far as the decision on holding the table in
/// memory needs it.
pub fn estimate_tiny_table_rows<S>(groups: &Vec<PlannedRowGroup<S>>, threshold: usize) -> (r:
    RowEstimate)
    ensures
        r.rows == counted_rows(groups@, threshold, groups@.len() as int),
        r.exceeded == (r.rows > threshold),
{
    let mut rows: usize = 0;
    let mut i: usize = 0;
    while i < groups.len()
        invariant
            i <= groups@.len(),
            rows == counted_rows(groups@, threshold, i as int),
            rows <= threshold,
        decreases groups@.len() - i,
    {
        rows = rows.saturating_add(groups[i].meta.rows);
        i = i + 1;
        if rows > threshold {
            proof {
                counted_rows_stop(groups@, threshold, i as int, groups@.len() as int);
            }
            return RowEstimate { rows, exceeded: true };
        }
    }
    RowEstimate { rows, exceeded: false }
}

/// The sum of the first `n` sizes, but no more than the largest number.
pub open spec fn summed_bytes(sizes: Seq<u64>, n: int) -> int
    decreases n,
{
    if n <= 0 {
        0
    } else {
        saturating_sum(summed_bytes(sizes, n - 1), sizes[n - 1] as int, u64::MAX as int)
    }
}

fn total_bytes(sizes: &Vec<u64>) -> (r: u64)
    ensures
        r == summed_bytes(sizes@, sizes@.len() as int),
{
    let mut total: u64 = 0;
    let mut i: usize = 0;
    while i < sizes.len()
        invariant
            i <= sizes@.len(),
            total == summed_bytes(sizes@, i as int),
        decreases sizes@.len() - i,
    {
        total = total.saturating_add(sizes[i]);
        i = i + 1;
    }
    total
}

/// Whether a table is small enough to be held in memory: by its rows, or by the
/// sizes of its files, where the rows did not settle it. Where a size could not
/// be found, `sizes` is `None`, and the table does not count as small.
pub open spec fn is_tiny(estimate: RowEstimate, sizes: Option<Seq<u64>>, config: ProviderConfig) -> bool {
    if estimate.exceeded {
        estimate.rows <= config.tiny_table_cache_threshold_rows || u64::MAX
            <= config.tiny_table_cache_threshold_bytes as u64
    } else {
        match sizes {
            Some(s) => estimate.rows <= config.tiny_table_cache_threshold_rows || summed_bytes(
                s,
                s.len() as int,
            ) <= config.tiny_table_cache_threshold_bytes as u64,
            None => false,
        }
    }
}

pub open spec fn sizes_view(sizes: Option<Vec<u64>>) -> Option<Seq<u64>> {
    match sizes {
        Some(s) => Some(s@),
        None => None,
    }
}

pub fn is_tiny_table(estimate: RowEstimate, sizes: &Option<Vec<u64>>, config: &ProviderConfig) -> (r:
    bool)
    ensures
        r == is_tiny(estimate, sizes_view(*sizes), *config),
{
    let rows_fit = estimate.rows <= config.tiny_table_cache_threshold_rows;
    let limit: u64 = config.tiny_table_cache_threshold_bytes as u64;
    if estimate.exceeded {
        return rows_fit || u64::MAX <= limit;
    }
    match sizes {
        Some(s) => rows_fit || total_bytes(s) <= limit,
        None => false,
    }
}

/// What a scan does next.
#[derive(Debug, Clone, Copy, PartialEq, Eq, Structural)]
pub enum ScanStage {
    /// Scan the table in memory. If that fails, go on with `memory_failed`.
    ServeFromMemory,
    /// Find the sizes of the files that are left after pruning, and go on with
    /// `sizes_found`.
    ReadSizes,
    /// Load the whole table into memory and scan it there. If that fails, read
    /// the files.
    LoadTable,
    /// Read the files, as `choose_scan_path` says.
    ReadFiles,
}

/// What follows where the table is not in memory: by its size it is loaded, or
/// its files are read.
pub open spec fn stage_by_rows(estimate: RowEstimate, config: ProviderConfig) -> ScanStage {
    if !estimate.exceeded {
        ScanStage::ReadSizes
    } else if is_tiny(estimate, None, config) {
        ScanStage::LoadTable
    } else {
        ScanStage::ReadFiles
    }
}

/// How a scan begins: in memory, where the table of that snapshot is held there.
pub open spec fn first_stage<S>(
    sequence: Option<u64>,
    cached: Option<u64>,
    pruned: Seq<PlannedRowGroup<S>>,
    config: ProviderConfig,
) -> ScanStage {
    match sequence {
        None => ScanStage::ReadFiles,
        Some(_) => if cached == sequence {
            ScanStage::ServeFromMemory
        } else {
            stage_by_rows(row_estimate(pruned, config), config)
        },
    }
}

/// Begins a scan. `sequence` is the snapshot by which the table may be held in
/// memory, `cached` that of the table that is held.
pub fn begin_scan<S>(
    sequence: Option<u64>,
    cached: Option<u64>,
    pruned: &Vec<PlannedRowGroup<S>>,
    config: &ProviderConfig,
) -> (r: ScanStage)
    ensures
        r == first_stage(sequence, cached, pruned@, *config),
{
    match sequence {
        None => ScanStage::ReadFiles,
        Some(s) => match cached {
            Some(c) if c == s => ScanStage::ServeFromMemory,
            _ => memory_failed(pruned, config),
        },
    }
}

/// The rows of a plan, counted for the decision on holding the table in memory.
pub open spec fn row_estimate<S>(groups: Seq<PlannedRowGroup<S>>, config: ProviderConfig) -> RowEstimate {
    let rows = counted_rows(
        groups,
        config.tiny_table_cache_threshold_rows,
        groups.len() as int,
    );
    RowEstimate { rows: rows as usize, exceeded: rows > config.tiny_table_cache_threshold_rows }
}

/// Goes on with a scan where the table is not in memory, or could not be
/// scanned there.
pub fn memory_failed<S>(pruned: &Vec<PlannedRowGroup<S>>, config: &ProviderConfig) -> (r: ScanStage)
    ensures
        r == stage_by_rows(row_estimate(pruned@, *config), *config),
{
    let estimate = estimate_tiny_table_rows(pruned, config.tiny_table_cache_threshold_rows);
    if !estimate.exceeded {
        ScanStage::ReadSizes
    } else if is_tiny_table(estimate, &None, config) {
        ScanStage::LoadTable
    } else {
        ScanStage::ReadFiles
    }
}

/// How a scan goes on by the sizes of the files: a small table is loaded.
pub open spec fn stage_by_size<S>(
    pruned: Seq<PlannedRowGroup<S>>,
    sizes: Option<Seq<u64>>,
    config: ProviderConfig,
) -> ScanStage {
    if is_tiny(row_estimate(pruned, config), sizes, config) {
        ScanStage::LoadTable
    } else {
        ScanStage::ReadFiles
    }
}

/// Goes on with a scan once the sizes of the files are known; `None` where one
/// could not be found.
pub fn sizes_found<S>(
    pruned: &Vec<PlannedRowGroup<S>>,
    sizes: &Option<Vec<u64>>,
    config: &ProviderConfig,
) -> (r: ScanStage)
    ensures
        r == stage_by_size(pruned@, sizes_view(*sizes), *config),
{
    let estimate = estimate_tiny_table_rows(pruned, config.tiny_table_cache_threshold_rows);
    if is_tiny_table(estimate, sizes, config) {
        ScanStage::LoadTable
    } else {
        ScanStage::ReadFiles
    }
}

// ---------------------------------------------------------------------------
// Native or custom scan
// ---------------------------------------------------------------------------
/// How the files of a table are read.
#[derive(Debug, PartialEq, Eq)]
pub enum ScanPath {
    /// By the native reader, which decodes these columns and filters
    /// afterwards.
    NativeBulk(Vec<usize>),
    /// By the native reader, which filters while it decodes.
    Native,
    /// By the custom scan.
    Custom,
}

/// What a scan is asked for, and what is known of its table.
pub struct ScanRequest<'a, S> {
    /// Whether the table is encrypted.
    pub encrypted: bool,
    /// Whether the files are local.
    pub local: bool,
    /// The row groups that are left after pruning.
    pub plan: &'a ScanPlan<S>,
    pub projection: &'a Option<Vec<usize>>,
    pub filters: &'a Vec<Expr>,
    /// The data columns.
    pub schema: &'a Schema,
    pub limited: bool,
    /// Whether decoding in bulk is enabled.
    pub bulk_decode: bool,
}

/// Whether some row group has a deletion vector.
pub open spec fn has_deletions<S>(groups: Seq<PlannedRowGroup<S>>) -> bool {
    exists|i: int| 0 <= i < groups.len() && (#[trigger] groups[i]).deletes is Some
}

fn any_deletions<S>(groups: &Vec<PlannedRowGroup<S>>) -> (r: bool)
    ensures
        r == has_deletions(groups@),
{
    let mut i: usize = 0;
    while i < groups.len()
        invariant
            i <= groups@.len(),
            forall|k: int| 0 <= k < i ==> (#[trigger] groups@[k]).deletes is None,
        decreases groups@.len() - i,
    {
        if groups[i].deletes.is_some() {
            return true;
        }
        i = i + 1;
    }
    false
}

/// Whether the native reader may be used at all. It cannot decrypt, does not
/// know deletion vectors, and has no row ids and addresses. A threshold of 0
/// disables it.
pub open spec fn native_allowed<S>(request: ScanRequest<S>, config: ProviderConfig) -> bool {
    &&& config.native_parquet_threshold > 0
    &&& !request.encrypted
    &&& !has_deletions(request.plan.row_groups@)
    &&& !wants_pseudo(
        projection_view(*request.projection),
        request.schema.fields@.len() as int,
    )
}

/// Whether the native reader is used.
pub open spec fn native_chosen<S>(request: ScanRequest<S>, config: ProviderConfig) -> bool {
    native_allowed(request, config) && native_reader_fits(
        request.local,
        request.plan.row_groups@,
        projection_view(*request.projection),
        request.filters@,
        *request.schema,
        config.target_partitions,
        config.native_parquet_threshold,
    )
}

/// The columns that are decoded in bulk. A limit rules it out: pushed into a
/// scan that filters afterwards, it would cut off rows that still have to be
/// filtered.
pub open spec fn bulk_columns<S>(request: ScanRequest<S>) -> Option<Seq<usize>> {
    if request.limited || !request.bulk_decode {
        None
    } else {
        bulk_projection(
            projection_view(*request.projection),
            request.filters@,
            *request.schema,
        )
    }
}

/// Whether the files of a table are read in this way.
pub open spec fn is_path<S>(request: ScanRequest<S>, config: ProviderConfig, path: ScanPath) -> bool {
    match path {
        ScanPath::Custom => !native_chosen(request, config),
        ScanPath::Native => native_chosen(request, config) && bulk_columns(request) is None,
        ScanPath::NativeBulk(columns) => native_chosen(request, config) && bulk_columns(request)
            == Some(columns@),
    }
}

/// Decides how the files of a table are read.
pub fn choose_scan_path<S>(request: &ScanRequest<S>, config: &ProviderConfig) -> (r: ScanPath)
    ensures
        is_path(*request, *config, r),
{
    if config.native_parquet_threshold == 0 || request.encrypted || any_deletions(
        &request.plan.row_groups,
    ) || has_pseudo_in_projection(request.projection, request.schema.fields.len()) {
        return ScanPath::Custom;
    }
    let native = NativeParquetConfig { min_filter_columns: config.native_parquet_threshold };
    if !should_use_native_parquet(
        request.local,
        request.plan,
        request.projection,
        request.filters,
        request.schema,
        config.target_partitions,
        native,
    ) {
        return ScanPath::Custom;
    }
    if request.limited || !request.bulk_decode {
        return ScanPath::Native;
    }
    match native_bulk_decode_projection(request.projection, request.filters, request.schema) {
        Some(columns) => ScanPath::NativeBulk(columns),
        None => ScanPath::Native,
    }
}

/// The native reader is never used where it would give wrong rows: not for an
/// encrypted table, nor where rows are deleted, nor for row ids and addresses.
pub proof fn only_the_custom_scan_reads_these<S>(request: ScanRequest<S>, config: ProviderConfig)
    requires
        request.encrypted || has_deletions(request.plan.row_groups@) || wants_pseudo(
            projection_view(*request.projection),
            request.schema.fields@.len() as int,
        ),
    ensures
        !native_chosen(request, config),
{
}

/// A scan with a limit never filters after the limit.
pub proof fn limits_rule_out_bulk_decoding<S>(request: ScanRequest<S>)
    requires
        request.limited,
    ensures
        bulk_columns(request) is None,
{
}

/// The filters that prune are those that can be translated, in their order.
pub proof fn pruning_filters_keep_their_order(filters: Seq<Expr>, schema: Schema, n: int)
    requires
        0 <= n <= filters.len(),
    ensures
        translated(filters, schema, n) == filters.take(n).filter_map(
            |f: Expr| predicate_of(f, schema),
        ),
    decreases n,
{
    let translate = |f: Expr| predicate_of(f, schema);
    if n > 0 {
        pruning_filters_keep_their_order(filters, schema, n - 1);
        assert(filters.take(n).drop_last() =~= filters.take(n - 1));
        assert(filters.take(n).last() == filters[n - 1]);
        match predicate_of(filters[n - 1], schema) {
            Some(p) => {
                assert(translated(filters, schema, n) =~= filters.take(n - 1).filter_map(translate)
                    + seq![p]);
            },
            None => {},
        }
    } else {
        assert(filters.take(0) =~= seq![]);
    }
}

/// A filter that counts as one on the partition reads partition columns only, and
/// the sides of a comparison can be exchanged.
pub proof fn partition_filters_read_the_partition(
    e: Expr,
    mirror: Expr,
    partition_by: Seq<Seq<char>>,
    name: Seq<char>,
)
    requires
        e matches Expr::BinaryExpr { left, op, right } ==> (mirror matches Expr::BinaryExpr {
            left: l,
            op: o,
            right: r,
        } && *l == *right && o == op && *r == *left),
        !(e is BinaryExpr) ==> mirror == e,
    ensures
        partition_filter(e, partition_by) && e.references(name) ==> partition_by.contains(name),
        partition_filter(e, partition_by) == partition_filter(mirror, partition_by),
{
    if partition_filter(e, partition_by) && e.references(name) {
        match e {
            Expr::BinaryExpr { left, right, .. } => {
                assert(left.references(name) || right.references(name));
            },
            Expr::InList { expr, list, .. } => {
                if !expr.references(name) {
                    let i = choose|i: int|
                        0 <= i < list.len() && (#[trigger] list[i]).references(name);
                    assert(list@[i] is Literal);
                    assert(!list[i].references(name));
                }
            },
            _ => {},
        }
    }
}

/// A comparison of a partition column with a literal by equality or order is a
/// filter on the partition, and so is a list of literals. Such a filter is promised
/// to be applied exactly.
pub proof fn comparisons_with_the_partition_are_exact(
    filter: Expr,
    schema: Schema,
    partition_by: Seq<Seq<char>>,
)
    requires
        match filter {
            Expr::BinaryExpr { left, op, right } => (*left matches Expr::Column(c)
                && partition_by.contains(c@)) && *right is Literal && (op is Eq || op is Lt || op
                is LtEq || op is Gt || op is GtEq),
            Expr::InList { expr, list, negated } => (*expr matches Expr::Column(c)
                && partition_by.contains(c@)) && !negated && forall|i: int|
                0 <= i < list@.len() ==> (#[trigger] list@[i]) is Literal,
            _ => false,
        },
    ensures
        partition_filter(filter, partition_by),
        pushdown_of(filter, schema, Some(partition_by)) == FilterPushDown::Exact,
{
}

/// The rows of all row groups.
pub open spec fn rows_in<S>(groups: Seq<PlannedRowGroup<S>>) -> int {
    sum_of(groups.map_values(|g: PlannedRowGroup<S>| g.meta.rows as int))
}

proof fn counted_up_to<S>(groups: Seq<PlannedRowGroup<S>>, threshold: usize, n: int)
    requires
        0 <= n <= groups.len(),
    ensures
        0 <= rows_in(groups.take(n)),
        rows_in(groups.take(n)) <= threshold ==> counted_rows(groups, threshold, n) == rows_in(
            groups.take(n),
        ),
        rows_in(groups.take(n)) > threshold && threshold < usize::MAX ==> threshold < counted_rows(
            groups,
            threshold,
            n,
        ) <= rows_in(groups.take(n)),
        counted_rows(groups, threshold, n) <= usize::MAX,
    decreases n,
{
    let rows = |g: PlannedRowGroup<S>| g.meta.rows as int;
    if n > 0 {
        counted_up_to(groups, threshold, n - 1);
        assert(groups.take(n).map_values(rows).drop_last() =~= groups.take(n - 1).map_values(rows));
        assert(groups.take(n).map_values(rows).last() == groups[n - 1].meta.rows);
    } else {
        assert(groups.take(0).map_values(rows) =~= seq![]);
    }
}

/// The estimate tells whether the rows of the table exceed the threshold and,
/// where they do not, how many there are.
pub proof fn estimates_count_the_rows<S>(groups: Seq<PlannedRowGroup<S>>, config: ProviderConfig)
    requires
        config.tiny_table_cache_threshold_rows < usize::MAX,
    ensures
        row_estimate(groups, config).exceeded <==> rows_in(groups)
            > config.tiny_table_cache_threshold_rows,
        !row_estimate(groups, config).exceeded ==> row_estimate(groups, config).rows == rows_in(
            groups,
        ),
{
    counted_up_to(groups, config.tiny_table_cache_threshold_rows, groups.len() as int);
    assert(groups.take(groups.len() as int) =~= groups);
}

proof fn bytes_up_to(sizes: Seq<u64>, n: int)
    requires
        0 <= n <= sizes.len(),
    ensures
        0 <= summed_bytes(sizes, n),
        summed_bytes(sizes, n) == if sum_of(sizes.take(n).map_values(|s: u64| s as int))
            <= u64::MAX {
            sum_of(sizes.take(n).map_values(|s: u64| s as int))
        } else {
            u64::MAX as int
        },
    decreases n,
{
    let size = |s: u64| s as int;
    if n > 0 {
        bytes_up_to(sizes, n - 1);
        assert(sizes.take(n).map_values(size).drop_last() =~= sizes.take(n - 1).map_values(size));
        assert(sizes.take(n).map_values(size).last() == sizes[n - 1]);
    }
}

/// The bytes of a table are the sum of its files, as far as that fits in 64 bits.
pub proof fn bytes_are_summed(sizes: Seq<u64>)
    ensures
        sum_of(sizes.map_values(|s: u64| s as int)) <= u64::MAX ==> summed_bytes(
            sizes,
            sizes.len() as int,
        ) == sum_of(sizes.map_values(|s: u64| s as int)),
        sum_of(sizes.map_values(|s: u64| s as int)) > u64::MAX ==> summed_bytes(
            sizes,
            sizes.len() as int,
        ) == u64::MAX,
{
    bytes_up_to(sizes, sizes.len() as int);
    assert(sizes.take(sizes.len() as int) =~= sizes);
}

/// A table whose rows exceed the threshold is not small, whatever its bytes; one
/// whose rows do not is small once the sizes of its files could be found.
pub proof fn small_tables_have_few_rows<S>(
    groups: Seq<PlannedRowGroup<S>>,
    sizes: Option<Seq<u64>>,
    config: ProviderConfig,
)
    requires
        config.tiny_table_cache_threshold_rows < usize::MAX,
        (config.tiny_table_cache_threshold_bytes as u64) < u64::MAX,
    ensures
        is_tiny(row_estimate(groups, config), sizes, config) <==> rows_in(groups)
            <= config.tiny_table_cache_threshold_rows && sizes is Some,
{
    estimates_count_the_rows(groups, config);
    counted_up_to(groups, config.tiny_table_cache_threshold_rows, groups.len() as int);
    assert(groups.take(groups.len() as int) =~= groups);
}

/// The table is held in memory under the snapshot that its row groups were planned
/// at, and not at all where it is encrypted, has no row groups, or ids or addresses
/// of rows are asked for.
pub proof fn tables_in_memory_are_of_the_snapshot<S>(
    encrypted: bool,
    pseudo: bool,
    full: Seq<PlannedRowGroup<S>>,
    pruned: Seq<PlannedRowGroup<S>>,
    snapshot: u64,
)
    requires
        forall|i: int| 0 <= i < full.len() ==> (#[trigger] full[i]).snapshot == snapshot,
        forall|i: int| 0 <= i < pruned.len() ==> (#[trigger] pruned[i]).snapshot == snapshot,
    ensures
        memory_snapshot(encrypted, pseudo, full, pruned) is Some <==> !encrypted && !pseudo
            && full.len() > 0,
        memory_snapshot(encrypted, pseudo, full, pruned) matches Some(s) ==> s == snapshot,
{
}

/// The custom scan reads whatever the native reader cannot: encrypted tables,
/// remote files, tables with deleted rows, and the ids and addresses of rows, which
/// stand behind the columns of the table. Columns are decoded in bulk only where
/// that is asked for and no limit is given.
pub proof fn the_native_reader_is_for_plain_scans<S>(
    request: ScanRequest<S>,
    config: ProviderConfig,
    path: ScanPath,
    i: int,
)
    requires
        is_path(request, config, path),
    ensures
        request.encrypted || !request.local || config.native_parquet_threshold == 0 ==> path
            is Custom,
        0 <= i < request.plan.row_groups@.len() && request.plan.row_groups@[i].deletes is Some
            ==> path is Custom,
        *request.projection matches Some(p) ==> (0 <= i < p@.len() && p@[i]
            >= request.schema.fields@.len() ==> path is Custom),
        path is NativeBulk ==> request.bulk_decode && !request.limited,
{
}

/// A scan is served from memory exactly where the table that is held there is of
/// the snapshot that is scanned, and a table is loaded only where its rows are few.
pub proof fn stale_tables_are_not_served<S>(
    sequence: Option<u64>,
    cached: Option<u64>,
    pruned: Seq<PlannedRowGroup<S>>,
    sizes: Option<Seq<u64>>,
    config: ProviderConfig,
)
    requires
        config.tiny_table_cache_threshold_rows < usize::MAX,
        (config.tiny_table_cache_threshold_bytes as u64) < u64::MAX,
    ensures
        first_stage(sequence, cached, pruned, config) is ServeFromMemory <==> sequence is Some
            && cached is Some && sequence->0 == cached->0,
        sequence is None ==> first_stage(sequence, cached, pruned, config) is ReadFiles,
        sequence is Some && sequence != cached ==> if rows_in(pruned)
            > config.tiny_table_cache_threshold_rows {
            first_stage(sequence, cached, pruned, config) is ReadFiles
        } else {
            first_stage(sequence, cached, pruned, config) is ReadSizes
        },
        stage_by_size(pruned, sizes, config) is LoadTable <==> rows_in(pruned)
            <= config.tiny_table_cache_threshold_rows && sizes is Some,
        stage_by_size(pruned, sizes, config) is LoadTable || stage_by_size(pruned, sizes, config)
            is ReadFiles,
{
    small_tables_have_few_rows(pruned, sizes, config);
    small_tables_have_few_rows(pruned, None, config);
    estimates_count_the_rows(pruned, config);
}

} // verus!
