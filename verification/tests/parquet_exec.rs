use std::sync::Arc;

use icefalldb_query::expr::{Expr, Operator};
use icefalldb_query::parquet_exec::groups::{build_file_groups, Candidate, FileSlice};
use icefalldb_query::parquet_exec::{
    bulk_output_positions, native_bulk_decode_projection,
    should_route_single_row_group_to_custom_scan, should_use_native_parquet, NativeParquetConfig,
};
use icefalldb_query::plan::{PlannedRowGroup, RowGroupMeta, ScanPlan, TableSchema};
use icefalldb_query::scalar::{DataType, Field, ScalarValue, Schema};

/// Build a `ScanPlan` whose row groups have the given `(data_path, rows)`.
fn make_scan_plan(row_groups: &[(&str, usize)]) -> ScanPlan<()> {
    ScanPlan {
        table: "t".into(),
        schema: TableSchema {
            columns: Arc::new(Schema { fields: vec![] }),
            partition_by: None,
            agg_group_keys: None,
        },
        row_groups: row_groups
            .iter()
            .map(|(path, rows)| PlannedRowGroup {
                fragment_id: 0,
                data_path: path.to_string(),
                snapshot: 0,
                meta: Arc::new(RowGroupMeta {
                    rows: *rows,
                    row_ids: vec![],
                    stats: (),
                }),
                deletes: None,
                deleted_count: 0,
            })
            .collect(),
    }
}

fn compare(name: &str, op: Operator, value: ScalarValue) -> Expr {
    Expr::BinaryExpr {
        left: Box::new(Expr::Column(name.to_string())),
        op,
        right: Box::new(Expr::Literal(value)),
    }
}

fn value_filter() -> Vec<Expr> {
    vec![compare(
        "value",
        Operator::Gt,
        ScalarValue::Float64(Some(0.5f64.to_bits())),
    )]
}

#[test]
fn single_large_row_group_filtered_routes_to_custom_scan() {
    // One file, one row group, large: native cannot split → custom scan.
    let plan = make_scan_plan(&[("events/cat_0.parquet", 1_000_000)]);
    assert!(should_route_single_row_group_to_custom_scan(
        &plan,
        &value_filter(),
        16
    ));
}

#[test]
fn multiple_files_stay_native() {
    let plan = make_scan_plan(&[
        ("events_wide/a.parquet", 600_000),
        ("events_wide/b.parquet", 600_000),
        ("events_wide/c.parquet", 600_000),
    ]);
    assert!(!should_route_single_row_group_to_custom_scan(
        &plan,
        &value_filter(),
        16
    ));
}

#[test]
fn single_file_split_into_planned_row_groups_routes_to_custom_scan() {
    let plan = make_scan_plan(&[
        ("events/cat_0.parquet", 500_000),
        ("events/cat_0.parquet", 500_000),
    ]);
    assert!(should_route_single_row_group_to_custom_scan(
        &plan,
        &value_filter(),
        16
    ));
}

#[test]
fn unfiltered_scan_stays_native() {
    let plan = make_scan_plan(&[("events/cat_0.parquet", 1_000_000)]);
    assert!(!should_route_single_row_group_to_custom_scan(
        &plan,
        &vec![],
        16
    ));
}

#[test]
fn single_partition_target_stays_native() {
    let plan = make_scan_plan(&[("events/cat_0.parquet", 1_000_000)]);
    assert!(!should_route_single_row_group_to_custom_scan(
        &plan,
        &value_filter(),
        1
    ));
}

#[test]
fn tiny_single_row_group_stays_native() {
    let plan = make_scan_plan(&[("events/tiny.parquet", 5_000)]);
    assert!(!should_route_single_row_group_to_custom_scan(
        &plan,
        &value_filter(),
        16
    ));
}

fn wide_schema() -> Schema {
    Schema {
        fields: ["a", "b", "c", "d"]
            .iter()
            .map(|name| Field {
                name: name.to_string(),
                data_type: DataType::Int64,
                nullable: false,
            })
            .collect(),
    }
}

fn ab_filters() -> Vec<Expr> {
    vec![
        compare("a", Operator::Gt, ScalarValue::Int64(Some(1))),
        compare("b", Operator::Lt, ScalarValue::Int64(Some(2))),
    ]
}

#[test]
fn bulk_decode_fires_when_projection_subset_of_filters() {
    let s = wide_schema();
    // COUNT(*): empty projection ⊆ {a, b} → scan the filter columns.
    assert_eq!(
        native_bulk_decode_projection(&Some(vec![]), &ab_filters(), &s),
        Some(vec![0, 1])
    );
    // Projecting a filter column also fires; result is the deduped union.
    assert_eq!(
        native_bulk_decode_projection(&Some(vec![0]), &ab_filters(), &s),
        Some(vec![0, 1])
    );
    assert_eq!(
        native_bulk_decode_projection(&Some(vec![1, 0]), &ab_filters(), &s),
        Some(vec![0, 1])
    );
}

#[test]
fn bulk_decode_skipped_when_non_filter_column_projected() {
    let s = wide_schema();
    assert_eq!(
        native_bulk_decode_projection(&Some(vec![0, 2]), &ab_filters(), &s),
        None
    );
}

#[test]
fn bulk_decode_skipped_without_filters_or_open_projection() {
    let s = wide_schema();
    assert_eq!(
        native_bulk_decode_projection(&Some(vec![]), &vec![], &s),
        None
    );
    // Open projection (None) reads every column → keep the row filter.
    assert_eq!(native_bulk_decode_projection(&None, &ab_filters(), &s), None);
}

#[test]
fn filters_on_unknown_columns_read_nothing() {
    let filters = vec![Expr::Opaque {
        columns: vec!["z".to_string()],
    }];
    assert_eq!(
        native_bulk_decode_projection(&Some(vec![]), &filters, &wide_schema()),
        None
    );
}

#[test]
fn the_native_reader_needs_local_files_and_enough_columns() {
    let plan = make_scan_plan(&[("a.parquet", 10), ("b.parquet", 10)]);
    let with = |local: bool, columns: usize| {
        should_use_native_parquet(
            local,
            &plan,
            &Some(vec![0, 3]),
            &ab_filters(),
            &wide_schema(),
            16,
            NativeParquetConfig {
                min_filter_columns: columns,
            },
        )
    };
    // Columns a, b and d are referred to; a is counted once.
    assert!(with(true, 3));
    assert!(!with(true, 4));
    assert!(!with(false, 1));
    assert_eq!(NativeParquetConfig::default().min_filter_columns, 1);
}

#[test]
fn bulk_output_is_projected_back() {
    assert_eq!(bulk_output_positions(&vec![2, 5], &vec![2, 5]), None);
    assert_eq!(
        bulk_output_positions(&vec![5, 2, 5], &vec![2, 4, 5]),
        Some(vec![2, 0, 2])
    );
    assert_eq!(bulk_output_positions(&vec![], &vec![1]), Some(vec![]));
}

fn candidate(size: u64, ranges: &[(u64, u64)]) -> Candidate {
    Candidate {
        path: format!("f{size}"),
        size,
        ranges: ranges.to_vec(),
    }
}

fn whole(file: usize) -> FileSlice {
    FileSlice { file, range: None }
}

#[test]
fn large_files_are_split_and_small_ones_packed() {
    let big = 4 * 1024 * 1024;
    let candidates = vec![
        candidate(10, &[(0, 10)]),
        candidate(big, &[(4, 100), (100, 200)]),
        candidate(30, &[(0, 10), (10, 30)]),
        candidate(big - 1, &[(0, 1), (1, 2)]),
        candidate(20, &[(0, 20)]),
    ];
    let groups = build_file_groups(&candidates, 1);
    assert_eq!(
        groups,
        vec![
            vec![FileSlice {
                file: 1,
                range: Some((4, 100))
            }],
            vec![FileSlice {
                file: 1,
                range: Some((100, 200))
            }],
            vec![whole(3)],
            vec![whole(2)],
            vec![whole(4)],
            vec![whole(0)],
        ]
    );
}

#[test]
fn small_files_fill_the_smallest_group() {
    let candidates: Vec<Candidate> = [7, 7, 5, 3, 3, 1, 9, 2, 2]
        .iter()
        .map(|size| candidate(*size, &[]))
        .collect();
    let groups = build_file_groups(&candidates, 1);
    // From the largest: 9, 7, 7, 5, 3, 3, 2, 2, 1.
    assert_eq!(
        groups,
        vec![
            vec![whole(6), whole(5)],
            vec![whole(0), whole(4)],
            vec![whole(1), whole(7)],
            vec![whole(2), whole(3), whole(8)],
        ]
    );
    let total: usize = groups.iter().map(|g| g.len()).sum();
    assert_eq!(total, candidates.len());
}

#[test]
fn no_partition_still_gives_one_group() {
    let candidates = vec![candidate(1, &[]), candidate(2, &[])];
    assert_eq!(build_file_groups(&candidates, 0), vec![vec![whole(1), whole(0)]]);
    assert!(build_file_groups(&vec![], 4).is_empty());
    assert_eq!(build_file_groups(&candidates, usize::MAX).len(), 2);
}
