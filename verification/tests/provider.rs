use std::collections::{HashMap, HashSet};
use std::sync::Arc;

use icefalldb_query::catalog::IcefallDBCatalog;
use icefalldb_query::error::{CoreError, QueryError};
use icefalldb_query::expr::{Expr, Operator};
use icefalldb_query::index_selector::{BTreeIndex, IndexDefinition};
use icefalldb_query::plan::{
    make_full_schema, manifest_live_row_count, manifest_sequence, CommitDelta, FragmentDelta,
    Manifest, PlannedRowGroup, RowGroupMeta, ScanPlan, TableSchema,
};
use icefalldb_query::predicate::{Literal, Predicate};
use icefalldb_query::provider::indexes::{
    after_attempt, index_attempts, index_names, IndexAttempt, IndexRef, IndexStep,
};
use icefalldb_query::provider::locate::{locate_rows, FragLocate, LocateOutcome};
use icefalldb_query::provider::route::{
    begin_scan, choose_scan_path, classify_filter, estimate_tiny_table_rows,
    has_pseudo_in_projection, index_candidates, is_tiny_table, memory_failed, pruning_predicates,
    sizes_found, tiny_table_sequence, FilterPushDown, ScanPath, ScanRequest, ScanStage,
};
use icefalldb_query::provider::snapshot::{
    require_columns, DeltaStep, PlanLoad, PlanStep, SnapshotState,
};
use icefalldb_query::scalar::{DataType, Field, ScalarValue, Schema};
use icefalldb_query::storage::{offset_of_row_id, RowIdSegment};
use icefalldb_query::{IcefallDBTableProvider, MatchLoc, ProviderConfig};

#[test]
fn offset_of_row_id_inverts_segments() {
    // Two concatenated segments: Range[100..105) then Sorted[7, 9, 42].
    let segs = vec![
        RowIdSegment::Range {
            start: 100,
            count: 5,
        },
        RowIdSegment::Sorted {
            ids: vec![7, 9, 42],
        },
    ];
    // Range covers physical offsets 0..5.
    assert_eq!(offset_of_row_id(&segs, 100), Some(0));
    assert_eq!(offset_of_row_id(&segs, 104), Some(4));
    // Sorted segment is appended after the 5 range rows.
    assert_eq!(offset_of_row_id(&segs, 7), Some(5));
    assert_eq!(offset_of_row_id(&segs, 9), Some(6));
    assert_eq!(offset_of_row_id(&segs, 42), Some(7));
    // Absent ids resolve to None (caller falls back / skips).
    assert_eq!(offset_of_row_id(&segs, 105), None);
    assert_eq!(offset_of_row_id(&segs, 8), None);
    // Empty (legacy fragment) → None.
    assert_eq!(offset_of_row_id(&vec![], 100), None);
}

fn field(name: &str, data_type: DataType) -> Field {
    Field {
        name: name.to_string(),
        data_type,
        nullable: true,
    }
}

fn test_schema() -> Schema {
    Schema {
        fields: vec![field("a", DataType::Int32), field("b", DataType::Utf8)],
    }
}

fn compare(name: &str, op: Operator, value: ScalarValue) -> Expr {
    Expr::BinaryExpr {
        left: Box::new(Expr::Column(name.to_string())),
        op,
        right: Box::new(Expr::Literal(value)),
    }
}

/// `b LIKE '%x'`
fn like() -> Expr {
    Expr::Opaque {
        columns: vec!["b".to_string()],
    }
}

#[test]
fn test_exact_translatable() {
    let schema = test_schema();
    let expr = compare("a", Operator::Gt, ScalarValue::Int32(Some(20)));
    assert_eq!(
        classify_filter(&expr, &schema, None),
        FilterPushDown::Exact
    );
}

#[test]
fn test_unsupported_untranslatable() {
    let schema = test_schema();
    assert_eq!(
        classify_filter(&like(), &schema, None),
        FilterPushDown::Unsupported
    );
}

#[test]
fn test_partition_predicate_exact() {
    let schema = test_schema();
    let partition_by = vec!["b".to_string()];
    let expr = compare(
        "b",
        Operator::Eq,
        ScalarValue::Utf8(Some("cat_0".to_string())),
    );
    assert_eq!(
        classify_filter(&expr, &schema, Some(&partition_by)),
        FilterPushDown::Exact
    );
}

#[test]
fn test_partition_range_predicate_exact() {
    let schema = test_schema();
    let partition_by = vec!["a".to_string()];
    let expr = compare("a", Operator::Gt, ScalarValue::Int32(Some(20)));
    assert_eq!(
        classify_filter(&expr, &schema, Some(&partition_by)),
        FilterPushDown::Exact
    );
}

#[test]
fn test_non_partition_predicate_still_unsupported() {
    let schema = test_schema();
    let partition_by = vec!["a".to_string()];
    // LIKE on a non-partition column remains unsupported.
    assert_eq!(
        classify_filter(&like(), &schema, Some(&partition_by)),
        FilterPushDown::Unsupported
    );
}

#[test]
fn a_partition_literal_need_not_be_translatable() {
    let date = |op: Operator| {
        compare(
            "b",
            op,
            ScalarValue::Other {
                data_type: "Date32".to_string(),
                text: Some("2020-01-01".to_string()),
            },
        )
    };
    let partition_by = vec!["b".to_string()];
    let schema = test_schema();
    assert_eq!(
        classify_filter(&date(Operator::LtEq), &schema, Some(&partition_by)),
        FilterPushDown::Exact
    );
    assert_eq!(
        classify_filter(&date(Operator::NotEq), &schema, Some(&partition_by)),
        FilterPushDown::Unsupported
    );
    assert_eq!(
        classify_filter(&date(Operator::LtEq), &schema, None),
        FilterPushDown::Unsupported
    );
}

#[test]
fn only_translatable_filters_prune() {
    let filters = vec![
        like(),
        compare("a", Operator::Lt, ScalarValue::Int32(Some(3))),
    ];
    assert_eq!(
        pruning_predicates(&filters, &test_schema()),
        vec![Predicate::Lt {
            column: "a".to_string(),
            value: Literal::Int64(3)
        }]
    );
}

// Locating rows

fn frag(fragment_id: u64, ids: Vec<u64>, deleted: u64) -> FragLocate {
    FragLocate {
        fragment_id,
        row_ids: vec![RowIdSegment::Sorted { ids }],
        deletes: if deleted > 0 {
            Some(format!("_deletions/{fragment_id}"))
        } else {
            None
        },
        deleted_count: deleted,
    }
}

fn loc(fragment_id: u64, offset: u32, row_id: u64) -> MatchLoc {
    MatchLoc {
        fragment_id,
        offset,
        row_id,
    }
}

#[test]
fn an_updated_row_is_found_where_it_moved_to() {
    let frags = vec![frag(1, vec![10, 11, 12], 1), frag(2, vec![11], 0)];
    let mut deletions: HashMap<u64, HashSet<u32>> = HashMap::new();
    match locate_rows(&vec![11, 12], &frags, &deletions) {
        LocateOutcome::ReadDeletions(0) => {}
        _ => panic!("the deletion vector of the first fragment is needed"),
    }
    deletions.insert(1, HashSet::from([1]));
    match locate_rows(&vec![11, 12], &frags, &deletions) {
        LocateOutcome::Located(locs) => assert_eq!(locs, vec![loc(2, 0, 11), loc(1, 2, 12)]),
        _ => panic!("both rows are live"),
    }
}

#[test]
fn deleted_rows_are_no_match() {
    let frags = vec![frag(1, vec![10, 11], 2)];
    let deletions = HashMap::from([(1, HashSet::from([0, 1]))]);
    match locate_rows(&vec![10, 11], &frags, &deletions) {
        LocateOutcome::Located(locs) => assert!(locs.is_empty()),
        _ => panic!("nothing is live"),
    }
}

#[test]
fn rows_that_are_nowhere_or_live_twice_are_scanned_for() {
    let none: HashMap<u64, HashSet<u32>> = HashMap::new();
    let frags = vec![frag(1, vec![10], 0), frag(2, vec![10, 11], 0)];
    assert!(matches!(
        locate_rows(&vec![11, 10], &frags, &none),
        LocateOutcome::Scan
    ));
    assert!(matches!(
        locate_rows(&vec![99], &frags, &none),
        LocateOutcome::Scan
    ));
    assert!(matches!(
        locate_rows(&vec![11], &frags, &none),
        LocateOutcome::Located(_)
    ));
}

// Indexes

fn generation(base: Option<&str>, deltas: usize) -> IndexRef {
    IndexRef {
        base: base.map(|b| b.to_string()),
        deltas: vec!["d".to_string(); deltas],
    }
}

#[test]
fn a_snapshot_of_the_past_has_only_recorded_indexes() {
    let generations = vec![("a".to_string(), generation(None, 0))];
    let listed = vec!["b".to_string(), "a".to_string(), "b".to_string()];
    assert_eq!(
        index_names(&generations, &listed, false),
        vec!["a".to_string(), "b".to_string()]
    );
    assert_eq!(
        index_names(&generations, &listed, true),
        vec!["a".to_string()]
    );
}

#[test]
fn indexes_are_opened_the_fastest_way() {
    let generations = vec![
        ("fresh".to_string(), generation(Some("base"), 0)),
        ("changed".to_string(), generation(Some("base"), 1)),
        ("bare".to_string(), generation(None, 0)),
    ];
    let of = |name: &str, local: bool| index_attempts(&generations, &name.to_string(), local);
    let base = || "base".to_string();
    assert_eq!(
        of("fresh", true),
        vec![
            IndexAttempt::Learned(base()),
            IndexAttempt::Binary(base()),
            IndexAttempt::Generation
        ]
    );
    assert_eq!(
        of("changed", true),
        vec![IndexAttempt::Binary(base()), IndexAttempt::Generation]
    );
    assert_eq!(of("changed", false), vec![IndexAttempt::Generation]);
    assert_eq!(of("bare", true), vec![IndexAttempt::Generation]);
    let legacy = || "_indexes/old.json".to_string();
    assert_eq!(
        of("old", true),
        vec![
            IndexAttempt::Learned(legacy()),
            IndexAttempt::Binary(legacy()),
            IndexAttempt::Legacy
        ]
    );
}

#[test]
fn a_derived_file_has_to_be_of_the_index() {
    let generations = vec![("i".to_string(), generation(Some("base"), 0))];
    let attempts = index_attempts(&generations, &"i".to_string(), true);
    let found = |table: &str, name: &str| {
        Some(IndexDefinition {
            name: name.to_string(),
            table: table.to_string(),
            column: "c".to_string(),
            unique: false,
        })
    };
    let step = |i: usize, f: &Option<IndexDefinition>| after_attempt(&attempts, i, f, "t", "i");
    assert_eq!(step(0, &found("t", "i")), IndexStep::Use);
    assert_eq!(step(0, &found("u", "i")), IndexStep::Next);
    assert_eq!(step(1, &found("t", "j")), IndexStep::Next);
    assert_eq!(step(1, &None), IndexStep::Next);
    assert_eq!(step(2, &found("u", "j")), IndexStep::Use);
    assert_eq!(step(2, &None), IndexStep::Absent);
}

// Snapshots

type Provider = IcefallDBTableProvider<(), u32, u32>;

fn table_schema() -> TableSchema {
    TableSchema {
        columns: Arc::new(test_schema()),
        partition_by: None,
        agg_group_keys: None,
    }
}

fn group(fragment_id: u64, rows: usize) -> PlannedRowGroup<()> {
    PlannedRowGroup {
        fragment_id,
        data_path: format!("f{fragment_id}"),
        snapshot: 7,
        meta: Arc::new(RowGroupMeta {
            rows,
            row_ids: vec![],
            stats: (),
        }),
        deletes: None,
        deleted_count: 0,
    }
}

fn plan(groups: Vec<PlannedRowGroup<()>>) -> ScanPlan<()> {
    ScanPlan {
        table: "t".to_string(),
        schema: table_schema(),
        row_groups: groups,
    }
}

fn provider(cached: Option<(u64, ScanPlan<()>)>) -> Provider {
    IcefallDBTableProvider::from_snapshot(
        "t",
        ProviderConfig::default(),
        SnapshotState::unloaded("t", &table_schema(), Arc::new(1), 7),
        cached,
    )
}

fn delta(previous: u64, new: u64) -> CommitDelta<()> {
    CommitDelta {
        previous_sequence: previous,
        new_sequence: new,
        noop: false,
        removed_fragment_ids: vec![2],
        updated_fragments: vec![FragmentDelta {
            fragment_id: 1,
            new_deletes: Some("_deletions/1".to_string()),
            new_deleted_count: 3,
        }],
        added_row_groups: vec![group(9, 5)],
        schema_changed: false,
    }
}

#[test]
fn a_warm_provider_applies_a_delta() {
    let mut p = provider(Some((7, plan(vec![group(1, 10), group(2, 20), group(3, 30)]))));
    let d = delta(7, 8);
    assert_eq!(p.delta_step(&d).unwrap(), DeltaStep::Incremental);
    let after = p.plan_after(&d, &None);
    p.install_delta(&d, after, &None, Arc::new(2));
    assert_eq!(p.pinned_sequence(), 8);
    assert_eq!(p.apply_delta_count(), 1);
    assert_eq!(*p.snapshot.derived, 2);
    let groups = &p.cached_plan().unwrap().row_groups;
    let ids: Vec<u64> = groups.iter().map(|g| g.fragment_id).collect();
    assert_eq!(ids, vec![1, 3, 9]);
    assert_eq!(groups[0].deletes, Some("t/_deletions/1".to_string()));
    assert_eq!(groups[0].deleted_count, 3);
    assert_eq!(groups[1].deletes, None);
    // The next delta finds the provider warm.
    assert_eq!(p.delta_step(&delta(8, 9)).unwrap(), DeltaStep::Incremental);
}

#[test]
fn a_stale_delta_is_refused() {
    let p = provider(None);
    assert_eq!(
        p.delta_step(&delta(6, 8)).unwrap_err(),
        QueryError::Other(
            "provider pinned to sequence 7 but delta starts from 6; refresh stale".to_string()
        )
    );
    let mut nothing = delta(6, 8);
    nothing.noop = true;
    assert_eq!(p.delta_step(&nothing).unwrap(), DeltaStep::Noop);
}

#[test]
fn a_cold_provider_forgets_what_it_has() {
    let mut p = provider(Some((6, plan(vec![group(1, 10)]))));
    p.tiny_table_cache = Some((7, Arc::new(5)));
    let mut d = delta(7, 8);
    d.schema_changed = true;
    assert_eq!(p.delta_step(&d).unwrap(), DeltaStep::Invalidate);
    let wider = TableSchema {
        columns: Arc::new(Schema {
            fields: vec![field("z", DataType::Int8)],
        }),
        partition_by: None,
        agg_group_keys: None,
    };
    p.invalidate_to_committed_delta(&d, &Some(wider), Arc::new(3));
    assert_eq!(p.pinned_sequence(), 8);
    assert!(p.cached_plan().is_none());
    assert!(p.tiny_table_cache.is_none());
    assert_eq!(p.snapshot.data_schema.fields[0].name, "z");
    assert_eq!(p.snapshot.full_schema.fields.len(), 3);
    assert!(p.snapshot.scan_plan.row_groups.is_empty());
}

#[test]
fn a_provider_is_never_rolled_back() {
    let mut p = provider(None);
    assert!(!p.repin_snapshot(&table_schema(), Arc::new(9), 6));
    assert_eq!(p.pinned_sequence(), 7);
    assert_eq!(*p.snapshot.derived, 1);
    assert!(p.repin_snapshot(&table_schema(), Arc::new(9), 8));
    assert_eq!(p.pinned_sequence(), 8);
    assert_eq!(*p.snapshot.derived, 9);
}

#[test]
fn a_plan_is_kept_only_for_the_pinned_sequence() {
    let mut p = provider(None);
    let mut load = PlanLoad::new();
    assert_eq!(load.next(&p), PlanStep::Load);
    assert!(load.must_repin(8));
    assert!(!load.must_repin(7));
    assert!(!p.install_plan(8, plan(vec![])));
    assert!(p.cached_plan().is_none());
    assert!(p.install_plan(7, plan(vec![group(1, 1)])));
    assert_eq!(load.next(&p), PlanStep::UseCached);
    assert_eq!(p.cached_plan().unwrap().row_groups.len(), 1);
}

#[test]
fn loading_a_plan_gives_up_after_some_attempts() {
    let p = provider(None);
    let mut load = PlanLoad::new();
    for _ in 0..16 {
        assert_eq!(load.next(&p), PlanStep::Load);
    }
    assert_eq!(load.next(&p), PlanStep::LoadUncached);
}

#[test]
fn a_public_provider_takes_over_a_snapshot() {
    let mut public = provider(Some((7, plan(vec![]))));
    let mut source = provider(Some((7, plan(vec![group(1, 10)]))));
    let d = delta(7, 8);
    let after = source.plan_after(&d, &None);
    source.install_delta(&d, after, &None, Arc::new(4));
    let materialized = source.cached_plan().unwrap().copied();
    public.replace_snapshot_from(&source.snapshot, materialized);
    assert_eq!(public.pinned_sequence(), 8);
    assert_eq!(public.apply_delta_count(), 1);
    assert_eq!(public.cached_plan().unwrap().row_groups.len(), 2);
    assert_eq!(public.table(), "t");
    assert!(public.config().wal_mode);
}

#[test]
fn the_full_schema_ends_with_id_and_address() {
    let full = make_full_schema(&test_schema());
    let names: Vec<&str> = full.fields.iter().map(|f| f.name.as_str()).collect();
    assert_eq!(names, vec!["a", "b", "_rowid", "_rowaddr"]);
    assert_eq!(full.fields[3].data_type, DataType::UInt64);
    assert!(!full.fields[2].nullable);
    assert_eq!(
        require_columns("t", None).unwrap_err(),
        QueryError::Other("table 't' has a column with an unsupported Arrow type".to_string())
    );
}

#[test]
fn live_rows_are_counted_from_the_manifest() {
    let manifest = |counts: Option<Vec<usize>>| Manifest {
        sequence: 3,
        row_counts: counts,
        deleted_counts: vec![1, 50],
    };
    assert_eq!(
        manifest_live_row_count(&manifest(Some(vec![10, 20]))),
        Some(9)
    );
    assert_eq!(manifest_live_row_count(&manifest(Some(vec![10]))), None);
    assert_eq!(manifest_live_row_count(&manifest(None)), None);
    assert_eq!(manifest_sequence(&Some(manifest(None))), 3);
    assert_eq!(manifest_sequence(&None), 0);
}

#[test]
fn an_empty_table_has_an_empty_plan() {
    let catalog = IcefallDBCatalog::new("t");
    assert_eq!(catalog.table(), "t");
    let missing = catalog.require_committed(None::<u8>).unwrap_err();
    assert!(IcefallDBCatalog::is_empty_table(&missing));
    assert_eq!(
        missing,
        QueryError::Core(CoreError::EmptyTable("t".to_string()))
    );
    let plan: ScanPlan<()> = catalog.empty_plan(Some(table_schema())).unwrap();
    assert!(plan.row_groups.is_empty());
    match catalog.empty_plan::<()>(None) {
        Err(e) => {
            assert!(!IcefallDBCatalog::is_empty_table(&e));
            assert_eq!(
                e,
                QueryError::Core(CoreError::SchemaNotFound {
                    path: "t/_schema.json".to_string()
                })
            );
        }
        Ok(_) => panic!("there is no schema"),
    }
}

// Scans

#[test]
fn row_ids_are_asked_for_behind_the_data_columns() {
    assert!(!has_pseudo_in_projection(&None, 2));
    assert!(!has_pseudo_in_projection(&Some(vec![0, 1]), 2));
    assert!(has_pseudo_in_projection(&Some(vec![0, 2]), 2));
}

#[test]
fn small_tables_are_held_in_memory() {
    let config = ProviderConfig {
        tiny_table_cache_threshold_rows: 100,
        tiny_table_cache_threshold_bytes: 1000,
        ..ProviderConfig::default()
    };
    let small = vec![group(1, 60), group(2, 40)];
    let large = vec![group(1, 60), group(2, 41), group(3, 1)];
    assert_eq!(estimate_tiny_table_rows(&small, 100).rows, 100);
    assert!(!estimate_tiny_table_rows(&small, 100).exceeded);
    assert_eq!(estimate_tiny_table_rows(&large, 100).rows, 101);
    assert!(estimate_tiny_table_rows(&large, 100).exceeded);
    let estimate = estimate_tiny_table_rows(&small, 100);
    assert!(is_tiny_table(estimate, &Some(vec![u64::MAX, 2]), &config));
    assert!(!is_tiny_table(estimate, &None, &config));

    let sequence = tiny_table_sequence(false, false, &small, &vec![]);
    assert_eq!(sequence, Some(7));
    assert_eq!(tiny_table_sequence(true, false, &small, &small), None);
    assert_eq!(tiny_table_sequence(false, true, &small, &small), None);
    assert_eq!(tiny_table_sequence::<()>(false, false, &vec![], &vec![]), None);

    assert_eq!(
        begin_scan(None, Some(7), &small, &config),
        ScanStage::ReadFiles
    );
    assert_eq!(
        begin_scan(sequence, Some(7), &small, &config),
        ScanStage::ServeFromMemory
    );
    assert_eq!(
        begin_scan(sequence, Some(6), &small, &config),
        ScanStage::ReadSizes
    );
    assert_eq!(memory_failed(&large, &config), ScanStage::ReadFiles);
    assert_eq!(
        sizes_found(&small, &Some(vec![1, 1]), &config),
        ScanStage::LoadTable
    );
    assert_eq!(sizes_found(&small, &None, &config), ScanStage::ReadFiles);
}

#[test]
fn scans_take_the_reader_that_gives_the_right_rows() {
    let config = ProviderConfig::default();
    let many = plan(vec![group(1, 10), group(2, 10)]);
    let mut deleted = plan(vec![group(1, 10), group(2, 10)]);
    deleted.row_groups[1].deletes = Some("d".to_string());
    let filters = vec![compare("a", Operator::Gt, ScalarValue::Int32(Some(1)))];
    let schema = test_schema();
    let both = Some(vec![0, 1]);
    let only_filtered = Some(vec![0]);
    let row_id = Some(vec![2]);
    let choose = |encrypted: bool,
                  plan: &ScanPlan<()>,
                  projection: &Option<Vec<usize>>,
                  limited: bool,
                  bulk_decode: bool,
                  config: &ProviderConfig| {
        choose_scan_path(
            &ScanRequest {
                encrypted,
                local: true,
                plan,
                projection,
                filters: &filters,
                schema: &schema,
                limited,
                bulk_decode,
            },
            config,
        )
    };
    assert_eq!(
        choose(false, &many, &both, false, true, &config),
        ScanPath::Native
    );
    assert_eq!(
        choose(false, &many, &only_filtered, false, true, &config),
        ScanPath::NativeBulk(vec![0])
    );
    assert_eq!(
        choose(false, &many, &only_filtered, true, true, &config),
        ScanPath::Native
    );
    assert_eq!(
        choose(false, &many, &only_filtered, false, false, &config),
        ScanPath::Native
    );
    assert_eq!(
        choose(true, &many, &both, false, true, &config),
        ScanPath::Custom
    );
    assert_eq!(
        choose(false, &deleted, &both, false, true, &config),
        ScanPath::Custom
    );
    assert_eq!(
        choose(false, &many, &row_id, false, true, &config),
        ScanPath::Custom
    );
    let never = ProviderConfig {
        native_parquet_threshold: 0,
        ..config
    };
    assert_eq!(
        choose(false, &many, &both, false, true, &never),
        ScanPath::Custom
    );
}

#[test]
fn indexes_narrow_only_several_row_groups() {
    let index = BTreeIndex::new(
        IndexDefinition {
            name: "idx".to_string(),
            table: "t".to_string(),
            column: "c".to_string(),
            unique: false,
        },
        1,
        vec![("x".to_string(), vec![5, 9])],
    );
    let indexes = vec![index];
    let filters = vec![Expr::BinaryExpr {
        left: Box::new(Expr::Column("c".to_string())),
        op: Operator::Eq,
        right: Box::new(Expr::Literal(ScalarValue::Utf8(Some("x".to_string())))),
    }];
    let ids = index_candidates(&indexes, &filters, &vec![group(1, 10), group(2, 10)]);
    assert_eq!(ids, Some(HashSet::from([5, 9])));
    assert_eq!(index_candidates(&indexes, &filters, &vec![group(1, 10)]), None);
    let none: Vec<Expr> = vec![];
    assert_eq!(
        index_candidates(&indexes, &none, &vec![group(1, 10), group(2, 10)]),
        None
    );
}
