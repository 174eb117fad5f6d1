use icefalldb_query::error::{CoreError, QueryError};
use icefalldb_query::expr::{Expr, Operator};
use icefalldb_query::mutate::assign::{
    assignment_query, check_evaluated_rows, enforce_non_nullable_post_image, matched_source_batch,
    null_columns_to_cast,
};
use icefalldb_query::mutate::batch::{BatchRun, BatchStep};
use icefalldb_query::mutate::dedup::{dedup_source, DupPolicy, RecordBatchRow};
use icefalldb_query::mutate::merge::{
    probe_read, record_batch_from_rows, require_unique_key_index, scalar_value_to_datafusion_lit,
    IndexEntry, MergeRun, MergeStats, ProbeRead,
};
use icefalldb_query::mutate::sql_text::{keys_by_id_query, quote_sql_identifier, rows_by_id_query};
use icefalldb_query::mutate::statement::{
    coerce_to_table, group_by_fragment, parse_statement, prepare_assignments,
    require_source_batches, resolve_wal_mode, SharedColumn,
};
use icefalldb_query::mutate::update::{
    expr_as_literal, pinned_value, scanned_locations, try_blind_determined_update,
    update_projection, update_read, ProjectionItem, UpdateRead,
};
use icefalldb_query::scalar::{DataType, Field, RecordBatch, ScalarValue, Schema};
use icefalldb_query::storage::{match_loc, MatchLoc};

fn field(name: &str, nullable: bool) -> Field {
    Field {
        name: name.to_string(),
        data_type: DataType::Int64,
        nullable,
    }
}

fn num(v: i64) -> ScalarValue {
    ScalarValue::Int64(Some(v))
}

fn text(v: &str) -> ScalarValue {
    ScalarValue::Utf8(Some(v.to_string()))
}

/// A batch of 64-bit numbers from names and values.
fn make_batch(cols: &[(&str, &[i64])]) -> RecordBatch {
    RecordBatch {
        schema: Schema {
            fields: cols.iter().map(|(name, _)| field(name, true)).collect(),
        },
        columns: cols
            .iter()
            .map(|(_, vals)| vals.iter().map(|v| num(*v)).collect())
            .collect(),
        num_rows: cols[0].1.len(),
    }
}

fn says<T>(result: Result<T, QueryError>, text: &str) {
    match result {
        Err(QueryError::Other(message)) => assert_eq!(message, text),
        Err(other) => panic!("another error: {other:?}"),
        Ok(_) => panic!("expected an error"),
    }
}

#[test]
fn duplicate_matched_keys_are_a_cardinality_violation() {
    let src = make_batch(&[("id", &[7, 7]), ("v", &[1, 2])]);

    // Error policy: duplicate key must be rejected.
    assert!(
        dedup_source(&src, "id", DupPolicy::Error).is_err(),
        "duplicate key must be an error under DupPolicy::Error"
    );

    // LastWriterWins: only one entry, value is from the last row (v == 2).
    let lww = dedup_source(&src, "id", DupPolicy::LastWriterWins).unwrap();
    assert_eq!(lww.len(), 1, "deduped map must have exactly one entry");
    let row = lww.get(&num(7)).expect("key 7 must be present");
    assert_eq!(
        row.get_i64("v"),
        2,
        "LastWriterWins must keep the last row (v=2)"
    );
}

#[test]
fn distinct_keys_all_survive_in_insertion_order() {
    // Three rows with distinct keys: 10, 20, 30 in that order.
    let src = make_batch(&[("id", &[10, 20, 30]), ("v", &[100, 200, 300])]);

    for policy in [DupPolicy::Error, DupPolicy::LastWriterWins] {
        let ds = dedup_source(&src, "id", policy).unwrap();
        assert_eq!(ds.len(), 3, "all 3 distinct keys must survive");

        // Insertion order must be preserved (10 → 20 → 30).
        let keys: Vec<_> = ds.by_key.iter().map(|(k, _)| k.copied()).collect();
        assert_eq!(
            keys,
            vec![num(10), num(20), num(30)],
            "insertion order must be 10, 20, 30"
        );

        // Values are correct.
        assert_eq!(ds.get(&num(10)).unwrap().get_i64("v"), 100);
        assert_eq!(ds.get(&num(20)).unwrap().get_i64("v"), 200);
        assert_eq!(ds.get(&num(30)).unwrap().get_i64("v"), 300);
    }
}

#[test]
fn null_key_is_always_rejected() {
    // Row 0: id=NULL, v=1.
    let src = RecordBatch {
        schema: Schema {
            fields: vec![field("id", true), field("v", true)],
        },
        columns: vec![
            vec![ScalarValue::Int64(None), num(42)],
            vec![num(1), num(2)],
        ],
        num_rows: 2,
    };

    assert!(
        dedup_source(&src, "id", DupPolicy::Error).is_err(),
        "null key must be rejected under DupPolicy::Error"
    );
    assert!(
        dedup_source(&src, "id", DupPolicy::LastWriterWins).is_err(),
        "null key must be rejected under DupPolicy::LastWriterWins"
    );
}

#[test]
fn refused_sources_say_why() {
    let src = make_batch(&[("id", &[1, 2, 1]), ("v", &[1, 2, 3])]);
    says(
        dedup_source(&src, "key", DupPolicy::Error),
        "MERGE key column 'key' not found in source",
    );
    match dedup_source(&src, "id", DupPolicy::Error) {
        Err(QueryError::DuplicateMergeKey { key, slot, row }) => {
            assert_eq!((key, slot, row), (num(1), 0, 2));
        }
        _ => panic!("expected a repeated key"),
    }
    let mut nulls = make_batch(&[("id", &[1, 2])]);
    nulls.columns[0][1] = ScalarValue::Int64(None);
    says(
        dedup_source(&nulls, "id", DupPolicy::LastWriterWins),
        "MERGE source contains a NULL value in key column 'id' at row 1; null merge keys are not permitted",
    );
}

#[test]
fn text_of_any_width_is_the_same_key() {
    let src = RecordBatch {
        schema: Schema {
            fields: vec![field("k", true)],
        },
        columns: vec![vec![
            ScalarValue::LargeUtf8(Some("a".to_string())),
            ScalarValue::Utf8View(Some("a".to_string())),
        ]],
        num_rows: 2,
    };
    let ds = dedup_source(&src, "k", DupPolicy::LastWriterWins).unwrap();
    assert_eq!(ds.len(), 1);
    assert!(!ds.is_empty());
    assert!(ds.get(&text("a")).is_some());
}

fn index(name: &str, table: &str, column: &str, kind: &str, unique: bool) -> IndexEntry {
    IndexEntry {
        name: name.to_string(),
        table: table.to_string(),
        column: column.to_string(),
        index_type: kind.to_string(),
        unique,
    }
}

#[test]
fn a_merge_needs_a_unique_btree_index() {
    let mut indexes = vec![
        index("a", "t", "id", "btree", false),
        index("b", "u", "id", "btree", true),
        index("c", "t", "v", "btree", true),
        index("d", "t", "id", "hash", true),
    ];
    says(
        require_unique_key_index(&indexes, "t", "id"),
        "MERGE INTO t requires a UNIQUE index on id",
    );
    indexes.push(index("e", "t", "id", "btree", true));
    indexes.push(index("f", "t", "id", "btree", true));
    assert_eq!(require_unique_key_index(&indexes, "t", "id").unwrap(), "e");
}

#[test]
fn keys_that_cannot_be_probed_for_are_refused() {
    assert_eq!(
        scalar_value_to_datafusion_lit(&ScalarValue::LargeUtf8(Some("x".to_string()))).unwrap(),
        Expr::Literal(text("x"))
    );
    assert_eq!(
        scalar_value_to_datafusion_lit(&ScalarValue::UInt8(Some(3))).unwrap(),
        Expr::Literal(ScalarValue::UInt8(Some(3)))
    );
    for key in [
        ScalarValue::Boolean(Some(true)),
        ScalarValue::Float64(Some(1)),
        ScalarValue::Int64(None),
    ] {
        assert_eq!(
            scalar_value_to_datafusion_lit(&key).unwrap_err(),
            QueryError::UnsupportedMergeKey(key)
        );
    }
}

#[test]
fn probes_cover_the_keys_in_chunks() {
    let ids: Vec<i64> = (0..2500).collect();
    let src = make_batch(&[("id", &ids)]);
    let mut run = MergeRun::start("t", "id", "t_id", &src).unwrap();
    let mut sizes = Vec::new();
    while let Some(probe) = run.next_probe().unwrap() {
        match probe {
            Expr::InList {
                expr,
                list,
                negated,
            } => {
                assert_eq!(*expr, Expr::Column("id".to_string()));
                assert!(!negated);
                sizes.push(list.len());
            }
            other => panic!("unexpected probe {other:?}"),
        }
    }
    assert_eq!(sizes, vec![1000, 1000, 500]);
    assert!(run.next_probe().unwrap().is_none());
}

#[test]
fn source_rows_are_routed_by_their_live_rows() {
    let src = make_batch(&[("id", &[1, 2, 3]), ("v", &[10, 20, 30])]);
    let mut run = MergeRun::start("t", "id", "t_id", &src).unwrap();
    assert!(run.next_probe().unwrap().is_some());
    run.record_probe(vec![num(3), num(1)], &vec![30, 10], &vec![(5 << 32) | 7, 2])
        .unwrap();
    assert!(run.next_probe().unwrap().is_none());
    let routing = run.route();
    let matched: Vec<i64> = routing
        .matched_rows
        .iter()
        .map(|r| r.get_i64("id"))
        .collect();
    assert_eq!(matched, vec![1, 3]);
    assert_eq!(
        routing.matched_locs,
        vec![
            MatchLoc {
                fragment_id: 0,
                offset: 2,
                row_id: 10
            },
            MatchLoc {
                fragment_id: 5,
                offset: 7,
                row_id: 30
            },
        ]
    );
    assert_eq!(routing.unmatched_rows.len(), 1);
    assert_eq!(routing.unmatched_rows[0].get_i64("v"), 20);
    assert!(!routing.is_empty());
    let stats = routing.stats();
    assert_eq!(
        stats,
        MergeStats {
            updated: 2,
            inserted: 1
        }
    );
    assert_eq!(stats.affected(), 3);
    assert_eq!(MergeStats::default().affected(), 0);
}

#[test]
fn a_second_live_row_of_a_key_is_a_violation() {
    let src = make_batch(&[("id", &[1, 2])]);
    let mut run = MergeRun::start("t", "id", "t_id", &src).unwrap();
    run.record_probe(vec![num(1)], &vec![1], &vec![1]).unwrap();
    assert_eq!(
        run.record_probe(vec![num(2), num(1)], &vec![2, 3], &vec![2, 3])
            .unwrap_err(),
        QueryError::Core(CoreError::UniqueKeyViolation {
            table: "t".to_string(),
            index: "t_id".to_string(),
            key: num(1),
        })
    );
}

#[test]
fn a_chunk_is_read_as_the_index_says() {
    assert_eq!(probe_read("k", "t", &None), ProbeRead::Scan);
    assert_eq!(probe_read("k", "t", &Some(vec![])), ProbeRead::Skip);
    assert_eq!(
        probe_read("k", "a\"b", &Some(vec![7, 12])),
        ProbeRead::ByRowIds(
            "SELECT \"k\", _rowid, _rowaddr FROM \"a\"\"b\" WHERE _rowid IN (7, 12)".to_string()
        )
    );
}

#[test]
fn identifiers_are_quoted_with_doubled_quotes() {
    assert_eq!(quote_sql_identifier("a"), "\"a\"");
    assert_eq!(quote_sql_identifier(""), "\"\"");
    assert_eq!(quote_sql_identifier("a\"; DROP"), "\"a\"\"; DROP\"");
    assert_eq!(
        rows_by_id_query("t", &vec![0, 18446744073709551615]),
        "SELECT * FROM \"t\" WHERE _rowid IN (0, 18446744073709551615)"
    );
    assert_eq!(
        keys_by_id_query("id", "t", &vec![1]),
        "SELECT \"id\", _rowid, _rowaddr FROM \"t\" WHERE _rowid IN (1)"
    );
}

#[test]
fn rows_are_laid_out_by_name_with_nulls_for_what_they_lack() {
    let rows = vec![
        RecordBatchRow {
            columns: vec!["b".to_string(), "a".to_string()],
            values: vec![num(2), num(1)],
        },
        RecordBatchRow {
            columns: vec!["a".to_string()],
            values: vec![num(3)],
        },
    ];
    let schema = Schema {
        fields: vec![field("a", true), field("b", true)],
    };
    let batch = record_batch_from_rows(&rows, &schema);
    assert_eq!(batch.num_rows, 2);
    assert_eq!(batch.columns[0], vec![num(1), num(3)]);
    assert_eq!(batch.columns[1], vec![num(2), ScalarValue::Int64(None)]);
    assert_eq!(record_batch_from_rows(&vec![], &schema).columns.len(), 2);
}

#[test]
fn matched_rows_are_numbered() {
    let src = make_batch(&[("id", &[5, 6])]);
    let rows = vec![
        RecordBatchRow::from_batch(&src, 1),
        RecordBatchRow::from_batch(&src, 0),
    ];
    let batch = matched_source_batch(&src.schema, &rows).unwrap();
    assert_eq!(batch.schema.fields[1].name, "__merge_idx__");
    assert_eq!(batch.columns[0], vec![num(6), num(5)]);
    assert_eq!(batch.columns[1], vec![num(0), num(1)]);
    let wider = Schema {
        fields: vec![field("id", true), field("gone", true)],
    };
    says(
        matched_source_batch(&wider, &rows),
        "MERGE: matched source row missing column 'gone'",
    );
}

#[test]
fn assignments_are_evaluated_by_one_query() {
    let fields = vec![field("id", false), field("v", true)];
    let sql = assignment_query(
        "t",
        "id",
        "src",
        &fields,
        &vec![("v".to_string(), "src.v + 1".to_string())],
    );
    assert_eq!(
        sql,
        "SELECT \"t\".\"id\" AS \"id\", (src.v + 1) AS \"v\", \"src\".\"__merge_idx__\" \
         FROM \"t\" JOIN \"__icefall_merge_src\" AS \"src\" ON \"t\".\"id\" = \"src\".\"id\" \
         ORDER BY \"src\".\"__merge_idx__\""
    );
}

#[test]
fn evaluated_rows_are_checked() {
    assert!(check_evaluated_rows(Some(3), 3).is_ok());
    says(
        check_evaluated_rows(None, 3),
        "MERGE assignment evaluation produced no rows",
    );
    says(
        check_evaluated_rows(Some(2), 3),
        "MERGE assignment evaluation produced 2 rows, expected 3",
    );
    let fields = vec![field("id", false), field("v", true)];
    assert_eq!(
        null_columns_to_cast(&vec![DataType::Int64, DataType::Null, DataType::Int64], &fields)
            .unwrap(),
        vec![false, true]
    );
    says(
        null_columns_to_cast(&vec![DataType::Null, DataType::Null], &fields),
        "MERGE UPDATE SET assigns NULL to non-nullable column 'id'",
    );
    assert!(enforce_non_nullable_post_image("t", &fields, &vec![0, 9]).is_ok());
    assert_eq!(
        enforce_non_nullable_post_image("t", &fields, &vec![4, 0]).unwrap_err(),
        QueryError::Core(CoreError::SchemaMismatch {
            column: "id".to_string(),
            expected: "non-nullable column received 4 NULL value(s) from SET expression"
                .to_string(),
            path: "t".to_string(),
        })
    );
}

fn col(name: &str) -> Expr {
    Expr::Column(name.to_string())
}

fn binary(left: Expr, op: Operator, right: Expr) -> Expr {
    Expr::BinaryExpr {
        left: Box::new(left),
        op,
        right: Box::new(right),
    }
}

fn full_schema() -> Schema {
    Schema {
        fields: vec![
            field("id", false),
            field("v", true),
            field("_rowid", false),
            field("_rowaddr", false),
        ],
    }
}

#[test]
fn literals_are_seen_through_aliases_only() {
    let alias = Expr::Alias {
        expr: Box::new(Expr::Literal(num(3))),
        name: "x".to_string(),
    };
    assert_eq!(expr_as_literal(&alias), Some(num(3)));
    assert_eq!(expr_as_literal(&Expr::Opaque { columns: vec![] }), None);
}

#[test]
fn equalities_under_and_pin_columns() {
    let a = binary(col("id"), Operator::Eq, Expr::Literal(num(1)));
    let b = binary(Expr::Literal(num(2)), Operator::Eq, col("v"));
    let c = binary(col("v"), Operator::Gt, Expr::Literal(num(9)));
    let both = binary(binary(a, Operator::And, b), Operator::And, c);
    assert_eq!(pinned_value(&both, &"id".to_string()), Some(num(1)));
    assert_eq!(pinned_value(&both, &"v".to_string()), Some(num(2)));
    assert_eq!(pinned_value(&both, &"w".to_string()), None);
    let twice = binary(
        binary(col("id"), Operator::Eq, Expr::Literal(num(1))),
        Operator::And,
        binary(col("id"), Operator::Eq, Expr::Literal(num(2))),
    );
    assert_eq!(pinned_value(&twice, &"id".to_string()), Some(num(2)));
    let either = binary(
        binary(col("id"), Operator::Eq, Expr::Literal(num(1))),
        Operator::Or,
        binary(col("id"), Operator::Eq, Expr::Literal(num(2))),
    );
    assert_eq!(pinned_value(&either, &"id".to_string()), None);
}

#[test]
fn a_determined_row_is_written_without_reading() {
    let by_id = || binary(col("id"), Operator::Eq, Expr::Literal(num(5)));
    let set_v = || vec![("v".to_string(), Expr::Literal(num(9)))];
    assert_eq!(
        try_blind_determined_update(&full_schema(), 2, &set_v(), &by_id()),
        Some(vec![num(5), num(9)])
    );
    // v is neither assigned nor pinned.
    assert_eq!(
        try_blind_determined_update(
            &full_schema(),
            2,
            &vec![("id".to_string(), Expr::Literal(num(6)))],
            &by_id()
        ),
        None
    );
    // The assignment reads the row.
    assert_eq!(
        try_blind_determined_update(&full_schema(), 2, &vec![("v".to_string(), col("v"))], &by_id()),
        None
    );
    // Only the last assignment to a column counts.
    let mut twice = vec![("v".to_string(), col("v"))];
    twice.extend(set_v());
    assert_eq!(
        try_blind_determined_update(&full_schema(), 2, &twice, &by_id()),
        Some(vec![num(5), num(9)])
    );
}

#[test]
fn an_update_projects_every_column() {
    let sets = vec![("v".to_string(), Expr::Literal(num(1)))];
    assert_eq!(
        update_projection("t", &full_schema(), &sets).unwrap(),
        vec![
            ProjectionItem::Column("id".to_string()),
            ProjectionItem::Assigned {
                set: 0,
                name: "v".to_string()
            },
            ProjectionItem::Column("_rowid".to_string()),
            ProjectionItem::Column("_rowaddr".to_string()),
        ]
    );
    says(
        update_projection(
            "t",
            &Schema {
                fields: vec![field("id", true)],
            },
            &sets,
        ),
        "plan_update: schema for 't' has fewer than 2 fields (no pseudo-columns?)",
    );
}

#[test]
fn located_rows_are_read_by_their_ids() {
    let loc = |row_id: u64| MatchLoc {
        fragment_id: 1,
        offset: 0,
        row_id,
    };
    assert_eq!(update_read("t", &None), UpdateRead::Scan);
    assert_eq!(update_read("t", &Some(vec![])), UpdateRead::Nothing);
    assert_eq!(
        update_read("t", &Some(vec![loc(4), loc(2)])),
        UpdateRead::ByRowIds("SELECT * FROM \"t\" WHERE _rowid IN (4, 2)".to_string())
    );
}

#[test]
fn addresses_hold_fragment_and_offset() {
    assert_eq!(
        match_loc(9, 0xFFFF_FFFF_0000_0001),
        MatchLoc {
            fragment_id: 0xFFFF_FFFF,
            offset: 1,
            row_id: 9
        }
    );
    let locs = scanned_locations(&vec![
        (vec![1], vec![3]),
        (vec![], vec![]),
        (vec![2], vec![1 << 32]),
    ]);
    assert_eq!(locs, vec![match_loc(1, 3), match_loc(2, 1 << 32)]);
}

#[test]
fn assignments_are_checked_before_anything_is_read() {
    let mut none: Vec<(String, Expr)> = vec![];
    says(
        prepare_assignments("t", &full_schema(), &mut none),
        "execute_sql: UPDATE with no SET assignments",
    );
    let mut unknown = vec![("_rowid".to_string(), Expr::Literal(num(1)))];
    says(
        prepare_assignments("t", &full_schema(), &mut unknown),
        "UPDATE SET target column '_rowid' does not exist in table 't'",
    );
    let mut refused = vec![
        ("v".to_string(), Expr::Literal(ScalarValue::Null)),
        ("id".to_string(), Expr::Literal(ScalarValue::Null)),
    ];
    assert_eq!(
        prepare_assignments("t", &full_schema(), &mut refused).unwrap_err(),
        QueryError::Core(CoreError::SchemaMismatch {
            column: "id".to_string(),
            expected: "non-nullable column cannot be assigned NULL".to_string(),
            path: "t".to_string(),
        })
    );
    let mut good = vec![("v".to_string(), Expr::Literal(ScalarValue::Null))];
    prepare_assignments("t", &full_schema(), &mut good).unwrap();
    assert_eq!(good[0].1, Expr::Literal(ScalarValue::Int64(None)));
}

#[test]
fn deletions_are_grouped_by_fragment() {
    let loc = |fragment_id: u64, offset: u32| MatchLoc {
        fragment_id,
        offset,
        row_id: 0,
    };
    let groups = group_by_fragment(&vec![loc(2, 5), loc(1, 9), loc(2, 3)]);
    assert_eq!(groups.len(), 2);
    assert_eq!(groups[&2], vec![5, 3]);
    assert_eq!(groups[&1], vec![9]);
    assert!(group_by_fragment(&vec![]).is_empty());
}

#[test]
fn the_log_is_used_unless_switched_off() {
    assert!(resolve_wal_mode(None, None));
    assert!(!resolve_wal_mode(None, Some(false)));
    assert!(resolve_wal_mode(Some("1"), Some(false)));
    assert!(!resolve_wal_mode(Some("0"), Some(true)));
    assert!(!resolve_wal_mode(Some(""), None));
}

#[test]
fn a_source_takes_the_columns_of_the_table() {
    let source = Schema {
        fields: vec![field("v", true), field("extra", true), field("id", true)],
    };
    assert_eq!(
        coerce_to_table(&full_schema(), &source),
        vec![
            SharedColumn {
                table: 0,
                source: 2
            },
            SharedColumn {
                table: 1,
                source: 0
            },
        ]
    );
    assert!(require_source_batches(1).is_ok());
    says(
        require_source_batches(0),
        "MERGE source produced no batches; cannot infer schema",
    );
}

#[test]
fn a_batch_refreshes_each_changed_table_once() {
    let statement = |sql: &str| parse_statement("execute_sql_batch", sql).unwrap();
    let mut run = BatchRun::new();
    let first = statement("DELETE FROM \"trips\" WHERE id = 1");
    let name = "\"trips\"".to_string();
    assert_eq!(run.provider_name(&first), None);
    assert_eq!(
        run.step(&first),
        BatchStep::Mutate {
            open: Some(name.clone())
        }
    );
    run.opened(&first);
    run.committed(&first, 1, true);
    for sql in [
        "UPDATE \"trips\" SET v = 1",
        "DELETE FROM Trips",
        "UPDATE trips SET v = 2",
        "DELETE FROM public.TRIPS",
    ] {
        let again = statement(sql);
        assert_eq!(run.step(&again), BatchStep::Mutate { open: None });
        assert_eq!(run.provider_name(&again), Some(name.clone()));
        run.opened(&again);
        run.committed(&again, 4, true);
    }
    assert_eq!(run.step(&statement("SELECT 1")), BatchStep::Passthrough);
    run.passed();
    let other = statement("DELETE FROM \"Trips\"");
    assert_eq!(
        run.step(&other),
        BatchStep::Mutate {
            open: Some("\"Trips\"".to_string())
        }
    );
    run.opened(&other);
    run.committed(&other, 0, false);
    let (counts, tables) = run.finish();
    assert_eq!(counts, vec![1, 4, 4, 4, 4, 0, 0]);
    assert_eq!(tables, vec![name]);
}

#[test]
fn an_empty_batch_refreshes_nothing() {
    let (counts, tables) = BatchRun::new().finish();
    assert!(counts.is_empty());
    assert!(tables.is_empty());
}

#[test]
fn a_merge_is_an_upsert() {
    let before = vec![(1i64, 100i64), (3, 300), (9, 900)];
    let src = make_batch(&[("id", &[3, 2, 1]), ("v", &[30, 20, 10])]);
    let mut run = MergeRun::start("t", "id", "t_id", &src).unwrap();
    assert!(run.next_probe().unwrap().is_some());
    run.record_probe(vec![num(1), num(3)], &vec![1, 3], &vec![1, 3])
        .unwrap();
    let routing = run.route();
    let mut after: std::collections::BTreeMap<i64, i64> = before.into_iter().collect();
    for row in &routing.matched_rows {
        assert!(after.insert(row.get_i64("id"), row.get_i64("v")).is_some());
    }
    for row in &routing.unmatched_rows {
        assert!(after.insert(row.get_i64("id"), row.get_i64("v")).is_none());
    }
    let rows: Vec<(i64, i64)> = after.into_iter().collect();
    assert_eq!(rows, vec![(1, 10), (2, 20), (3, 30), (9, 900)]);
}
