use icefalldb_query::error::QueryError;
use icefalldb_query::mutate::statement::{
    delete_target, extract_source_alias, merge_source_query, merge_target,
    normalize_sql_identifier, parse_statement, plan_merge, update_target, update_target_column,
};
use icefalldb_query::mutate::merge::MatchedAction;
use icefalldb_query::scalar::{DataType, Field, Schema};
use icefalldb_query::sql::tokens::{has_unnamed_channel, SqlToken};
use icefalldb_query::sql::{
    mutation_target_table, statement_target_table, Delete, Ident, Merge, SqlStatement, Update,
};

fn parse(sql: &str) -> SqlStatement {
    parse_statement("execute_sql", sql).unwrap()
}

fn delete(sql: &str) -> Delete {
    match parse(sql) {
        SqlStatement::Delete(d) => d,
        other => panic!("not a DELETE: {other:?}"),
    }
}

fn update(sql: &str) -> Update {
    match parse(sql) {
        SqlStatement::Update(u) => u,
        other => panic!("not an UPDATE: {other:?}"),
    }
}

fn merge(sql: &str) -> Merge {
    match parse(sql) {
        SqlStatement::Merge(m) => m,
        other => panic!("not a MERGE: {other:?}"),
    }
}

fn says<T>(result: Result<T, QueryError>, text: &str) {
    match result {
        Err(QueryError::Other(message)) => assert_eq!(message, text),
        Err(other) => panic!("another error: {other:?}"),
        Ok(_) => panic!("expected an error"),
    }
}

fn schema() -> Schema {
    let field = |name: &str, data_type: DataType, nullable: bool| Field {
        name: name.to_string(),
        data_type,
        nullable,
    };
    Schema {
        fields: vec![
            field("id", DataType::Int64, false),
            field("v", DataType::Int64, true),
            field("_rowid", DataType::UInt64, false),
            field("_rowaddr", DataType::UInt64, false),
        ],
    }
}

#[test]
fn the_target_is_the_bare_name_of_a_single_mutation() {
    let target = |sql: &str| mutation_target_table(sql);
    assert_eq!(
        target("DELETE FROM \"Trips\" WHERE id = 1"),
        Some("Trips".to_string())
    );
    assert_eq!(
        target("UPDATE db.trips SET v = 1"),
        Some("trips".to_string())
    );
    assert_eq!(
        target("MERGE INTO t USING s ON t.id = s.id WHEN NOT MATCHED THEN INSERT (id) VALUES (s.id)"),
        Some("t".to_string())
    );
    assert_eq!(target("SELECT * FROM t"), None);
    assert_eq!(target("DELETE FROM a; DELETE FROM b"), None);
    assert_eq!(target("not sql at all"), None);
    assert_eq!(target(""), None);
}

#[test]
fn the_written_target_keeps_quotes_and_qualifiers() {
    assert_eq!(
        statement_target_table(&parse("DELETE FROM \"Trips\"")),
        Some("\"Trips\"".to_string())
    );
    assert_eq!(
        statement_target_table(&parse("UPDATE db.trips SET v = 1")),
        Some("db.trips".to_string())
    );
    assert_eq!(statement_target_table(&parse("SELECT 1")), None);
}

#[test]
fn one_statement_is_expected() {
    says(
        parse_statement("execute_sql", "SELECT 1; SELECT 2"),
        "execute_sql: expected exactly one statement, got 2",
    );
    says(
        parse_statement("execute_sql_batch", ""),
        "execute_sql_batch: expected exactly one statement, got 0",
    );
    match parse_statement("execute_sql", "DELETE FROM") {
        Err(QueryError::Other(message)) => assert!(message.starts_with("SQL parse error: ")),
        other => panic!("unexpected: {other:?}"),
    }
}

#[test]
fn other_statements_pass_through() {
    assert_eq!(parse("SELECT 1"), SqlStatement::Other);
    assert_eq!(
        parse("CREATE EXTERNAL TABLE t STORED AS PARQUET LOCATION 'x'"),
        SqlStatement::Other
    );
}

#[test]
fn a_delete_has_one_plain_table() {
    let d = delete("DELETE FROM t WHERE id > 3");
    assert_eq!(delete_target(&d).unwrap(), "t");
    assert_eq!(d.selection, Some("id > 3".to_string()));
    assert_eq!(delete("DELETE FROM t").selection, None);
    let mut two = delete("DELETE FROM t");
    two.from.push(delete("DELETE FROM u").from.remove(0));
    says(
        delete_target(&two),
        "execute_sql: DELETE with multiple or zero FROM tables is not supported",
    );
    let derived = merge(
        "MERGE INTO t USING (SELECT 1) AS s ON t.id = s.id WHEN NOT MATCHED THEN INSERT (id) VALUES (1)",
    );
    says(
        delete_target(&Delete {
            from: vec![derived.source],
            selection: None,
        }),
        "execute_sql: DELETE FROM target must be a plain table name",
    );
}

#[test]
fn an_update_names_its_table_and_columns() {
    let u = update("UPDATE db.\"T\" SET Name = x + 1, t.\"Mixed\" = NULL WHERE id = 2");
    assert_eq!(update_target(&u).unwrap(), "T");
    assert_eq!(u.selection, Some("id = 2".to_string()));
    assert_eq!(update_target_column(&u.assignments[0]).unwrap(), "name");
    assert_eq!(u.assignments[0].value, "x + 1");
    assert_eq!(update_target_column(&u.assignments[1]).unwrap(), "Mixed");
    assert_eq!(u.assignments[1].value, "NULL");
}

#[test]
fn a_tuple_of_columns_is_refused() {
    let u = update("UPDATE t SET (a, b) = (1, 2)");
    says(
        update_target_column(&u.assignments[0]),
        "execute_sql: tuple assignment targets in UPDATE are not supported",
    );
}

#[test]
fn only_identifiers_without_quotes_are_folded() {
    let ident = |value: &str, quote: Option<char>| Ident {
        value: value.to_string(),
        quote,
    };
    assert_eq!(normalize_sql_identifier(&ident("ÄBC", None)), "äbc");
    assert_eq!(normalize_sql_identifier(&ident("ÄBC", Some('"'))), "ÄBC");
}

const UPSERT: &str = "MERGE INTO t USING (VALUES (1, 2)) AS src(id, v) ON t.Id = src.id \
     WHEN MATCHED THEN UPDATE SET v = src.v + t.v \
     WHEN NOT MATCHED THEN INSERT (id, v) VALUES (src.id, src.v)";

#[test]
fn an_upsert_is_planned() {
    let m = merge(UPSERT);
    assert_eq!(merge_target(&m).unwrap(), "t");
    assert_eq!(
        merge_source_query(&m.source).unwrap(),
        "SELECT column1 AS id, column2 AS v FROM (VALUES (1, 2)) AS __mgr_inner__"
    );
    assert_eq!(extract_source_alias(&m.source), Some("src".to_string()));
    let plan = plan_merge(&m, "t", &schema()).unwrap();
    assert_eq!(plan.key, "id");
    assert_eq!(plan.source_alias, "src");
    assert_eq!(
        plan.matched,
        MatchedAction::UpdateAssignments(vec![("v".to_string(), "src.v + t.v".to_string())])
    );
}

#[test]
fn sources_are_read_by_their_shape() {
    let source = |using: &str| {
        let sql = format!(
            "MERGE INTO t USING {using} ON t.id = s.id WHEN NOT MATCHED THEN INSERT (id) VALUES (1)"
        );
        merge(&sql).source
    };
    assert_eq!(
        merge_source_query(&source("(SELECT 1 AS id) AS s")).unwrap(),
        "SELECT * FROM (SELECT 1 AS id) AS s"
    );
    assert_eq!(
        merge_source_query(&source("(SELECT 1 AS id)")).unwrap(),
        "SELECT * FROM (SELECT 1 AS id) AS __mgr_src__"
    );
    assert_eq!(
        merge_source_query(&source("db.cdc AS s")).unwrap(),
        "SELECT * FROM cdc AS s"
    );
    assert_eq!(
        merge_source_query(&source("cdc")).unwrap(),
        "SELECT * FROM cdc"
    );
    assert_eq!(extract_source_alias(&source("cdc")), Some("cdc".to_string()));
    assert_eq!(extract_source_alias(&source("(SELECT 1 AS id)")), None);
    says(
        merge_source_query(&source("UNNEST(x) AS s")),
        "MERGE USING source must be a subquery or named table, got: UNNEST(x) AS s",
    );
}

fn planned(on: &str, clauses: &str) -> Result<String, QueryError> {
    let m = merge(&format!("MERGE INTO t USING s ON {on} {clauses}"));
    plan_merge(&m, "t", &schema()).map(|p| p.key)
}

const INSERT: &str = "WHEN NOT MATCHED THEN INSERT (id) VALUES (s.id)";

#[test]
fn the_key_is_on_the_side_of_the_target() {
    assert_eq!(planned("T.id = s.other", INSERT).unwrap(), "id");
    assert_eq!(planned("s.other = t.\"Id\"", INSERT).unwrap(), "Id");
    says(
        planned("id = s.id", INSERT),
        "MERGE ON predicate must reference the target table explicitly, e.g. `t.key = source.key`; cannot disambiguate plain identifiers in: id = s.id",
    );
    says(
        planned("t.id > s.id", INSERT),
        "MERGE ON predicate must be a simple equality (`=`); got: t.id > s.id",
    );
}

#[test]
fn only_the_canonical_upsert_is_accepted() {
    let on = "t.id = s.id";
    says(
        planned(on, &format!("WHEN MATCHED AND s.v > 1 THEN UPDATE SET v = 1 {INSERT}")),
        "MERGE: conditional WHEN clauses (WHEN … AND <predicate>) are not supported; only unconditional canonical upsert is supported",
    );
    says(
        planned(
            on,
            &format!("WHEN MATCHED THEN UPDATE SET v = 1 WHEN MATCHED THEN UPDATE SET v = 2 {INSERT}"),
        ),
        "MERGE: multiple WHEN MATCHED THEN UPDATE clauses are not supported",
    );
    says(
        planned(on, &format!("WHEN MATCHED THEN DELETE {INSERT}")),
        "MERGE: WHEN MATCHED THEN DELETE is not supported",
    );
    says(
        planned(on, "WHEN MATCHED THEN UPDATE SET v = 1"),
        "MERGE: a WHEN NOT MATCHED THEN INSERT clause is required for canonical upsert; MERGE without NOT MATCHED is not supported",
    );
    says(
        planned(on, &format!("WHEN NOT MATCHED BY SOURCE THEN DELETE {INSERT}")),
        "MERGE: WHEN NOT MATCHED BY SOURCE is not supported",
    );
    says(
        planned(on, "WHEN NOT MATCHED BY TARGET THEN INSERT (id) VALUES (s.id)"),
        "MERGE: WHEN NOT MATCHED BY TARGET is not supported; use WHEN NOT MATCHED instead",
    );
    let mut none = merge(UPSERT);
    none.clauses.clear();
    says(
        plan_merge(&none, "t", &schema()),
        "MERGE: must have at least one WHEN MATCHED or WHEN NOT MATCHED clause",
    );
}

#[test]
fn set_targets_are_columns_of_the_table_named_once() {
    let on = "t.id = s.id";
    says(
        planned(on, &format!("WHEN MATCHED THEN UPDATE SET nope = 1 {INSERT}")),
        "MERGE UPDATE SET target column 'nope' does not exist in table 't'",
    );
    says(
        planned(on, &format!("WHEN MATCHED THEN UPDATE SET _rowid = 1 {INSERT}")),
        "MERGE UPDATE SET target column '_rowid' does not exist in table 't'",
    );
    says(
        planned(on, &format!("WHEN MATCHED THEN UPDATE SET v = 1, V = 2 {INSERT}")),
        "MERGE UPDATE SET target column 'v' specified more than once",
    );
    says(
        planned(on, &format!("WHEN MATCHED THEN UPDATE SET (id, v) = (1, 2) {INSERT}")),
        "MERGE UPDATE SET tuple assignment targets are not supported",
    );
}

#[test]
fn a_set_list_needs_a_name_for_the_source() {
    let m = merge(
        "MERGE INTO t USING (SELECT 1 AS id) ON t.id = 1 \
         WHEN MATCHED THEN UPDATE SET v = 1 WHEN NOT MATCHED THEN INSERT (id) VALUES (1)",
    );
    says(
        plan_merge(&m, "t", &schema()),
        "MERGE UPDATE SET requires the USING source to have an alias",
    );
}

#[test]
fn a_target_that_is_no_table_is_refused() {
    let mut m = merge(UPSERT);
    std::mem::swap(&mut m.table, &mut m.source);
    match merge_target(&m) {
        Err(QueryError::Other(message)) => {
            assert!(message.starts_with("MERGE INTO target must be a plain table name, got: "));
        }
        other => panic!("unexpected: {other:?}"),
    }
}

#[test]
fn a_flush_without_its_channel_is_a_parse_error() {
    let message = "SQL parse error: FLUSH RELAY LOGS FOR CHANNEL names no channel";
    for sql in [
        "FLUSH RELAY LOGS FOR CHANNEL",
        "flush local relay /* which? */ logs for channel 7",
        "DELETE FROM t; FLUSH NO_WRITE_TO_BINLOG RELAY LOGS FOR CHANNEL a.",
        "EXPLAIN FLUSH RELAY LOGS FOR CHANNEL;",
    ] {
        assert_eq!(
            parse_statement("execute_sql", sql).unwrap_err(),
            QueryError::Other(message.to_string()),
            "{sql}"
        );
        assert_eq!(mutation_target_table(sql), None);
    }
}

#[test]
fn other_texts_with_these_words_are_parsed() {
    for sql in [
        "FLUSH RELAY LOGS FOR CHANNEL c",
        "FLUSH RELAY LOGS FOR CHANNEL a . 'b'",
        "FLUSH RELAY LOGS",
    ] {
        assert_eq!(parse(sql), SqlStatement::Other);
    }
    let sql = "DELETE FROM t WHERE note = 'FLUSH RELAY LOGS FOR CHANNEL'";
    assert_eq!(mutation_target_table(sql), Some("t".to_string()));
    let sql = "DELETE FROM t -- FLUSH RELAY LOGS FOR CHANNEL";
    assert_eq!(mutation_target_table(sql), Some("t".to_string()));
}

#[test]
fn channels_are_found_among_tokens() {
    let words = |list: &[&str]| -> Vec<SqlToken> {
        list.iter()
            .map(|w| match *w {
                " " => SqlToken::Space,
                "." => SqlToken::Period,
                "'" => SqlToken::Text,
                "7" => SqlToken::Other,
                word => SqlToken::Word(word.to_string()),
            })
            .collect()
    };
    let flush = ["FLUSH", " ", "RELAY", " ", "LOGS", "FOR", " ", "CHANNEL"];
    let with = |rest: &[&str]| words(&[&flush[..], rest].concat());
    assert!(has_unnamed_channel(&with(&[])));
    assert!(has_unnamed_channel(&with(&[" ", "7"])));
    assert!(has_unnamed_channel(&with(&["NoKeyword", ".", " "])));
    assert!(!has_unnamed_channel(&with(&[" ", "NoKeyword"])));
    assert!(!has_unnamed_channel(&with(&["'", " ", ".", "NoKeyword", "7"])));
    assert!(!has_unnamed_channel(&words(&flush[1..])));
    assert!(!has_unnamed_channel(&words(&[])));
}
