use icefalldb_query::expr::{Expr, Operator};
use icefalldb_query::index_selector::{
    candidate_row_ids, first_index_answer, index_equality_lookup, values_to_ask, BTreeIndex,
    IndexDefinition, IndexLookup, ProbedIndex, SnapshotIndex,
};
use std::sync::Arc;
use icefalldb_query::scalar::ScalarValue;

fn index_on(column: &str, entries: Vec<(String, Vec<u64>)>) -> BTreeIndex {
    BTreeIndex::new(
        IndexDefinition {
            name: "idx".to_string(),
            table: "t".to_string(),
            column: column.to_string(),
            unique: false,
        },
        1,
        entries,
    )
}

fn make_index() -> BTreeIndex {
    // Value "a" → row_ids [1], "b" → row_ids [2, 3]
    index_on(
        "c",
        vec![
            ("a".to_string(), vec![1u64]),
            ("b".to_string(), vec![2u64, 3u64]),
        ],
    )
}

fn col(name: &str) -> Expr {
    Expr::Column(name.to_string())
}

fn text(value: &str) -> Expr {
    Expr::Literal(ScalarValue::Utf8(Some(value.to_string())))
}

fn equals(left: Expr, right: Expr) -> Expr {
    Expr::BinaryExpr {
        left: Box::new(left),
        op: Operator::Eq,
        right: Box::new(right),
    }
}

fn in_list(column: &str, list: Vec<Expr>, negated: bool) -> Expr {
    Expr::InList {
        expr: Box::new(col(column)),
        list,
        negated,
    }
}

#[test]
fn test_index_equality_lookup() {
    let index = make_index();
    let ids = index_equality_lookup(&index, &equals(col("c"), text("b"))).unwrap();
    assert_eq!(ids.len(), 2);
    assert!(ids.contains(&2u64));
    assert!(ids.contains(&3u64));
}

#[test]
fn test_index_in_list_lookup() {
    let index = make_index();
    let expr = in_list("c", vec![text("a"), text("b")], false);
    let ids = index_equality_lookup(&index, &expr).unwrap();
    assert_eq!(ids.len(), 3);
    assert!(ids.contains(&1u64));
    assert!(ids.contains(&2u64));
    assert!(ids.contains(&3u64));
}

#[test]
fn test_index_in_list_empty() {
    let index = make_index();
    let ids = index_equality_lookup(&index, &in_list("c", vec![], false)).unwrap();
    assert!(ids.is_empty());
}

#[test]
fn test_index_in_list_negated() {
    let index = make_index();
    assert!(index_equality_lookup(&index, &in_list("c", vec![text("a")], true)).is_none());
}

#[test]
fn test_index_in_list_wrong_column() {
    let index = make_index();
    let expr = in_list("other_col", vec![text("a")], false);
    assert!(index_equality_lookup(&index, &expr).is_none());
}

#[test]
fn test_index_in_list_missing_key() {
    let index = make_index();
    let ids = index_equality_lookup(&index, &in_list("c", vec![text("z")], false)).unwrap();
    assert!(ids.is_empty());
}

#[test]
fn test_index_in_list_duplicate_values() {
    let index = make_index();
    let expr = in_list("c", vec![text("a"), text("a")], false);
    let ids = index_equality_lookup(&index, &expr).unwrap();
    assert_eq!(ids.len(), 1);
    assert!(ids.contains(&1u64));
}

#[test]
fn test_index_in_list_unsupported_literal() {
    let index = make_index();
    let expr = in_list("c", vec![Expr::Literal(ScalarValue::Null)], false);
    assert!(index_equality_lookup(&index, &expr).is_none());
}

#[test]
fn numbers_are_looked_up_by_their_digits() {
    let index = index_on(
        "n",
        vec![
            ("-9223372036854775808".to_string(), vec![4]),
            ("0".to_string(), vec![5]),
        ],
    );
    let of = |v: i64| {
        index_equality_lookup(
            &index,
            &equals(col("n"), Expr::Literal(ScalarValue::Int64(Some(v)))),
        )
        .unwrap()
    };
    assert!(of(i64::MIN).contains(&4));
    assert!(of(0).contains(&5));
    assert!(of(10).is_empty());
}

#[test]
fn the_column_has_to_stand_on_the_left() {
    let index = make_index();
    assert!(index_equality_lookup(&index, &equals(text("b"), col("c"))).is_none());
}

#[test]
fn a_repeated_value_keeps_the_last_entry() {
    let index = index_on(
        "c",
        vec![("a".to_string(), vec![1]), ("a".to_string(), vec![2])],
    );
    let ids = index_equality_lookup(&index, &equals(col("c"), text("a"))).unwrap();
    assert_eq!(ids.len(), 1);
    assert!(ids.contains(&2));
}

#[test]
fn candidates_are_what_every_answer_lists() {
    let indexes = vec![
        index_on("a", vec![("x".to_string(), vec![1, 2, 3])]),
        index_on("b", vec![("y".to_string(), vec![2, 3, 4])]),
    ];
    let both = vec![
        equals(col("a"), text("x")),
        equals(col("b"), text("y")),
        equals(col("z"), text("q")),
    ];
    let ids = candidate_row_ids(&indexes, &both).unwrap();
    assert_eq!(ids.len(), 2);
    assert!(ids.contains(&2) && ids.contains(&3));

    let one = candidate_row_ids(&indexes, &vec![equals(col("b"), text("y"))]).unwrap();
    assert_eq!(one.len(), 3);
    assert!(candidate_row_ids(&indexes, &vec![equals(col("z"), text("q"))]).is_none());
    assert!(candidate_row_ids(&indexes, &vec![]).is_none());
}

#[test]
fn the_first_index_that_answers_is_taken() {
    let indexes = vec![
        index_on("a", vec![("x".to_string(), vec![1])]),
        index_on("b", vec![("x".to_string(), vec![2])]),
        index_on("b", vec![("x".to_string(), vec![3])]),
    ];
    let ids = first_index_answer(&indexes, &equals(col("b"), text("x"))).unwrap();
    assert!(ids.contains(&2) && !ids.contains(&3));
    assert!(first_index_answer(&indexes, &equals(col("c"), text("x"))).is_none());
}

#[test]
fn an_index_is_asked_for_the_constants_on_its_column() {
    assert_eq!(values_to_ask("c", &equals(col("c"), text("b"))), vec!["b"]);
    assert!(values_to_ask("d", &equals(col("c"), text("b"))).is_empty());
    assert!(values_to_ask("c", &equals(text("b"), col("c"))).is_empty());
    let number = Expr::Literal(ScalarValue::Int64(Some(-7)));
    let unkeyed = Expr::Literal(ScalarValue::Boolean(Some(true)));
    let list = in_list("c", vec![text("x"), unkeyed, number], false);
    assert_eq!(values_to_ask("c", &list), vec!["x", "-7"]);
    assert!(values_to_ask("c", &in_list("c", vec![text("x")], true)).is_empty());
}

#[test]
fn a_probed_index_answers_as_the_index_does() {
    let loaded = make_index();
    for e in [
        equals(col("c"), text("b")),
        equals(col("c"), text("none")),
        in_list("c", vec![text("a"), text("b")], false),
        equals(col("d"), text("b")),
    ] {
        let answers = values_to_ask("c", &e)
            .into_iter()
            .map(|v| {
                let ids = loaded.lookup_ids(&v);
                (v, ids)
            })
            .collect();
        let probed = ProbedIndex {
            definition: IndexDefinition {
                name: "idx".to_string(),
                table: "t".to_string(),
                column: "c".to_string(),
                unique: false,
            },
            answers,
        };
        assert_eq!(
            index_equality_lookup(&SnapshotIndex::Probed(probed), &e),
            index_equality_lookup(&loaded, &e)
        );
    }
    let shared = SnapshotIndex::Loaded(Arc::new(make_index()));
    assert_eq!(shared.column(), "c");
    assert_eq!(shared.lookup_ids("b"), Some(vec![2, 3]));
}

#[test]
fn a_probed_index_does_not_answer_unasked() {
    let probed = ProbedIndex {
        definition: IndexDefinition {
            name: "idx".to_string(),
            table: "t".to_string(),
            column: "c".to_string(),
            unique: false,
        },
        answers: vec![("a".to_string(), Some(vec![4])), ("b".to_string(), None)],
    };
    assert_eq!(probed.lookup_ids("a"), Some(vec![4]));
    assert_eq!(probed.lookup_ids("b"), None);
    assert_eq!(probed.lookup_ids("c"), None);
    let both = in_list("c", vec![text("a"), text("b")], false);
    assert!(index_equality_lookup(&probed, &both).is_none());
}

#[test]
fn candidates_hold_every_matching_row() {
    // The row with id 2 has the value b in c and the value y in d.
    let indexes = vec![
        make_index(),
        index_on("d", vec![("y".to_string(), vec![2u64, 8u64])]),
    ];
    let filters = vec![
        in_list("c", vec![text("b"), text("z")], false),
        equals(col("d"), text("y")),
        equals(col("e"), text("unindexed")),
    ];
    let ids = candidate_row_ids(&indexes, &filters).unwrap();
    assert!(ids.contains(&2));
    assert_eq!(ids.len(), 1);
}
