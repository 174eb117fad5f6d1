use icefalldb_query::expr::{Expr, Operator};
use icefalldb_query::predicate::{expr_to_predicate, Literal, Predicate};
use icefalldb_query::scalar::{DataType, Field, ScalarValue, Schema, Single};

fn col(name: &str) -> Expr {
    Expr::Column(name.to_string())
}

fn lit(value: ScalarValue) -> Expr {
    Expr::Literal(value)
}

fn binary(left: Expr, op: Operator, right: Expr) -> Expr {
    Expr::BinaryExpr {
        left: Box::new(left),
        op,
        right: Box::new(right),
    }
}

fn field(name: &str, data_type: DataType, nullable: bool) -> Field {
    Field {
        name: name.to_string(),
        data_type,
        nullable,
    }
}

fn test_schema() -> Schema {
    Schema {
        fields: vec![
            field("id", DataType::Int64, false),
            field("name", DataType::Utf8, true),
            field("score", DataType::Float64, true),
        ],
    }
}

#[test]
fn test_eq_and_ordering_predicates() {
    let schema = test_schema();

    let expr = binary(col("id"), Operator::Eq, lit(ScalarValue::Int64(Some(42))));
    let (col_name, pred) = expr_to_predicate(&expr, &schema).unwrap();
    assert_eq!(col_name, "id");
    assert_eq!(
        pred,
        Predicate::Eq {
            column: "id".into(),
            value: Literal::Int64(42)
        }
    );

    let expr = binary(
        col("score"),
        Operator::Gt,
        lit(ScalarValue::Float64(Some(3.5f64.to_bits()))),
    );
    let (_, pred) = expr_to_predicate(&expr, &schema).unwrap();
    assert_eq!(
        pred,
        Predicate::Gt {
            column: "score".into(),
            value: Literal::Float64(3.5f64.to_bits())
        }
    );

    // Literal on the left side: 100 <= id becomes id >= 100.
    let expr = binary(
        lit(ScalarValue::Int64(Some(100))),
        Operator::LtEq,
        col("id"),
    );
    let (_, pred) = expr_to_predicate(&expr, &schema).unwrap();
    assert_eq!(
        pred,
        Predicate::Gte {
            column: "id".into(),
            value: Literal::Int64(100)
        }
    );
}

#[test]
fn test_null_predicates() {
    let schema = test_schema();

    let expr = Expr::IsNull(Box::new(col("name")));
    let (_, pred) = expr_to_predicate(&expr, &schema).unwrap();
    assert_eq!(
        pred,
        Predicate::IsNull {
            column: "name".into()
        }
    );

    let expr = Expr::IsNotNull(Box::new(col("name")));
    let (_, pred) = expr_to_predicate(&expr, &schema).unwrap();
    assert_eq!(
        pred,
        Predicate::IsNotNull {
            column: "name".into()
        }
    );
}

#[test]
fn test_unknown_column_returns_none() {
    let schema = test_schema();
    let expr = binary(
        col("missing"),
        Operator::Eq,
        lit(ScalarValue::Int64(Some(1))),
    );
    assert!(expr_to_predicate(&expr, &schema).is_none());
}

#[test]
fn test_unsupported_expression_returns_none() {
    let schema = test_schema();
    // id + 1
    let expr = binary(col("id"), Operator::Other, lit(ScalarValue::Int64(Some(1))));
    assert!(expr_to_predicate(&expr, &schema).is_none());
}

#[test]
fn every_comparison_is_mirrored_when_the_sides_are() {
    let schema = test_schema();
    let one = || lit(ScalarValue::Int64(Some(1)));
    for (op, mirrored) in [
        (Operator::Eq, Operator::Eq),
        (Operator::Lt, Operator::Gt),
        (Operator::LtEq, Operator::GtEq),
        (Operator::Gt, Operator::Lt),
        (Operator::GtEq, Operator::LtEq),
    ] {
        let left = expr_to_predicate(&binary(col("id"), op, one()), &schema);
        let right = expr_to_predicate(&binary(one(), mirrored, col("id")), &schema);
        assert!(left.is_some());
        assert_eq!(left, right);
    }
    assert!(expr_to_predicate(&binary(col("id"), Operator::NotEq, one()), &schema).is_none());
}

#[test]
fn literals_of_every_type_are_translated() {
    let schema = test_schema();
    let of = |v: ScalarValue| {
        match expr_to_predicate(&binary(col("id"), Operator::Eq, lit(v)), &schema) {
            Some((_, Predicate::Eq { value, .. })) => Some(value),
            _ => None,
        }
    };
    assert_eq!(of(ScalarValue::Int8(Some(-3))), Some(Literal::Int64(-3)));
    assert_eq!(of(ScalarValue::UInt32(Some(7))), Some(Literal::Int64(7)));
    assert_eq!(
        of(ScalarValue::UInt64(Some(i64::MAX as u64))),
        Some(Literal::Int64(i64::MAX))
    );
    assert_eq!(of(ScalarValue::UInt64(Some(i64::MAX as u64 + 1))), None);
    assert_eq!(of(ScalarValue::UInt64(Some(u64::MAX))), None);
    assert_eq!(
        of(ScalarValue::Float32(Some(Single {
            bits: 0.5f32.to_bits(),
            widened: 0.5f64.to_bits(),
        }))),
        Some(Literal::Float64(0.5f64.to_bits()))
    );
    assert_eq!(
        of(ScalarValue::LargeUtf8(Some("x".to_string()))),
        Some(Literal::String("x".to_string()))
    );
    assert_eq!(
        of(ScalarValue::Boolean(Some(true))),
        Some(Literal::Bool(true))
    );
    assert_eq!(of(ScalarValue::Int64(None)), None);
    assert_eq!(of(ScalarValue::Utf8View(Some("x".to_string()))), None);
}

#[test]
fn lists_have_to_be_of_literals_and_not_empty() {
    let schema = test_schema();
    let list = |list: Vec<Expr>, negated: bool| Expr::InList {
        expr: Box::new(col("id")),
        list,
        negated,
    };
    let two = || {
        vec![
            lit(ScalarValue::Int64(Some(1))),
            lit(ScalarValue::Int64(Some(2))),
        ]
    };
    assert_eq!(
        expr_to_predicate(&list(two(), false), &schema),
        Some((
            "id".to_string(),
            Predicate::InList {
                column: "id".to_string(),
                values: vec![Literal::Int64(1), Literal::Int64(2)],
            }
        ))
    );
    assert!(expr_to_predicate(&list(two(), true), &schema).is_none());
    assert!(expr_to_predicate(&list(vec![], false), &schema).is_none());
    assert!(expr_to_predicate(&list(vec![col("name")], false), &schema).is_none());
}
