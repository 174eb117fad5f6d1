//! Filters that the sidecar statistics of a row group can decide.
//!
//! Only comparisons of one column with constants, and null tests, are
//! translated. Everything else stays with the query engine.
use vstd::prelude::*;

use crate::expr::{Expr, Operator};
use crate::scalar::{Scalar, ScalarValue, ScalarView, Schema};
use crate::text::find_bounds;

verus! {

/// A constant of a predicate. Double precision numbers are held by their bits.
/// `T` is the type of text.
#[derive(Debug, PartialEq, Eq)]
pub enum LiteralOf<T> {
    Int64(i64),
    Float64(u64),
    String(T),
    Bool(bool),
}

pub type Literal = LiteralOf<String>;

pub type LiteralView = LiteralOf<Seq<char>>;

impl View for LiteralOf<String> {
    type V = LiteralOf<Seq<char>>;

    open spec fn view(&self) -> LiteralOf<Seq<char>> {
        match *self {
            LiteralOf::Int64(v) => LiteralOf::Int64(v),
            LiteralOf::Float64(v) => LiteralOf::Float64(v),
            LiteralOf::String(s) => LiteralOf::String(s@),
            LiteralOf::Bool(v) => LiteralOf::Bool(v),
        }
    }
}

/// A filter on one column.
#[derive(Debug, PartialEq, Eq)]
pub enum Predicate {
    Eq { column: String, value: Literal },
    Lt { column: String, value: Literal },
    Lte { column: String, value: Literal },
    Gt { column: String, value: Literal },
    Gte { column: String, value: Literal },
    IsNull { column: String },
    IsNotNull { column: String },
    InList { column: String, values: Vec<Literal> },
}

/// How a column compares with a constant.
pub enum Comparison {
    Eq,
    Lt,
    Lte,
    Gt,
    Gte,
}

pub enum PredicateView {
    Compare { comparison: Comparison, column: Seq<char>, value: LiteralView },
    IsNull { column: Seq<char> },
    IsNotNull { column: Seq<char> },
    InList { column: Seq<char>, values: Seq<LiteralView> },
}

impl View for Predicate {
    type V = PredicateView;

    open spec fn view(&self) -> PredicateView {
        match *self {
            Predicate::Eq { column, value } => PredicateView::Compare {
                comparison: Comparison::Eq,
                column: column@,
                value: value@,
            },
            Predicate::Lt { column, value } => PredicateView::Compare {
                comparison: Comparison::Lt,
                column: column@,
                value: value@,
            },
            Predicate::Lte { column, value } => PredicateView::Compare {
                comparison: Comparison::Lte,
                column: column@,
                value: value@,
            },
            Predicate::Gt { column, value } => PredicateView::Compare {
                comparison: Comparison::Gt,
                column: column@,
                value: value@,
            },
            Predicate::Gte { column, value } => PredicateView::Compare {
                comparison: Comparison::Gte,
                column: column@,
                value: value@,
            },
            Predicate::IsNull { column } => PredicateView::IsNull { column: column@ },
            Predicate::IsNotNull { column } => PredicateView::IsNotNull { column: column@ },
            Predicate::InList { column, values } => PredicateView::InList {
                column: column@,
                values: values@.map_values(|v: Literal| v@),
            },
        }
    }
}

impl PredicateView {
    /// The column that the filter is on.
    pub open spec fn column(self) -> Seq<char> {
        match self {
            PredicateView::Compare { column, .. } => column,
            PredicateView::IsNull { column } => column,
            PredicateView::IsNotNull { column } => column,
            PredicateView::InList { column, .. } => column,
        }
    }
}

/// The constant of a value; nulls and values of other types have none, nor has
/// an unsigned number that no signed one is equal to.
pub open spec fn literal_value(value: ScalarView) -> Option<LiteralView> {
    match value {
        Scalar::Int8(Some(v)) => Some(LiteralOf::Int64(v as i64)),
        Scalar::Int16(Some(v)) => Some(LiteralOf::Int64(v as i64)),
        Scalar::Int32(Some(v)) => Some(LiteralOf::Int64(v as i64)),
        Scalar::Int64(Some(v)) => Some(LiteralOf::Int64(v)),
        Scalar::UInt8(Some(v)) => Some(LiteralOf::Int64(v as i64)),
        Scalar::UInt16(Some(v)) => Some(LiteralOf::Int64(v as i64)),
        Scalar::UInt32(Some(v)) => Some(LiteralOf::Int64(v as i64)),
        Scalar::UInt64(Some(v)) => if v <= i64::MAX {
            Some(LiteralOf::Int64(v as i64))
        } else {
            None
        },
        Scalar::Float32(Some(v)) => Some(LiteralOf::Float64(v.widened)),
        Scalar::Float64(Some(v)) => Some(LiteralOf::Float64(v)),
        Scalar::Utf8(Some(s)) => Some(LiteralOf::String(s)),
        Scalar::LargeUtf8(Some(s)) => Some(LiteralOf::String(s)),
        Scalar::Boolean(Some(v)) => Some(LiteralOf::Bool(v)),
        _ => None,
    }
}

/// The number that a value of an integer type is.
pub open spec fn integer_value(value: ScalarView) -> Option<int> {
    match value {
        Scalar::Int8(Some(v)) => Some(v as int),
        Scalar::Int16(Some(v)) => Some(v as int),
        Scalar::Int32(Some(v)) => Some(v as int),
        Scalar::Int64(Some(v)) => Some(v as int),
        Scalar::UInt8(Some(v)) => Some(v as int),
        Scalar::UInt16(Some(v)) => Some(v as int),
        Scalar::UInt32(Some(v)) => Some(v as int),
        Scalar::UInt64(Some(v)) => Some(v as int),
        _ => None,
    }
}

/// A constant is the number that the value is: where no signed 64-bit number
/// is equal to it, there is no constant, and so no filter to prune by.
pub proof fn constants_keep_the_number(value: ScalarView)
    requires
        integer_value(value) is Some,
    ensures
        match literal_value(value) {
            Some(LiteralOf::Int64(n)) => n == integer_value(value)->0,
            Some(_) => false,
            None => integer_value(value)->0 > i64::MAX,
        },
{
}

pub open spec fn literal_view(l: Option<Literal>) -> Option<LiteralView> {
    match l {
        Some(v) => Some(v@),
        None => None,
    }
}

fn scalar_to_literal(value: &ScalarValue) -> (r: Option<Literal>)
    ensures
        literal_view(r) == literal_value(value@),
{
    match value {
        Scalar::Int8(Some(v)) => Some(LiteralOf::Int64(*v as i64)),
        Scalar::Int16(Some(v)) => Some(LiteralOf::Int64(*v as i64)),
        Scalar::Int32(Some(v)) => Some(LiteralOf::Int64(*v as i64)),
        Scalar::Int64(Some(v)) => Some(LiteralOf::Int64(*v)),
        Scalar::UInt8(Some(v)) => Some(LiteralOf::Int64(*v as i64)),
        Scalar::UInt16(Some(v)) => Some(LiteralOf::Int64(*v as i64)),
        Scalar::UInt32(Some(v)) => Some(LiteralOf::Int64(*v as i64)),
        Scalar::UInt64(Some(v)) => if *v <= 0x7fff_ffff_ffff_ffff {
            Some(LiteralOf::Int64(*v as i64))
        } else {
            None
        },
        Scalar::Float32(Some(v)) => Some(LiteralOf::Float64(v.widened)),
        Scalar::Float64(Some(v)) => Some(LiteralOf::Float64(*v)),
        Scalar::Utf8(Some(s)) => Some(LiteralOf::String(s.clone())),
        Scalar::LargeUtf8(Some(s)) => Some(LiteralOf::String(s.clone())),
        Scalar::Boolean(Some(v)) => Some(LiteralOf::Bool(*v)),
        _ => None,
    }
}

/// The constant that an expression is.
pub open spec fn constant(e: Expr) -> Option<LiteralView> {
    match e {
        Expr::Literal(v) => literal_value(v@),
        _ => None,
    }
}

fn expr_as_literal(e: &Expr) -> (r: Option<Literal>)
    ensures
        literal_view(r) == constant(*e),
{
    match e {
        Expr::Literal(v) => scalar_to_literal(v),
        _ => None,
    }
}

/// The column of the schema that an expression is.
pub open spec fn schema_column(e: Expr, schema: Schema) -> Option<Seq<char>> {
    match e {
        Expr::Column(c) => if schema.names().contains(c@) {
            Some(c@)
        } else {
            None
        },
        _ => None,
    }
}

fn expr_as_column(e: &Expr, schema: &Schema) -> (r: Option<String>)
    ensures
        crate::scalar::text_view(r) == schema_column(*e, *schema),
{
    match e {
        Expr::Column(c) => {
            proof {
                find_bounds(schema.names(), c@);
            }
            match schema.index_of(c) {
                Some(i) => {
                    assert(schema.names()[i as int] == c@);
                    Some(c.clone())
                },
                None => None,
            }
        },
        _ => None,
    }
}

/// A column and a constant, where one expression is the former and the other
/// the latter.
pub open spec fn column_and_constant(maybe_col: Expr, maybe_lit: Expr, schema: Schema) -> Option<
    (Seq<char>, LiteralView),
> {
    match (schema_column(maybe_col, schema), constant(maybe_lit)) {
        (Some(c), Some(v)) => Some((c, v)),
        _ => None,
    }
}

fn extract_column_literal(maybe_col: &Expr, maybe_lit: &Expr, schema: &Schema) -> (r: Option<
    (String, Literal),
>)
    ensures
        match column_and_constant(*maybe_col, *maybe_lit, *schema) {
            Some((c, v)) => r matches Some(p) && p.0@ == c && p.1@ == v,
            None => r is None,
        },
{
    match (expr_as_column(maybe_col, schema), expr_as_literal(maybe_lit)) {
        (Some(c), Some(v)) => Some((c, v)),
        _ => None,
    }
}

/// What `column op constant` compares, or `constant op column` where the two
/// are swapped.
pub open spec fn comparison(op: Operator, swapped: bool) -> Option<Comparison> {
    match (op, swapped) {
        (Operator::Eq, _) => Some(Comparison::Eq),
        (Operator::Lt, false) => Some(Comparison::Lt),
        (Operator::Gt, true) => Some(Comparison::Lt),
        (Operator::LtEq, false) => Some(Comparison::Lte),
        (Operator::GtEq, true) => Some(Comparison::Lte),
        (Operator::Gt, false) => Some(Comparison::Gt),
        (Operator::Lt, true) => Some(Comparison::Gt),
        (Operator::GtEq, false) => Some(Comparison::Gte),
        (Operator::LtEq, true) => Some(Comparison::Gte),
        _ => None,
    }
}

fn build_comparison(column: String, op: Operator, value: Literal, swapped: bool) -> (r: Option<
    (String, Predicate),
>)
    ensures
        match comparison(op, swapped) {
            Some(c) => r matches Some(p) && p.0@ == column@ && p.1@ == (PredicateView::Compare {
                comparison: c,
                column: column@,
                value: value@,
            }),
            None => r is None,
        },
{
    let name = column.clone();
    match op {
        Operator::Eq => Some((name, Predicate::Eq { column, value })),
        Operator::Lt => {
            if swapped {
                Some((name, Predicate::Gt { column, value }))
            } else {
                Some((name, Predicate::Lt { column, value }))
            }
        },
        Operator::LtEq => {
            if swapped {
                Some((name, Predicate::Gte { column, value }))
            } else {
                Some((name, Predicate::Lte { column, value }))
            }
        },
        Operator::Gt => {
            if swapped {
                Some((name, Predicate::Lt { column, value }))
            } else {
                Some((name, Predicate::Gt { column, value }))
            }
        },
        Operator::GtEq => {
            if swapped {
                Some((name, Predicate::Lte { column, value }))
            } else {
                Some((name, Predicate::Gte { column, value }))
            }
        },
        _ => None,
    }
}

/// Whether every element of a list is a constant.
pub open spec fn all_constants(list: Seq<Expr>) -> bool {
    forall|i: int| 0 <= i < list.len() ==> constant(#[trigger] list[i]) is Some
}

/// The filter that an expression is on the columns of a schema.
pub open spec fn predicate_of(e: Expr, schema: Schema) -> Option<PredicateView> {
    match e {
        Expr::BinaryExpr { left, op, right } => match column_and_constant(*left, *right, schema) {
            Some((column, value)) => match comparison(op, false) {
                Some(c) => Some(PredicateView::Compare { comparison: c, column, value }),
                None => None,
            },
            None => match column_and_constant(*right, *left, schema) {
                Some((column, value)) => match comparison(op, true) {
                    Some(c) => Some(PredicateView::Compare { comparison: c, column, value }),
                    None => None,
                },
                None => None,
            },
        },
        Expr::IsNull(inner) => match schema_column(*inner, schema) {
            Some(column) => Some(PredicateView::IsNull { column }),
            None => None,
        },
        Expr::IsNotNull(inner) => match schema_column(*inner, schema) {
            Some(column) => Some(PredicateView::IsNotNull { column }),
            None => None,
        },
        Expr::InList { expr, list, negated } => match schema_column(*expr, schema) {
            Some(column) => if !negated && list@.len() > 0 && all_constants(list@) {
                Some(
                    PredicateView::InList {
                        column,
                        values: list@.map_values(|x: Expr| constant(x)->0),
                    },
                )
            } else {
                None
            },
            None => None,
        },
        _ => None,
    }
}

/// Translates an expression into a filter on one column of `schema`, with the
/// name of that column. `None` for an expression that is no such filter.
pub fn expr_to_predicate(expr: &Expr, schema: &Schema) -> (r: Option<(String, Predicate)>)
    ensures
        match predicate_of(*expr, *schema) {
            Some(p) => r matches Some(out) && out.1@ == p && out.0@ == p.column(),
            None => r is None,
        },
{
    match expr {
        Expr::BinaryExpr { left, op, right } => {
            match extract_column_literal(left, right, schema) {
                Some((column, value)) => build_comparison(column, *op, value, false),
                None => match extract_column_literal(right, left, schema) {
                    Some((column, value)) => build_comparison(column, *op, value, true),
                    None => None,
                },
            }
        },
        Expr::IsNull(inner) => match expr_as_column(inner, schema) {
            Some(column) => Some((column.clone(), Predicate::IsNull { column })),
            None => None,
        },
        Expr::IsNotNull(inner) => match expr_as_column(inner, schema) {
            Some(column) => Some((column.clone(), Predicate::IsNotNull { column })),
            None => None,
        },
        Expr::InList { expr: inner, list, negated } => {
            if *negated {
                return None;
            }
            let column = match expr_as_column(inner, schema) {
                Some(column) => column,
                None => return None,
            };
            let mut values: Vec<Literal> = Vec::new();
            let mut i: usize = 0;
            while i < list.len()
                invariant
                    i <= list@.len(),
                    values@.len() == i,
                    *expr matches Expr::InList { list: l, negated: n, .. } && l == *list && !n,
                    forall|k: int| 0 <= k < i ==> constant(#[trigger] list@[k]) is Some,
                    forall|k: int|
                        0 <= k < i ==> (#[trigger] values@[k])@ == constant(list@[k])->0,
                decreases list@.len() - i,
            {
                match expr_as_literal(&list[i]) {
                    Some(v) => values.push(v),
                    None => {
                        assert(constant(list@[i as int]) is None);
                        return None;
                    },
                }
                i = i + 1;
            }
            if values.len() == 0 {
                return None;
            }
            assert(values@.map_values(|v: Literal| v@) =~= list@.map_values(
                |x: Expr| constant(x)->0,
            ));
            Some((column.clone(), Predicate::InList { column, values }))
        },
        _ => None,
    }
}

/// Whether `x op y` holds, where `order` is negative, zero or positive as `x`
/// is less than, equal to or greater than `y`.
pub open spec fn operator_holds(op: Operator, order: int) -> bool {
    match op {
        Operator::Eq => order == 0,
        Operator::NotEq => order != 0,
        Operator::Lt => order < 0,
        Operator::LtEq => order <= 0,
        Operator::Gt => order > 0,
        Operator::GtEq => order >= 0,
        _ => false,
    }
}

/// Whether a comparison holds of a column whose value stands to the constant
/// as `order` says.
pub open spec fn comparison_holds(c: Comparison, order: int) -> bool {
    match c {
        Comparison::Eq => order == 0,
        Comparison::Lt => order < 0,
        Comparison::Lte => order <= 0,
        Comparison::Gt => order > 0,
        Comparison::Gte => order >= 0,
    }
}

/// A comparison is translated to one that holds of the same values, on
/// whichever side the column stands: `order` is how the column's value stands
/// to the constant.
pub proof fn translation_keeps_the_meaning(
    left: Expr,
    op: Operator,
    right: Expr,
    schema: Schema,
    order: int,
)
    requires
        predicate_of(
            Expr::BinaryExpr { left: Box::new(left), op, right: Box::new(right) },
            schema,
        ) is Some,
    ensures
        predicate_of(
            Expr::BinaryExpr { left: Box::new(left), op, right: Box::new(right) },
            schema,
        ) matches Some(PredicateView::Compare { comparison: c, .. }) && comparison_holds(c, order)
            == if column_and_constant(left, right, schema) is Some {
            operator_holds(op, order)
        } else {
            operator_holds(op, -order)
        },
{
}

/// The operator that says the same with its sides exchanged.
pub open spec fn mirrored(op: Operator) -> Operator {
    match op {
        Operator::Lt => Operator::Gt,
        Operator::LtEq => Operator::GtEq,
        Operator::Gt => Operator::Lt,
        Operator::GtEq => Operator::LtEq,
        _ => op,
    }
}

/// `constant op column` translates as `column mirrored constant` does.
pub proof fn sides_can_be_exchanged(column: Expr, op: Operator, value: Expr, schema: Schema)
    requires
        column_and_constant(column, value, schema) is Some,
    ensures
        predicate_of(
            Expr::BinaryExpr { left: Box::new(value), op, right: Box::new(column) },
            schema,
        ) == predicate_of(
            Expr::BinaryExpr { left: Box::new(column), op: mirrored(op), right: Box::new(value) },
            schema,
        ),
{
    assert(mirrored(mirrored(op)) == op);
}

/// A filter is only ever on a column of the schema, and on one that the
/// expression reads.
pub proof fn predicate_is_on_a_column(e: Expr, schema: Schema)
    requires
        predicate_of(e, schema) is Some,
    ensures
        schema.names().contains(predicate_of(e, schema)->0.column()),
        e.references(predicate_of(e, schema)->0.column()),
{
    let column = predicate_of(e, schema)->0.column();
    match e {
        Expr::BinaryExpr { left, right, .. } => {
            assert(left.references(column) || right.references(column));
        },
        Expr::IsNull(inner) => {
            assert(inner.references(column));
        },
        Expr::IsNotNull(inner) => {
            assert(inner.references(column));
        },
        Expr::InList { expr, .. } => {
            assert(expr.references(column));
        },
        _ => {},
    }
}

/// Whether a constant of a filter is a value: the same number, the same
/// characters, the same truth value. Of a floating point number it is the bits
/// in double precision.
pub open spec fn denotes(l: Literal, v: ScalarView) -> bool {
    match l {
        LiteralOf::Int64(n) => match v {
            Scalar::Int8(Some(x)) => x == n,
            Scalar::Int16(Some(x)) => x == n,
            Scalar::Int32(Some(x)) => x == n,
            Scalar::Int64(Some(x)) => x == n,
            Scalar::UInt8(Some(x)) => x == n,
            Scalar::UInt16(Some(x)) => x == n,
            Scalar::UInt32(Some(x)) => x == n,
            Scalar::UInt64(Some(x)) => x == n,
            _ => false,
        },
        LiteralOf::Float64(bits) => v == Scalar::<Seq<char>>::Float64(Some(bits)) || (v matches
            Scalar::Float32(Some(single)) && single.widened == bits),
        LiteralOf::String(s) => v == Scalar::Utf8(Some(s@)) || v == Scalar::LargeUtf8(Some(s@)),
        LiteralOf::Bool(b) => v == Scalar::<Seq<char>>::Boolean(Some(b)),
    }
}

/// Whether a value can be a constant of a filter: it is an integer of at most
/// 64 signed bits, a floating point number, a text or a truth value.
pub open spec fn expressible(v: ScalarView) -> bool {
    match v {
        Scalar::Int8(x) => x is Some,
        Scalar::Int16(x) => x is Some,
        Scalar::Int32(x) => x is Some,
        Scalar::Int64(x) => x is Some,
        Scalar::UInt8(x) => x is Some,
        Scalar::UInt16(x) => x is Some,
        Scalar::UInt32(x) => x is Some,
        Scalar::UInt64(x) => x matches Some(n) && n <= i64::MAX,
        Scalar::Float32(x) => x is Some,
        Scalar::Float64(x) => x is Some,
        Scalar::Utf8(x) => x is Some,
        Scalar::LargeUtf8(x) => x is Some,
        Scalar::Boolean(x) => x is Some,
        _ => false,
    }
}

/// The constant of a value is that value, and every value that can be one has a
/// constant.
pub proof fn constants_are_their_values(v: ScalarView, l: Literal)
    ensures
        literal_value(v) is Some <==> expressible(v),
        literal_value(v) == Some(l@) ==> denotes(l, v),
{
}

/// Whether an expression holds of a row, where it is a comparison of a column
/// with a literal on either side, a test for null, or a list of literals.
/// `order` says how two values stand to each other: it is negative, zero or
/// positive as the first is less, equal or greater. Comparing null holds of
/// nothing.
pub open spec fn expression_holds(
    e: Expr,
    row: spec_fn(Seq<char>) -> ScalarView,
    order: spec_fn(ScalarView, ScalarView) -> int,
) -> bool {
    match e {
        Expr::BinaryExpr { left, op, right } => match (*left, *right) {
            (Expr::Column(c), Expr::Literal(v)) => !row(c@).null() && match op {
                Operator::Eq => order(row(c@), v@) == 0,
                Operator::NotEq => order(row(c@), v@) != 0,
                Operator::Lt => order(row(c@), v@) < 0,
                Operator::LtEq => order(row(c@), v@) <= 0,
                Operator::Gt => order(row(c@), v@) > 0,
                Operator::GtEq => order(row(c@), v@) >= 0,
                _ => false,
            },
            (Expr::Literal(v), Expr::Column(c)) => !row(c@).null() && match op {
                Operator::Eq => 0 == order(row(c@), v@),
                Operator::NotEq => 0 != order(row(c@), v@),
                Operator::Lt => 0 < order(row(c@), v@),
                Operator::LtEq => 0 <= order(row(c@), v@),
                Operator::Gt => 0 > order(row(c@), v@),
                Operator::GtEq => 0 >= order(row(c@), v@),
                _ => false,
            },
            _ => false,
        },
        Expr::IsNull(inner) => match *inner {
            Expr::Column(c) => row(c@).null(),
            _ => false,
        },
        Expr::IsNotNull(inner) => match *inner {
            Expr::Column(c) => !row(c@).null(),
            _ => false,
        },
        Expr::InList { expr, list, negated: false } => match *expr {
            Expr::Column(c) => !row(c@).null() && exists|i: int|
                0 <= i < list@.len() && (#[trigger] list@[i] matches Expr::Literal(v) && order(
                    row(c@),
                    v@,
                ) == 0),
            _ => false,
        },
        _ => false,
    }
}

/// Whether a filter holds of a row. `order` says how a value stands to a
/// constant.
pub open spec fn filter_holds(
    p: Predicate,
    row: spec_fn(Seq<char>) -> ScalarView,
    order: spec_fn(ScalarView, Literal) -> int,
) -> bool {
    match p {
        Predicate::Eq { column, value } => !row(column@).null() && order(row(column@), value) == 0,
        Predicate::Lt { column, value } => !row(column@).null() && order(row(column@), value) < 0,
        Predicate::Lte { column, value } => !row(column@).null() && order(row(column@), value)
            <= 0,
        Predicate::Gt { column, value } => !row(column@).null() && order(row(column@), value) > 0,
        Predicate::Gte { column, value } => !row(column@).null() && order(row(column@), value)
            >= 0,
        Predicate::IsNull { column } => row(column@).null(),
        Predicate::IsNotNull { column } => !row(column@).null(),
        Predicate::InList { column, values } => !row(column@).null() && exists|i: int|
            0 <= i < values@.len() && order(row(column@), #[trigger] values@[i]) == 0,
    }
}

/// A row satisfies the filter that an expression is translated to exactly where
/// it satisfies the expression, for any order of values under which a constant
/// stands as the value does that it is. So no row is lost by it, nor kept.
pub proof fn translated_filters_hold_of_the_same_rows(
    e: Expr,
    schema: Schema,
    p: Predicate,
    row: spec_fn(Seq<char>) -> ScalarView,
    order: spec_fn(ScalarView, ScalarView) -> int,
    literal_order: spec_fn(ScalarView, Literal) -> int,
)
    requires
        predicate_of(e, schema) == Some(p@),
        forall|x: ScalarView, l: Literal, v: ScalarView| #[trigger]
            denotes(l, v) ==> #[trigger] literal_order(x, l) == order(x, v),
    ensures
        filter_holds(p, row, literal_order) == expression_holds(e, row, order),
{
    match e {
        Expr::BinaryExpr { left, op, right } => {
            match (*left, *right) {
                (Expr::Column(c), Expr::Literal(v)) => {
                    compared_constant(p, v@);
                    let x = row(c@);
                    assert(forall|l: Literal|
                        denotes(l, v@) ==> #[trigger] literal_order(x, l) == order(x, v@));
                },
                (Expr::Literal(v), Expr::Column(c)) => {
                    compared_constant(p, v@);
                    let x = row(c@);
                    assert(forall|l: Literal|
                        denotes(l, v@) ==> #[trigger] literal_order(x, l) == order(x, v@));
                },
                _ => {},
            }
        },
        Expr::InList { expr, list, negated: false } => {
            match (*expr, p) {
                (Expr::Column(c), Predicate::InList { column, values }) => {
                    let x = row(c@);
                    assert(column@ == c@);
                    let views = values@.map_values(|v: Literal| v@);
                    let constants = list@.map_values(|y: Expr| constant(y)->0);
                    assert(views == constants);
                    assert(values@.len() == views.len() == constants.len() == list@.len());
                    assert forall|i: int| 0 <= i < list@.len() implies {
                        &&& (#[trigger] list@[i]) is Literal
                        &&& literal_order(x, values@[i]) == order(x, list@[i]->Literal_0@)
                    } by {
                        assert(constant(list@[i]) is Some);
                        assert(views[i] == constants[i]);
                        assert(values@[i]@ == constant(list@[i])->0);
                        constants_are_their_values(list@[i]->Literal_0@, values@[i]);
                        assert(denotes(values@[i], list@[i]->Literal_0@));
                    }
                    assert forall|i: int| 0 <= i < values@.len() && literal_order(
                        x,
                        #[trigger] values@[i],
                    ) == 0 implies exists|k: int|
                        0 <= k < list@.len() && (#[trigger] list@[k] matches Expr::Literal(v)
                            && order(x, v@) == 0) by {
                        assert(list@[i] is Literal);
                    }
                    assert forall|i: int|
                        0 <= i < list@.len() && (#[trigger] list@[i] matches Expr::Literal(v)
                            && order(x, v@) == 0) implies exists|k: int|
                        0 <= k < values@.len() && literal_order(x, #[trigger] values@[k]) == 0 by {
                        assert(literal_order(x, values@[i]) == 0);
                    }
                },
                _ => {},
            }
        },
        _ => {},
    }
}

/// The constant of a filter that compares with a value is that value.
proof fn compared_constant(p: Predicate, v: ScalarView)
    ensures
        p matches Predicate::Eq { value, .. } ==> (literal_value(v) == Some(value@) ==> denotes(
            value,
            v,
        )),
        p matches Predicate::Lt { value, .. } ==> (literal_value(v) == Some(value@) ==> denotes(
            value,
            v,
        )),
        p matches Predicate::Lte { value, .. } ==> (literal_value(v) == Some(value@) ==> denotes(
            value,
            v,
        )),
        p matches Predicate::Gt { value, .. } ==> (literal_value(v) == Some(value@) ==> denotes(
            value,
            v,
        )),
        p matches Predicate::Gte { value, .. } ==> (literal_value(v) == Some(value@) ==> denotes(
            value,
            v,
        )),
{
    match p {
        Predicate::Eq { value, .. } => constants_are_their_values(v, value),
        Predicate::Lt { value, .. } => constants_are_their_values(v, value),
        Predicate::Lte { value, .. } => constants_are_their_values(v, value),
        Predicate::Gt { value, .. } => constants_are_their_values(v, value),
        Predicate::Gte { value, .. } => constants_are_their_values(v, value),
        _ => {},
    }
}

/// Whether an expression is one that can be a filter on the columns of a
/// schema: `=`, `<`, `<=`, `>` or `>=` between a column and a literal, a test of
/// a column for null, or a list of literals, not empty and not negated.
pub open spec fn is_filter(e: Expr, schema: Schema) -> bool {
    match e {
        Expr::BinaryExpr { left, op, right } => {
            &&& op == Operator::Eq || op == Operator::Lt || op == Operator::LtEq || op
                == Operator::Gt || op == Operator::GtEq
            &&& match (*left, *right) {
                (Expr::Column(c), Expr::Literal(v)) => schema.names().contains(c@) && expressible(
                    v@,
                ),
                (Expr::Literal(v), Expr::Column(c)) => schema.names().contains(c@) && expressible(
                    v@,
                ),
                _ => false,
            }
        },
        Expr::IsNull(inner) => *inner matches Expr::Column(c) && schema.names().contains(c@),
        Expr::IsNotNull(inner) => *inner matches Expr::Column(c) && schema.names().contains(c@),
        Expr::InList { expr, list, negated } => {
            &&& !negated
            &&& list@.len() > 0
            &&& *expr matches Expr::Column(c) && schema.names().contains(c@)
            &&& forall|i: int|
                0 <= i < list@.len() ==> (#[trigger] list@[i] matches Expr::Literal(v)
                    && expressible(v@))
        },
        _ => false,
    }
}

/// Every expression that can be a filter is translated, and no other.
pub proof fn filters_are_translated(e: Expr, schema: Schema)
    ensures
        predicate_of(e, schema) is Some <==> is_filter(e, schema),
{
    match e {
        Expr::InList { list, .. } => {
            assert forall|i: int| 0 <= i < list@.len() implies (constant(#[trigger] list@[i])
                is Some <==> (list@[i] matches Expr::Literal(v) && expressible(v@))) by {}
        },
        _ => {},
    }
}

} // verus!
