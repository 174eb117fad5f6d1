//! Filter and assignment expressions, as far as the engine looks into them.
use vstd::prelude::*;

use crate::scalar::ScalarValue;
use crate::text::texts;

verus! {

/// A binary operator.
#[derive(Debug, Clone, Copy, PartialEq, Eq, Structural)]
pub enum Operator {
    Eq,
    NotEq,
    Lt,
    LtEq,
    Gt,
    GtEq,
    And,
    Or,
    /// Arithmetic, pattern matching, and the rest.
    Other,
}

/// A logical expression. Forms that the engine never looks into are kept as
/// the columns that they read.
#[derive(Debug, PartialEq, Eq)]
pub enum Expr {
    Column(String),
    Literal(ScalarValue),
    BinaryExpr { left: Box<Expr>, op: Operator, right: Box<Expr> },
    IsNull(Box<Expr>),
    IsNotNull(Box<Expr>),
    InList { expr: Box<Expr>, list: Vec<Expr>, negated: bool },
    Alias { expr: Box<Expr>, name: String },
    Opaque { columns: Vec<String> },
}

impl Expr {
    /// Whether the expression reads the column `name`.
    pub open spec fn references(self, name: Seq<char>) -> bool
        decreases self,
    {
        match self {
            Expr::Column(c) => c@ == name,
            Expr::Literal(_) => false,
            Expr::BinaryExpr { left, right, .. } => left.references(name) || right.references(name),
            Expr::IsNull(e) => e.references(name),
            Expr::IsNotNull(e) => e.references(name),
            Expr::InList { expr, list, .. } => expr.references(name) || exists|i: int|
                0 <= i < list.len() && (#[trigger] list[i]).references(name),
            Expr::Alias { expr, .. } => expr.references(name),
            Expr::Opaque { columns } => exists|i: int|
                0 <= i < columns@.len() && (#[trigger] columns@[i])@ == name,
        }
    }

    /// Decides whether the expression reads the column `name`.
    pub fn reads(&self, name: &String) -> (r: bool)
        ensures
            r == self.references(name@),
        decreases self,
    {
        match self {
            Expr::Column(c) => *c == *name,
            Expr::Literal(_) => false,
            Expr::BinaryExpr { left, right, .. } => left.reads(name) || right.reads(name),
            Expr::IsNull(e) => e.reads(name),
            Expr::IsNotNull(e) => e.reads(name),
            Expr::InList { expr, list, .. } => {
                if expr.reads(name) {
                    return true;
                }
                let mut i: usize = 0;
                while i < list.len()
                    invariant
                        i <= list.len(),
                        *self matches Expr::InList { list: l, .. } && l == list,
                        forall|k: int| 0 <= k < i ==> !(#[trigger] list[k]).references(name@),
                    decreases list.len() - i,
                {
                    if list[i].reads(name) {
                        return true;
                    }
                    i = i + 1;
                }
                false
            },
            Expr::Alias { expr, .. } => expr.reads(name),
            Expr::Opaque { columns } => {
                let mut i: usize = 0;
                while i < columns.len()
                    invariant
                        i <= columns.len(),
                        *self matches Expr::Opaque { columns: l } && l == columns,
                        forall|k: int| 0 <= k < i ==> (#[trigger] columns@[k])@ != name@,
                    decreases columns.len() - i,
                {
                    if columns[i] == *name {
                        return true;
                    }
                    i = i + 1;
                }
                false
            },
        }
    }
}

/// The expressions that an expression is made of.
pub open spec fn operands(e: Expr) -> Set<Expr> {
    match e {
        Expr::BinaryExpr { left, right, .. } => set![*left, *right],
        Expr::IsNull(inner) => set![*inner],
        Expr::IsNotNull(inner) => set![*inner],
        Expr::InList { expr, list, .. } => list@.to_set().insert(*expr),
        Expr::Alias { expr, .. } => set![*expr],
        _ => Set::empty(),
    }
}

/// An expression reads the columns that it names and those that its operands
/// read, and no others.
pub proof fn columns_are_read_by_the_operands(e: Expr, name: Seq<char>)
    ensures
        e.references(name) <==> ({
            ||| e matches Expr::Column(c) && c@ == name
            ||| e matches Expr::Opaque { columns } && texts(columns@).contains(name)
            ||| exists|part: Expr| #[trigger] operands(e).contains(part) && part.references(name)
        }),
{
    match e {
        Expr::BinaryExpr { left, right, .. } => {
            assert(operands(e) == set![*left, *right]);
            assert(operands(e).contains(*left) && operands(e).contains(*right));
            assert(e.references(name) == (left.references(name) || right.references(name)));
            assert forall|part: Expr| #[trigger]
                part.references(name) && operands(e).contains(part) implies e.references(name) by {
                assert(part == *left || part == *right);
            }
            if e.references(name) {
                if left.references(name) {
                    assert(operands(e).contains(*left) && (*left).references(name));
                } else {
                    assert(operands(e).contains(*right) && (*right).references(name));
                }
            }
        },
        Expr::IsNull(inner) => {
            assert(operands(e).contains(*inner));
        },
        Expr::IsNotNull(inner) => {
            assert(operands(e).contains(*inner));
        },
        Expr::InList { expr, list, .. } => {
            assert(operands(e).contains(*expr));
            assert forall|i: int| 0 <= i < list.len() implies operands(e).contains(
                #[trigger] list[i],
            ) by {
                assert(list@[i] == list[i]);
                assert(list@.contains(list@[i]));
            }
            assert forall|part: Expr| #[trigger]
                part.references(name) && operands(e).contains(part) implies e.references(name) by {
                if part != *expr {
                    let i = list@.index_of(part);
                    assert(list[i] == part);
                }
            }
        },
        Expr::Alias { expr, .. } => {
            assert(operands(e).contains(*expr));
        },
        Expr::Opaque { columns } => {
            if e.references(name) {
                let i = choose|i: int|
                    0 <= i < columns@.len() && (#[trigger] columns@[i])@ == name;
                assert(texts(columns@)[i] == name);
            }
            if texts(columns@).contains(name) {
                let i = texts(columns@).index_of(name);
                assert(columns@[i]@ == name);
            }
        },
        _ => {},
    }
}

} // verus!
