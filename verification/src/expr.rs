//! Physical expressions, as far as join planning looks into them.
use crate::array::Scalar;
use crate::order::SortOptions;
use std::sync::Arc;
use vstd::prelude::*;

verus! {

/// Operator of a binary expression.
#[derive(Debug, Clone, Copy, PartialEq, Eq, Structural)]
pub enum Operator {
    Eq,
    NotEq,
    Lt,
    LtEq,
    Gt,
    GtEq,
    And,
    Or,
    /// Any operator that no rule of this crate looks for.
    Other,
}

/// A reference to a column of an input.
#[derive(Debug, PartialEq, Eq)]
pub struct Column {
    /// Name of the column.
    pub name: String,
    /// Position of the column in the schema.
    pub index: usize,
}

/// A physical expression.
#[derive(Debug, PartialEq, Eq)]
pub enum PhysicalExpr {
    /// A column of the input.
    Column(Column),
    /// A constant, with its SQL text.
    Literal {
        value: Scalar,
        sql: String,
    },
    /// A binary expression, with its SQL text.
    Binary {
        left: Arc<PhysicalExpr>,
        op: Operator,
        right: Arc<PhysicalExpr>,
        sql: String,
    },
    /// Any other expression: the columns that it refers to and its SQL text.
    Other {
        columns: Vec<Column>,
        sql: String,
    },
}

/// A shared physical expression.
pub type PhysicalExprRef = Arc<PhysicalExpr>;

/// Pairs of a left and a right expression that have to be equal.
pub type JoinOn = Vec<(PhysicalExprRef, PhysicalExprRef)>;

/// An expression to sort by.
#[derive(Debug, PartialEq, Eq)]
pub struct PhysicalSortExpr {
    pub expr: PhysicalExprRef,
    pub options: SortOptions,
}

/// The conjuncts of a predicate: what its outermost `AND`s connect.
pub open spec fn conjuncts(expr: PhysicalExpr) -> Seq<PhysicalExpr>
    decreases expr,
{
    match expr {
        PhysicalExpr::Binary { left, op, right, sql } => if op == Operator::And {
            conjuncts(*left) + conjuncts(*right)
        } else {
            seq![expr]
        },
        _ => seq![expr],
    }
}

/// Whether the operator orders its operands.
pub open spec fn is_inequality(op: Operator) -> bool {
    op == Operator::Lt || op == Operator::LtEq || op == Operator::Gt || op == Operator::GtEq
}

} // verus!
