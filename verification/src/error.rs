//! Errors of planning and execution.
use crate::expr::Operator;
use crate::types::JoinType;
use vstd::prelude::*;

verus! {

/// Why a join could not be planned or run.
#[derive(Debug, PartialEq, Eq)]
pub enum JoinError {
    /// An as-of condition needs an inequality operator.
    NotAnInequality(Operator),
    /// Only an inequality operator can be flipped.
    CannotFlip(Operator),
    /// As-of joins are inner or left joins.
    UnsupportedJoinType(JoinType),
    /// An input lacks a column that an equality key refers to.
    MissingJoinColumns,
    /// A projection refers to a column past the last one.
    ProjectionOutOfBounds {
        index: usize,
        fields: usize,
    },
    /// The plan has no such output partition.
    InvalidPartition(usize),
    /// The right input has more rows than 32 bits can number.
    TooManyRightRows,
    /// An expression refers to a column that its input does not have.
    UnknownColumn(usize),
    /// A join key could not be evaluated, for the given reason.
    Evaluation(String),
    /// Columns do not fit the schema that they were put under.
    InvalidRecordBatch,
    /// The key columns could not be sorted or encoded.
    Arrow,
    /// The statistics of an input are not available, for the given reason.
    Statistics(String),
    /// A join of this type cannot be swapped for unbounded input.
    CannotSwapUnbounded(JoinType),
}

} // verus!
