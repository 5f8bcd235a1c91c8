//! The inequality that drives an as-of join.
use crate::error::JoinError;
use crate::expr;
use crate::expr::{Operator, PhysicalExprRef};
use crate::order::SortOptions;
use crate::shared::share;
use vstd::prelude::*;

verus! {

/// Whether an as-of join searches backward or forward from each left row.
#[derive(Debug, Clone, Copy, PartialEq, Eq, Structural)]
pub enum AsOfJoinDirection {
    /// Looks for the greatest right key that is less than, or equal to, the left
    /// key.
    Backward,
    /// Looks for the smallest right key that is greater than, or equal to, the
    /// left key.
    Forward,
}

/// The inequality predicate that drives an as-of join.
#[derive(Debug, Clone, PartialEq, Eq)]
pub struct AsOfJoinCondition {
    /// As-of key expression evaluated against the left input.
    pub left: PhysicalExprRef,
    /// As-of key expression evaluated against the right input.
    pub right: PhysicalExprRef,
    /// Search direction derived from the inequality.
    pub direction: AsOfJoinDirection,
    /// Whether the inequality is strict.
    pub strict: bool,
}

/// The search direction of `left op right`.
pub open spec fn direction_of(op: Operator) -> AsOfJoinDirection {
    if op == Operator::Gt || op == Operator::GtEq {
        AsOfJoinDirection::Backward
    } else {
        AsOfJoinDirection::Forward
    }
}

/// Whether the inequality excludes equal keys.
pub open spec fn is_strict(op: Operator) -> bool {
    op == Operator::Gt || op == Operator::Lt
}

/// The sort order of as-of keys that a search direction calls for: nearer rows
/// come later, nulls last.
pub open spec fn sort_options_of(direction: AsOfJoinDirection) -> SortOptions {
    SortOptions { descending: direction == AsOfJoinDirection::Forward, nulls_first: false }
}

impl AsOfJoinDirection {
    /// Returns the sort order of the as-of keys.
    ///
    /// A forward join sorts descending, so that the last row that still passes is
    /// the nearest one in both directions.
    pub fn sort_options(&self) -> (options: SortOptions)
        ensures
            options == sort_options_of(*self),
    {
        let descending = match self {
            AsOfJoinDirection::Forward => true,
            AsOfJoinDirection::Backward => false,
        };
        SortOptions::new(descending, false)
    }
}

impl AsOfJoinCondition {
    /// Creates an as-of condition from a normalized `left op right` inequality.
    pub fn try_new(left: PhysicalExprRef, op: Operator, right: PhysicalExprRef) -> (result: Result<
        AsOfJoinCondition,
        JoinError,
    >)
        ensures
            expr::is_inequality(op) ==> result == Ok::<AsOfJoinCondition, JoinError>(
                AsOfJoinCondition {
                    left,
                    right,
                    direction: direction_of(op),
                    strict: is_strict(op),
                },
            ),
            !expr::is_inequality(op) ==> result == Err::<AsOfJoinCondition, JoinError>(
                JoinError::NotAnInequality(op),
            ),
    {
        let (direction, strict) = match op {
            Operator::Gt => (AsOfJoinDirection::Backward, true),
            Operator::GtEq => (AsOfJoinDirection::Backward, false),
            Operator::Lt => (AsOfJoinDirection::Forward, true),
            Operator::LtEq => (AsOfJoinDirection::Forward, false),
            _ => return Err(JoinError::NotAnInequality(op)),
        };
        Ok(AsOfJoinCondition { left, right, direction, strict })
    }

    /// Returns the sort order of the as-of keys.
    pub fn sort_options(&self) -> (options: SortOptions)
        ensures
            options == sort_options_of(self.direction),
    {
        self.direction.sort_options()
    }

    /// Returns another condition on the same expressions.
    pub(crate) fn duplicate(&self) -> (condition: AsOfJoinCondition)
        ensures
            condition == *self,
    {
        AsOfJoinCondition {
            left: share(&self.left),
            right: share(&self.right),
            direction: self.direction,
            strict: self.strict,
        }
    }
}

/// Returns the operator that holds of exchanged operands.
pub fn flip_inequality(op: Operator) -> (result: Result<Operator, JoinError>)
    ensures
        expr::is_inequality(op) ==> result == Ok::<Operator, JoinError>(flipped(op)),
        !expr::is_inequality(op) ==> result == Err::<Operator, JoinError>(
            JoinError::CannotFlip(op),
        ),
{
    match op {
        Operator::Lt => Ok(Operator::Gt),
        Operator::LtEq => Ok(Operator::GtEq),
        Operator::Gt => Ok(Operator::Lt),
        Operator::GtEq => Ok(Operator::LtEq),
        _ => Err(JoinError::CannotFlip(op)),
    }
}

/// The operator that holds of exchanged operands.
pub open spec fn flipped(op: Operator) -> Operator {
    match op {
        Operator::Lt => Operator::Gt,
        Operator::LtEq => Operator::GtEq,
        Operator::Gt => Operator::Lt,
        Operator::GtEq => Operator::LtEq,
        _ => op,
    }
}

} // verus!
