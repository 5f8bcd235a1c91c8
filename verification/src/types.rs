//! Vocabulary that planning and execution share.
use vstd::prelude::*;

verus! {

/// How two inputs are joined.
#[derive(Debug, Clone, Copy, PartialEq, Eq, Structural)]
pub enum JoinType {
    Inner,
    Left,
    Right,
    Full,
    LeftSemi,
    RightSemi,
    LeftAnti,
    RightAnti,
    LeftMark,
    RightMark,
}

/// The input that something comes from.
#[derive(Debug, Clone, Copy, PartialEq, Eq, Structural)]
pub enum JoinSide {
    Left,
    Right,
    Neither,
}

/// Whether null equality keys match each other.
#[derive(Debug, Clone, Copy, PartialEq, Eq, Structural)]
pub enum NullEquality {
    NullEqualsNothing,
    NullEqualsNull,
}

/// Where a column of a join's output, or of its filter, comes from.
#[derive(Debug, Clone, Copy, PartialEq, Eq, Structural)]
pub struct ColumnIndex {
    /// Position of the column in the input.
    pub index: usize,
    /// The input.
    pub side: JoinSide,
}

} // verus!
