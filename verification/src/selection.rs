//! The rule that selects how joins are run: which side is built, in which partition
//! mode, as which operator.
//!
//! The rule tries to modify a plan so that it can accommodate infinite sources, and
//! to use statistics, if there are any, to obtain plans that perform better. Here it
//! looks at one join at a time and says what to do with it.
use crate::condition::AsOfJoinCondition;
use crate::error::JoinError;
use crate::exec;
use crate::exec::{copy_on, copy_projection, AsOfJoinExec};
use crate::expr::{JoinOn, PhysicalExprRef, PhysicalSortExpr};
use crate::join;
use crate::plan;
use crate::plan::{EmissionType, PlanInput, Statistics};
use crate::predicates::{extract_asof_join_predicates, FilterView, JoinFilter};
use crate::shared::share;
use crate::types::{JoinSide, JoinType, NullEquality};
use std::sync::Arc;
use vstd::prelude::*;

verus! {

/// How the inputs of a hash join are partitioned.
#[derive(Debug, Clone, Copy, PartialEq, Eq, Structural)]
pub enum PartitionMode {
    /// Both inputs are partitioned by the keys.
    Partitioned,
    /// The left input is collected into one partition.
    CollectLeft,
    /// The rule decides.
    Auto,
}

/// How the inputs of a symmetric hash join are partitioned.
#[derive(Debug, Clone, Copy, PartialEq, Eq, Structural)]
pub enum StreamJoinPartitionMode {
    Partitioned,
    SinglePartition,
}

/// A hash join.
#[derive(Debug, PartialEq, Eq)]
pub struct HashJoin {
    /// Left input, the side that is built.
    pub left: Arc<PlanInput>,
    /// Right input, the side that is probed.
    pub right: Arc<PlanInput>,
    /// Pairs of expressions that have to be equal.
    pub on: JoinOn,
    /// Further predicate on pairs of rows.
    pub filter: Option<JoinFilter>,
    /// How the join is performed.
    pub join_type: JoinType,
    /// Projection of the output.
    pub projection: Option<Vec<usize>>,
    /// How the inputs are partitioned.
    pub partition_mode: PartitionMode,
    /// Whether null keys match each other.
    pub null_equality: NullEquality,
    /// Whether a join of this type can be run with its inputs exchanged.
    pub supports_swap: bool,
}

/// A nested loop join.
#[derive(Debug, PartialEq, Eq)]
pub struct NestedLoopJoin {
    /// Left input.
    pub left: Arc<PlanInput>,
    /// Right input.
    pub right: Arc<PlanInput>,
    /// Predicate on pairs of rows.
    pub filter: Option<JoinFilter>,
    /// How the join is performed.
    pub join_type: JoinType,
    /// Projection of the output.
    pub projection: Option<Vec<usize>>,
    /// Whether a join of this type can be run with its inputs exchanged.
    pub supports_swap: bool,
}

/// A cross join.
#[derive(Debug, PartialEq, Eq)]
pub struct CrossJoin {
    /// Left input.
    pub left: Arc<PlanInput>,
    /// Right input.
    pub right: Arc<PlanInput>,
}

/// A hash join that builds and probes both sides as their rows arrive.
#[derive(Debug, PartialEq, Eq)]
pub struct SymmetricHashJoin {
    /// Left input.
    pub left: Arc<PlanInput>,
    /// Right input.
    pub right: Arc<PlanInput>,
    /// Pairs of expressions that have to be equal.
    pub on: JoinOn,
    /// Further predicate on pairs of rows.
    pub filter: Option<JoinFilter>,
    /// How the join is performed.
    pub join_type: JoinType,
    /// Whether null keys match each other.
    pub null_equality: NullEquality,
    /// The order of the left input that is kept.
    pub left_order: Option<Arc<Vec<PhysicalSortExpr>>>,
    /// The order of the right input that is kept.
    pub right_order: Option<Arc<Vec<PhysicalSortExpr>>>,
    /// How the inputs are partitioned.
    pub mode: StreamJoinPartitionMode,
}

/// A node of a plan.
#[derive(Debug, PartialEq, Eq)]
pub enum PlanNode {
    HashJoin(HashJoin),
    NestedLoopJoin(NestedLoopJoin),
    CrossJoin(CrossJoin),
    /// A join that the rule has fixed for inputs that stream forever.
    SymmetricHashJoin(SymmetricHashJoin),
    /// A join that is run as an as-of join.
    AsOfJoin(AsOfJoinExec),
    /// A node that the rule leaves alone.
    Other,
}

/// What to do with a join.
#[derive(Debug, PartialEq, Eq)]
pub enum Rewrite {
    /// Exchange the inputs of a hash join and run it in the given mode.
    SwapHashJoin(PartitionMode),
    /// Run a hash join in the given mode.
    SetPartitionMode(PartitionMode),
    /// Exchange the inputs of a cross join or a nested loop join.
    SwapInputs,
    /// Run a hash join as a symmetric hash join that keeps the given orders.
    SymmetricHashJoin {
        left_order: Option<Arc<Vec<PhysicalSortExpr>>>,
        right_order: Option<Arc<Vec<PhysicalSortExpr>>>,
        mode: StreamJoinPartitionMode,
    },
    /// Run the join as an as-of join.
    AsOfJoin(AsOfJoinExec),
}

/// A hash join in another partition mode: its sides, keys, filter, type, projection and
/// null equality stay.
pub open spec fn in_mode(hash_join: HashJoin, mode: PartitionMode) -> HashJoin {
    HashJoin { partition_mode: mode, ..hash_join }
}

/// A hash join as a symmetric one: its sides, keys, filter, type and null equality stay.
pub open spec fn as_symmetric(
    hash_join: HashJoin,
    left_order: Option<Arc<Vec<PhysicalSortExpr>>>,
    right_order: Option<Arc<Vec<PhysicalSortExpr>>>,
    mode: StreamJoinPartitionMode,
) -> SymmetricHashJoin {
    SymmetricHashJoin {
        left: hash_join.left,
        right: hash_join.right,
        on: hash_join.on,
        filter: hash_join.filter,
        join_type: hash_join.join_type,
        null_equality: hash_join.null_equality,
        left_order,
        right_order,
        mode,
    }
}

/// What a rewrite that does not exchange the inputs makes of a node.
pub open spec fn rewritten(node: PlanNode, rewrite: Rewrite) -> Option<PlanNode> {
    match (node, rewrite) {
        (PlanNode::HashJoin(hash_join), Rewrite::SetPartitionMode(mode)) => Some(
            PlanNode::HashJoin(in_mode(hash_join, mode)),
        ),
        (
            PlanNode::HashJoin(hash_join),
            Rewrite::SymmetricHashJoin { left_order, right_order, mode },
        ) => Some(
            PlanNode::SymmetricHashJoin(as_symmetric(hash_join, left_order, right_order, mode)),
        ),
        (_, Rewrite::AsOfJoin(join)) => Some(PlanNode::AsOfJoin(join)),
        _ => None,
    }
}

/// Whether a node is what a rewrite that exchanges the inputs makes of another: the same
/// kind of join with its sides exchanged, a hash join in the mode that the rewrite gives.
/// What becomes of the keys, the filter, the type and the projection is a matter of each
/// kind of join.
pub open spec fn is_swapped(node: PlanNode, rewrite: Rewrite, swapped: PlanNode) -> bool {
    match (node, rewrite, swapped) {
        (
            PlanNode::HashJoin(before),
            Rewrite::SwapHashJoin(mode),
            PlanNode::HashJoin(after),
        ) => after.left == before.right && after.right == before.left && after.partition_mode
            == mode,
        (
            PlanNode::CrossJoin(before),
            Rewrite::SwapInputs,
            PlanNode::CrossJoin(after),
        ) => after.left == before.right && after.right == before.left,
        (
            PlanNode::NestedLoopJoin(before),
            Rewrite::SwapInputs,
            PlanNode::NestedLoopJoin(after),
        ) => after.left == before.right && after.right == before.left,
        _ => false,
    }
}

/// Whether a decision that leaves the sides of a hash join as they are keeps all its
/// parts, in the given mode.
pub open spec fn keeps_parts(
    hash_join: HashJoin,
    decision: Result<Option<Rewrite>, JoinError>,
    mode: PartitionMode,
) -> bool {
    decision is Ok && decision->Ok_0 is Some && decision->Ok_0->0 !is SwapHashJoin ==> rewritten(
        PlanNode::HashJoin(hash_join),
        decision->Ok_0->0,
    ) == Some(PlanNode::HashJoin(in_mode(hash_join, mode)))
}

/// Makes the node that a rewrite calls for which does not exchange the inputs.
pub fn rewrite_node(node: PlanNode, rewrite: Rewrite) -> (made: Option<PlanNode>)
    ensures
        made == rewritten(node, rewrite),
{
    match (node, rewrite) {
        (PlanNode::HashJoin(hash_join), Rewrite::SetPartitionMode(mode)) => Some(
            PlanNode::HashJoin(
                HashJoin {
                    left: hash_join.left,
                    right: hash_join.right,
                    on: hash_join.on,
                    filter: hash_join.filter,
                    join_type: hash_join.join_type,
                    projection: hash_join.projection,
                    partition_mode: mode,
                    null_equality: hash_join.null_equality,
                    supports_swap: hash_join.supports_swap,
                },
            ),
        ),
        (
            PlanNode::HashJoin(hash_join),
            Rewrite::SymmetricHashJoin { left_order, right_order, mode },
        ) => Some(
            PlanNode::SymmetricHashJoin(
                SymmetricHashJoin {
                    left: hash_join.left,
                    right: hash_join.right,
                    on: hash_join.on,
                    filter: hash_join.filter,
                    join_type: hash_join.join_type,
                    null_equality: hash_join.null_equality,
                    left_order,
                    right_order,
                    mode,
                },
            ),
        ),
        (_, Rewrite::AsOfJoin(join)) => Some(PlanNode::AsOfJoin(join)),
        _ => None,
    }
}

/// What the rule can be told.
#[derive(Debug, Clone, Copy, PartialEq, Eq, Structural)]
pub struct OptimizerOptions {
    /// Whether joins may repartition their inputs.
    pub repartition_joins: bool,
    /// Inputs with at least this many bytes are not collected.
    pub hash_join_single_partition_threshold: usize,
    /// Inputs with at least this many rows are not collected, where their size in
    /// bytes is not known.
    pub hash_join_single_partition_threshold_rows: usize,
}

/// The rule that selects how joins are run.
#[derive(Debug, Default)]
pub struct JoinSelection {}

/// Whether the columns of a filter exist in the inputs, and the inputs say of each of
/// their columns whether it is ordered.
pub open spec fn filter_wf(
    filter: Option<JoinFilter>,
    left: Arc<PlanInput>,
    right: Arc<PlanInput>,
) -> bool {
    &&& left.ordered_columns@.len() == left.schema.fields@.len()
    &&& right.ordered_columns@.len() == right.schema.fields@.len()
    &&& filter is Some ==> join::columns_exist(
        left.schema.fields@.len(),
        right.schema.fields@.len(),
        filter->0.column_indices@,
    )
}

impl PlanNode {
    /// Whether the filter of a join fits its inputs.
    pub open spec fn wf(self) -> bool {
        match self {
            PlanNode::HashJoin(hash_join) => filter_wf(
                hash_join.filter,
                hash_join.left,
                hash_join.right,
            ),
            PlanNode::NestedLoopJoin(nl_join) => filter_wf(
                nl_join.filter,
                nl_join.left,
                nl_join.right,
            ),
            _ => true,
        }
    }
}

/// Whether the left side is larger, by bytes where both sizes are known, else by rows
/// where both counts are known.
pub open spec fn left_is_larger(left: Statistics, right: Statistics) -> bool {
    match (left.total_byte_size.value(), right.total_byte_size.value()) {
        (Some(l), Some(r)) => l > r,
        _ => match (left.num_rows.value(), right.num_rows.value()) {
            (Some(l), Some(r)) => l > r,
            _ => false,
        },
    }
}

/// Whether the inputs of a join should be exchanged, or whose statistics could not be
/// had, the left input's first.
pub open spec fn swap_decision(left: Arc<PlanInput>, right: Arc<PlanInput>) -> Result<
    bool,
    JoinError,
> {
    match (left.statistics, right.statistics) {
        (Err(reason), _) => Err(JoinError::Statistics(reason)),
        (Ok(_), Err(reason)) => Err(JoinError::Statistics(reason)),
        (Ok(l), Ok(r)) => Ok(left_is_larger(l, r)),
    }
}

/// Returns whether the inputs of a join should be exchanged, so that the smaller one
/// is on the left.
pub fn should_swap_join_order(left: &Arc<PlanInput>, right: &Arc<PlanInput>) -> (result: Result<
    bool,
    JoinError,
>)
    ensures
        result == swap_decision(*left, *right),
{
    let left_stats = match &left.statistics {
        Ok(statistics) => statistics,
        Err(reason) => return Err(JoinError::Statistics(reason.clone())),
    };
    let right_stats = match &right.statistics {
        Ok(statistics) => statistics,
        Err(reason) => return Err(JoinError::Statistics(reason.clone())),
    };
    match (left_stats.total_byte_size.get_value(), right_stats.total_byte_size.get_value()) {
        (Some(l), Some(r)) => Ok(l > r),
        _ => match (left_stats.num_rows.get_value(), right_stats.num_rows.get_value()) {
            (Some(l), Some(r)) => Ok(l > r),
            _ => Ok(false),
        },
    }
}

/// Whether an input is known to be small enough to be collected. Sizes of zero are not
/// trusted.
pub open spec fn is_collectable(
    plan: Arc<PlanInput>,
    threshold_byte_size: usize,
    threshold_num_rows: usize,
) -> bool {
    match plan.statistics {
        Ok(statistics) => match (
            statistics.total_byte_size.value(),
            statistics.num_rows.value(),
        ) {
            (Some(byte_size), _) => 0 < byte_size < threshold_byte_size,
            (None, Some(num_rows)) => 0 < num_rows < threshold_num_rows,
            (None, None) => false,
        },
        Err(_) => false,
    }
}

/// Returns whether an input is known to be small enough to be collected.
fn supports_collect_by_thresholds(
    plan: &Arc<PlanInput>,
    threshold_byte_size: usize,
    threshold_num_rows: usize,
) -> (result: bool)
    ensures
        result == is_collectable(*plan, threshold_byte_size, threshold_num_rows),
{
    let stats = match &plan.statistics {
        Ok(stats) => stats,
        Err(_) => return false,
    };
    if let Some(byte_size) = stats.total_byte_size.get_value() {
        byte_size != 0 && byte_size < threshold_byte_size
    } else if let Some(num_rows) = stats.num_rows.get_value() {
        num_rows != 0 && num_rows < threshold_num_rows
    } else {
        false
    }
}

/// How a hash join is run with its left side collected, given which sides can be
/// collected: the smaller one where both can, or none.
pub open spec fn collect_decision(
    hash_join: HashJoin,
    left_can_collect: bool,
    right_can_collect: bool,
) -> Result<Option<Rewrite>, JoinError> {
    let keep = Rewrite::SetPartitionMode(PartitionMode::CollectLeft);
    let swap = Rewrite::SwapHashJoin(PartitionMode::CollectLeft);
    if left_can_collect && right_can_collect && hash_join.supports_swap {
        match swap_decision(hash_join.left, hash_join.right) {
            Ok(true) => Ok(Some(swap)),
            Ok(false) => Ok(Some(keep)),
            Err(error) => Err(error),
        }
    } else if left_can_collect {
        Ok(Some(keep))
    } else if right_can_collect && hash_join.supports_swap {
        Ok(Some(swap))
    } else {
        Ok(None)
    }
}

/// Tries to run a hash join with its left side collected.
///
/// Where the thresholds are not ignored, only sides that are known to be small enough
/// are collected.
pub fn try_collect_left(
    hash_join: &HashJoin,
    ignore_threshold: bool,
    threshold_byte_size: usize,
    threshold_num_rows: usize,
) -> (result: Result<Option<Rewrite>, JoinError>)
    ensures
        result == collect_decision(
            *hash_join,
            ignore_threshold || is_collectable(
                hash_join.left,
                threshold_byte_size,
                threshold_num_rows,
            ),
            ignore_threshold || is_collectable(
                hash_join.right,
                threshold_byte_size,
                threshold_num_rows,
            ),
        ),
        keeps_parts(*hash_join, result, PartitionMode::CollectLeft),
{
    let left_can_collect = ignore_threshold || supports_collect_by_thresholds(
        &hash_join.left,
        threshold_byte_size,
        threshold_num_rows,
    );
    let right_can_collect = ignore_threshold || supports_collect_by_thresholds(
        &hash_join.right,
        threshold_byte_size,
        threshold_num_rows,
    );
    match (left_can_collect, right_can_collect) {
        (true, true) => {
            if hash_join.supports_swap {
                match should_swap_join_order(&hash_join.left, &hash_join.right) {
                    Ok(true) => Ok(Some(Rewrite::SwapHashJoin(PartitionMode::CollectLeft))),
                    Ok(false) => Ok(Some(Rewrite::SetPartitionMode(PartitionMode::CollectLeft))),
                    Err(error) => Err(error),
                }
            } else {
                Ok(Some(Rewrite::SetPartitionMode(PartitionMode::CollectLeft)))
            }
        },
        (true, false) => Ok(Some(Rewrite::SetPartitionMode(PartitionMode::CollectLeft))),
        (false, true) => {
            if hash_join.supports_swap {
                Ok(Some(Rewrite::SwapHashJoin(PartitionMode::CollectLeft)))
            } else {
                Ok(None)
            }
        },
        (false, false) => Ok(None),
    }
}

/// How a hash join is run with both sides partitioned: with the smaller side on the
/// left, where it can be swapped.
pub open spec fn partitioned_decision(hash_join: HashJoin) -> Result<Rewrite, JoinError> {
    if hash_join.supports_swap {
        match swap_decision(hash_join.left, hash_join.right) {
            Ok(true) => Ok(Rewrite::SwapHashJoin(PartitionMode::Partitioned)),
            Ok(false) => Ok(Rewrite::SetPartitionMode(PartitionMode::Partitioned)),
            Err(error) => Err(error),
        }
    } else {
        Ok(Rewrite::SetPartitionMode(PartitionMode::Partitioned))
    }
}

/// Runs a hash join with both sides partitioned, swapping them where that helps.
pub fn partitioned_hash_join(hash_join: &HashJoin) -> (result: Result<Rewrite, JoinError>)
    ensures
        result == partitioned_decision(*hash_join),
        result is Ok && result->Ok_0 !is SwapHashJoin ==> rewritten(
            PlanNode::HashJoin(*hash_join),
            result->Ok_0,
        ) == Some(PlanNode::HashJoin(in_mode(*hash_join, PartitionMode::Partitioned))),
{
    if hash_join.supports_swap {
        match should_swap_join_order(&hash_join.left, &hash_join.right) {
            Ok(true) => return Ok(Rewrite::SwapHashJoin(PartitionMode::Partitioned)),
            Ok(false) => {},
            Err(error) => return Err(error),
        }
    }
    Ok(Rewrite::SetPartitionMode(PartitionMode::Partitioned))
}

/// The first decision, or the second where the first leaves the join as it is.
pub open spec fn or_else(
    first: Result<Option<Rewrite>, JoinError>,
    second: Result<Rewrite, JoinError>,
) -> Result<Option<Rewrite>, JoinError> {
    match (first, second) {
        (Ok(None), Ok(rewrite)) => Ok(Some(rewrite)),
        (Ok(None), Err(error)) => Err(error),
        _ => first,
    }
}

/// A rewrite where the inputs should be exchanged, nothing where they should not.
pub open spec fn where_swapped(
    left: Arc<PlanInput>,
    right: Arc<PlanInput>,
    supports_swap: bool,
    rewrite: Rewrite,
) -> Result<Option<Rewrite>, JoinError> {
    if supports_swap {
        match swap_decision(left, right) {
            Ok(true) => Ok(Some(rewrite)),
            Ok(false) => Ok(None),
            Err(error) => Err(error),
        }
    } else {
        Ok(None)
    }
}

/// What statistics call for in a join that is no as-of join.
pub open spec fn statistical_decision(
    plan: PlanNode,
    threshold_byte_size: usize,
    threshold_num_rows: usize,
) -> Result<Option<Rewrite>, JoinError> {
    match plan {
        PlanNode::HashJoin(hash_join) => match hash_join.partition_mode {
            PartitionMode::Auto => or_else(
                collect_decision(
                    hash_join,
                    is_collectable(hash_join.left, threshold_byte_size, threshold_num_rows),
                    is_collectable(hash_join.right, threshold_byte_size, threshold_num_rows),
                ),
                partitioned_decision(hash_join),
            ),
            PartitionMode::CollectLeft => or_else(
                collect_decision(hash_join, true, true),
                partitioned_decision(hash_join),
            ),
            PartitionMode::Partitioned => where_swapped(
                hash_join.left,
                hash_join.right,
                hash_join.supports_swap,
                Rewrite::SwapHashJoin(PartitionMode::Partitioned),
            ),
        },
        PlanNode::CrossJoin(cross_join) => where_swapped(
            cross_join.left,
            cross_join.right,
            true,
            Rewrite::SwapInputs,
        ),
        PlanNode::NestedLoopJoin(nl_join) => where_swapped(
            nl_join.left,
            nl_join.right,
            nl_join.supports_swap,
            Rewrite::SwapInputs,
        ),
        _ => Ok(None),
    }
}

/// The parts of an as-of join.
pub struct AsOfParts {
    pub left: Arc<PlanInput>,
    pub right: Arc<PlanInput>,
    pub on: Seq<(PhysicalExprRef, PhysicalExprRef)>,
    pub condition: AsOfJoinCondition,
    pub join_type: JoinType,
    pub projection: Option<Vec<usize>>,
    pub null_equality: NullEquality,
}

/// The filter of a join between its inputs.
pub open spec fn filter_view(
    filter: JoinFilter,
    left: Arc<PlanInput>,
    right: Arc<PlanInput>,
) -> FilterView {
    FilterView {
        column_indices: filter.column_indices@,
        left: *left.schema,
        right: *right.schema,
    }
}

/// The parts of the as-of join that a join can be run as, if it can: it is an inner or
/// left join, and its filter is made of one inequality, and of equalities, between
/// columns of both inputs.
pub open spec fn asof_parts_of(
    left: Arc<PlanInput>,
    right: Arc<PlanInput>,
    on: Seq<(PhysicalExprRef, PhysicalExprRef)>,
    filter: Option<JoinFilter>,
    join_type: JoinType,
    projection: Option<Vec<usize>>,
    null_equality: NullEquality,
) -> Option<AsOfParts> {
    match filter {
        Some(filter) => {
            let view = filter_view(filter, left, right);
            let conjuncts = filter.conjuncts();
            if (join_type == JoinType::Inner || join_type == JoinType::Left) && exists|at: int|
                #[trigger] view.asof_at(conjuncts, at) {
                let at = choose|at: int| #[trigger] view.asof_at(conjuncts, at);
                Some(
                    AsOfParts {
                        left,
                        right,
                        on: on + view.equality_keys(conjuncts),
                        condition: view.asof_key(conjuncts[at])->0,
                        join_type,
                        projection,
                        null_equality,
                    },
                )
            } else {
                None
            }
        },
        None => None,
    }
}

/// The parts of the as-of join that a node can be run as, if it can. The keys of a hash
/// join come first; null keys of a nested loop join match nothing.
pub open spec fn asof_parts(plan: PlanNode) -> Option<AsOfParts> {
    match plan {
        PlanNode::HashJoin(hash_join) => asof_parts_of(
            hash_join.left,
            hash_join.right,
            hash_join.on@,
            hash_join.filter,
            hash_join.join_type,
            hash_join.projection,
            hash_join.null_equality,
        ),
        PlanNode::NestedLoopJoin(nl_join) => asof_parts_of(
            nl_join.left,
            nl_join.right,
            Seq::empty(),
            nl_join.filter,
            nl_join.join_type,
            nl_join.projection,
            NullEquality::NullEqualsNothing,
        ),
        _ => None,
    }
}

/// Whether a result is what making an as-of join of the given parts returns.
pub open spec fn makes_asof_join(
    result: Result<AsOfJoinExec, JoinError>,
    parts: AsOfParts,
) -> bool {
    exec::makes_join(
        result,
        parts.left,
        parts.right,
        parts.on,
        parts.condition,
        parts.join_type,
        parts.projection,
        parts.null_equality,
    )
}

/// Runs a join as an as-of join where its filter calls for one.
fn asof_join_of(
    left: &Arc<PlanInput>,
    right: &Arc<PlanInput>,
    on: &JoinOn,
    filter: &Option<JoinFilter>,
    join_type: JoinType,
    projection: &Option<Vec<usize>>,
    null_equality: NullEquality,
) -> (result: Option<Result<AsOfJoinExec, JoinError>>)
    requires
        filter_wf(*filter, *left, *right),
    ensures
        ({
            let parts = asof_parts_of(
                *left,
                *right,
                on@,
                *filter,
                join_type,
                *projection,
                null_equality,
            );
            &&& result is Some <==> parts is Some
            &&& result is Some ==> makes_asof_join(result->0, parts->0)
        }),
{
    match join_type {
        JoinType::Inner | JoinType::Left => {},
        _ => return None,
    }
    let filter = match filter {
        Some(filter) => filter,
        None => return None,
    };
    let (filter_on, asof_condition) = match extract_asof_join_predicates(
        filter,
        &left.schema,
        &right.schema,
    ) {
        Some(found) => found,
        None => return None,
    };
    let mut on = copy_on(on);
    let ghost own = on@;
    let mut filter_on = filter_on;
    on.append(&mut filter_on);
    let projection_copy = copy_projection(projection);
    proof {
        let width = exec::joined_width(*left, *right);
        if projection_copy is Some {
            assert(projection_copy->0@ == projection->0@);
        }
        assert(plan::projects(projection_copy, width) == plan::projects(*projection, width));
    }
    Some(
        AsOfJoinExec::try_new(
            share(left),
            share(right),
            on,
            asof_condition,
            join_type,
            projection_copy,
            null_equality,
        ),
    )
}

/// Runs a node as an as-of join where its filter calls for one.
pub fn try_asof_join(plan: &PlanNode) -> (result: Result<Option<AsOfJoinExec>, JoinError>)
    requires
        plan.wf(),
    ensures
        match asof_parts(*plan) {
            Some(parts) => match result {
                Ok(Some(join)) => makes_asof_join(Ok(join), parts),
                Ok(None) => false,
                Err(error) => makes_asof_join(Err(error), parts),
            },
            None => result == Ok::<Option<AsOfJoinExec>, JoinError>(None),
        },
{
    let made = match plan {
        PlanNode::HashJoin(hash_join) => asof_join_of(
            &hash_join.left,
            &hash_join.right,
            &hash_join.on,
            &hash_join.filter,
            hash_join.join_type,
            &hash_join.projection,
            hash_join.null_equality,
        ),
        PlanNode::NestedLoopJoin(nl_join) => {
            let on: JoinOn = Vec::new();
            assert(on@ =~= Seq::empty());
            asof_join_of(
                &nl_join.left,
                &nl_join.right,
                &on,
                &nl_join.filter,
                nl_join.join_type,
                &nl_join.projection,
                NullEquality::NullEqualsNothing,
            )
        },
        _ => None,
    };
    match made {
        Some(Ok(join)) => Ok(Some(join)),
        Some(Err(error)) => Err(error),
        None => Ok(None),
    }
}

/// Exchanges the inputs of a join where statistics call for it.
fn swap_where_larger(
    left: &Arc<PlanInput>,
    right: &Arc<PlanInput>,
    supports_swap: bool,
    rewrite: Rewrite,
) -> (result: Result<Option<Rewrite>, JoinError>)
    ensures
        result == where_swapped(*left, *right, supports_swap, rewrite),
{
    if supports_swap {
        match should_swap_join_order(left, right) {
            Ok(true) => Ok(Some(rewrite)),
            Ok(false) => Ok(None),
            Err(error) => Err(error),
        }
    } else {
        Ok(None)
    }
}

/// Collects the left side of a hash join, or else partitions both.
fn collect_or_partition(
    hash_join: &HashJoin,
    ignore_threshold: bool,
    threshold_byte_size: usize,
    threshold_num_rows: usize,
) -> (result: Result<Option<Rewrite>, JoinError>)
    ensures
        result == or_else(
            collect_decision(
                *hash_join,
                ignore_threshold || is_collectable(
                    hash_join.left,
                    threshold_byte_size,
                    threshold_num_rows,
                ),
                ignore_threshold || is_collectable(
                    hash_join.right,
                    threshold_byte_size,
                    threshold_num_rows,
                ),
            ),
            partitioned_decision(*hash_join),
        ),
{
    match try_collect_left(
        hash_join,
        ignore_threshold,
        threshold_byte_size,
        threshold_num_rows,
    ) {
        Ok(None) => match partitioned_hash_join(hash_join) {
            Ok(rewrite) => Ok(Some(rewrite)),
            Err(error) => Err(error),
        },
        other => other,
    }
}

/// Optimizes a join according to the statistics of its inputs; a join whose filter
/// calls for an as-of join is run as one.
pub fn statistical_join_selection_subrule(
    plan: &PlanNode,
    collect_threshold_byte_size: usize,
    collect_threshold_num_rows: usize,
) -> (result: Result<Option<Rewrite>, JoinError>)
    requires
        plan.wf(),
    ensures
        match asof_parts(*plan) {
            Some(parts) => match result {
                Ok(Some(Rewrite::AsOfJoin(join))) => makes_asof_join(Ok(join), parts),
                Ok(_) => false,
                Err(error) => makes_asof_join(Err(error), parts),
            },
            None => result == statistical_decision(
                *plan,
                collect_threshold_byte_size,
                collect_threshold_num_rows,
            ),
        },
        match (asof_parts(*plan), result, *plan) {
            (Some(_), Ok(Some(Rewrite::AsOfJoin(join))), _) => rewritten(
                *plan,
                Rewrite::AsOfJoin(join),
            ) == Some(PlanNode::AsOfJoin(join)),
            (
                None,
                Ok(Some(Rewrite::SetPartitionMode(mode))),
                PlanNode::HashJoin(hash_join),
            ) => rewritten(*plan, Rewrite::SetPartitionMode(mode)) == Some(
                PlanNode::HashJoin(in_mode(hash_join, mode)),
            ),
            _ => true,
        },
{
    match try_asof_join(plan) {
        Ok(Some(join)) => return Ok(Some(Rewrite::AsOfJoin(join))),
        Ok(None) => {},
        Err(error) => return Err(error),
    }
    match plan {
        PlanNode::HashJoin(hash_join) => match hash_join.partition_mode {
            PartitionMode::Auto => collect_or_partition(
                hash_join,
                false,
                collect_threshold_byte_size,
                collect_threshold_num_rows,
            ),
            PartitionMode::CollectLeft => collect_or_partition(hash_join, true, 0, 0),
            PartitionMode::Partitioned => swap_where_larger(
                &hash_join.left,
                &hash_join.right,
                hash_join.supports_swap,
                Rewrite::SwapHashJoin(PartitionMode::Partitioned),
            ),
        },
        PlanNode::CrossJoin(cross_join) => swap_where_larger(
            &cross_join.left,
            &cross_join.right,
            true,
            Rewrite::SwapInputs,
        ),
        PlanNode::NestedLoopJoin(nl_join) => swap_where_larger(
            &nl_join.left,
            &nl_join.right,
            nl_join.supports_swap,
            Rewrite::SwapInputs,
        ),
        _ => Ok(None),
    }
}

/// Whether an input never ends but emits results all the same.
pub open spec fn streams_forever(input: Arc<PlanInput>) -> bool {
    input.boundedness is Unbounded && input.emission_type != EmissionType::Final
}

/// Whether the filter refers to a column of the given side by which that input is
/// ordered.
pub open spec fn filter_uses_order(
    filter: Option<JoinFilter>,
    side: JoinSide,
    input: Arc<PlanInput>,
) -> bool {
    filter is Some && exists|k: int|
        0 <= k < filter->0.column_indices@.len() && (
        #[trigger] filter->0.column_indices@[k]).side == side
            && input.ordered_columns@[filter->0.column_indices@[k].index as int]
}

/// The order of an input that a symmetric hash join keeps.
pub open spec fn kept_order(
    filter: Option<JoinFilter>,
    side: JoinSide,
    input: Arc<PlanInput>,
) -> Option<Arc<Vec<PhysicalSortExpr>>> {
    if filter_uses_order(filter, side, input) {
        input.output_ordering
    } else {
        None
    }
}

/// Returns the order of an input that a symmetric hash join keeps.
fn determine_order(filter: &Option<JoinFilter>, side: JoinSide, input: &Arc<PlanInput>) -> (order:
    Option<Arc<Vec<PhysicalSortExpr>>>)
    requires
        filter is Some ==> forall|k: int|
            0 <= k < filter->0.column_indices@.len() && (
            #[trigger] filter->0.column_indices@[k]).side == side
                ==> filter->0.column_indices@[k].index < input.ordered_columns@.len(),
    ensures
        order == kept_order(*filter, side, *input),
{
    let filter_columns = match filter {
        Some(filter) => &filter.column_indices,
        None => return None,
    };
    let mut ordered = false;
    for k in 0..filter_columns.len()
        invariant
            filter is Some,
            filter_columns@ == filter->0.column_indices@,
            forall|k: int|
                0 <= k < filter_columns@.len() && (#[trigger] filter_columns@[k]).side == side
                    ==> filter_columns@[k].index < input.ordered_columns@.len(),
            ordered == exists|d: int|
                0 <= d < k && (#[trigger] filter_columns@[d]).side == side
                    && input.ordered_columns@[filter_columns@[d].index as int],
    {
        let column = filter_columns[k];
        if column.side == side && input.ordered_columns[column.index] {
            assert(filter_columns@[k as int].side == side);
            ordered = true;
        }
    }
    if !ordered {
        return None;
    }
    match &input.output_ordering {
        Some(order) => Some(share(order)),
        None => None,
    }
}

/// How a hash join is fixed whose inputs both stream forever.
pub open spec fn symmetric_decision(plan: PlanNode, repartition_joins: bool) -> Option<Rewrite> {
    match plan {
        PlanNode::HashJoin(hash_join) => if streams_forever(hash_join.left) && streams_forever(
            hash_join.right,
        ) {
            Some(
                Rewrite::SymmetricHashJoin {
                    left_order: kept_order(hash_join.filter, JoinSide::Left, hash_join.left),
                    right_order: kept_order(hash_join.filter, JoinSide::Right, hash_join.right),
                    mode: if repartition_joins {
                        StreamJoinPartitionMode::Partitioned
                    } else {
                        StreamJoinPartitionMode::SinglePartition
                    },
                },
            )
        } else {
            None
        },
        _ => None,
    }
}

/// Converts a hash join to a symmetric hash join if both its inputs are unbounded and
/// incremental.
///
/// The replacement avoids pipeline breaking and preserves query runnability. It keeps
/// the order of an input only where the filter refers to a column by which the input
/// is ordered.
pub fn hash_join_convert_symmetric_subrule(input: &PlanNode, config_options: &OptimizerOptions) -> (
rewrite: Option<Rewrite>)
    requires
        input.wf(),
    ensures
        rewrite == symmetric_decision(*input, config_options.repartition_joins),
        rewrite is Some ==> *input is HashJoin && rewritten(*input, rewrite->0) == Some(
            PlanNode::SymmetricHashJoin(
                as_symmetric(
                    input->HashJoin_0,
                    rewrite->0->left_order,
                    rewrite->0->right_order,
                    rewrite->0->mode,
                ),
            ),
        ),
{
    let hash_join = match input {
        PlanNode::HashJoin(hash_join) => hash_join,
        _ => return None,
    };
    let left_unbounded = hash_join.left.boundedness.is_unbounded();
    let left_incremental = match hash_join.left.emission_type {
        EmissionType::Incremental | EmissionType::Both => true,
        EmissionType::Final => false,
    };
    let right_unbounded = hash_join.right.boundedness.is_unbounded();
    let right_incremental = match hash_join.right.emission_type {
        EmissionType::Incremental | EmissionType::Both => true,
        EmissionType::Final => false,
    };
    if left_unbounded && right_unbounded && left_incremental && right_incremental {
        let mode = if config_options.repartition_joins {
            StreamJoinPartitionMode::Partitioned
        } else {
            StreamJoinPartitionMode::SinglePartition
        };
        let left_order = determine_order(&hash_join.filter, JoinSide::Left, &hash_join.left);
        let right_order = determine_order(&hash_join.filter, JoinSide::Right, &hash_join.right);
        return Some(Rewrite::SymmetricHashJoin { left_order, right_order, mode });
    }
    None
}

/// Whether a join of this type can be run with an unbounded left side once its sides
/// are swapped.
pub open spec fn runs_swapped(join_type: JoinType) -> bool {
    join_type == JoinType::Inner || join_type == JoinType::Left || join_type == JoinType::LeftSemi
        || join_type == JoinType::LeftAnti
}

/// The partition mode in which a hash join is swapped for unbounded input.
pub open spec fn swapped_mode(mode: PartitionMode) -> PartitionMode {
    if mode == PartitionMode::CollectLeft {
        PartitionMode::CollectLeft
    } else {
        PartitionMode::Partitioned
    }
}

/// Swaps the sides of a hash join whose left input may never end while its right input
/// does, so that the left (build) side of the hash join always operates on a finite
/// input. If the left side can not be chosen to be finite, the join sides stay the
/// same.
pub fn hash_join_swap_subrule(input: &PlanNode, _config_options: &OptimizerOptions) -> (result:
    Result<Option<Rewrite>, JoinError>)
    ensures
        result == match *input {
            PlanNode::HashJoin(hash_join) => if hash_join.left.boundedness is Unbounded
                && hash_join.right.boundedness is Bounded && runs_swapped(hash_join.join_type) {
                Ok::<Option<Rewrite>, JoinError>(
                    Some(Rewrite::SwapHashJoin(swapped_mode(hash_join.partition_mode))),
                )
            } else {
                Ok::<Option<Rewrite>, JoinError>(None)
            },
            _ => Ok::<Option<Rewrite>, JoinError>(None),
        },
{
    let hash_join = match input {
        PlanNode::HashJoin(hash_join) => hash_join,
        _ => return Ok(None),
    };
    let runs = match hash_join.join_type {
        JoinType::Inner | JoinType::Left | JoinType::LeftSemi | JoinType::LeftAnti => true,
        _ => false,
    };
    if hash_join.left.boundedness.is_unbounded() && !hash_join.right.boundedness.is_unbounded()
        && runs {
        match swap_join_according_to_unboundedness(hash_join) {
            Ok(rewrite) => Ok(Some(rewrite)),
            Err(error) => Err(error),
        }
    } else {
        Ok(None)
    }
}

/// Swaps the sides of a hash join to make it runnable even if one of its inputs is
/// infinite. Right, right semi, right anti and full joins can not run with an unbounded
/// left side, even if their sides are swapped.
pub fn swap_join_according_to_unboundedness(hash_join: &HashJoin) -> (result: Result<
    Rewrite,
    JoinError,
>)
    ensures
        result == match hash_join.join_type {
            JoinType::Right | JoinType::RightSemi | JoinType::RightAnti | JoinType::Full => Err::<
                Rewrite,
                JoinError,
            >(JoinError::CannotSwapUnbounded(hash_join.join_type)),
            _ => Ok::<Rewrite, JoinError>(
                Rewrite::SwapHashJoin(swapped_mode(hash_join.partition_mode)),
            ),
        },
{
    match (hash_join.partition_mode, hash_join.join_type) {
        (
            _,
            JoinType::Right | JoinType::RightSemi | JoinType::RightAnti | JoinType::Full,
        ) => Err(JoinError::CannotSwapUnbounded(hash_join.join_type)),
        (PartitionMode::Partitioned, _) => Ok(Rewrite::SwapHashJoin(PartitionMode::Partitioned)),
        (PartitionMode::CollectLeft, _) => Ok(Rewrite::SwapHashJoin(PartitionMode::CollectLeft)),
        (PartitionMode::Auto, _) => Ok(Rewrite::SwapHashJoin(PartitionMode::Partitioned)),
    }
}

/// How a join is fixed for unbounded inputs: as a symmetric hash join where both stream
/// forever, else with a bounded build side.
pub open spec fn pipeline_decision(plan: PlanNode, repartition_joins: bool) -> Option<Rewrite> {
    if symmetric_decision(plan, repartition_joins) is Some {
        symmetric_decision(plan, repartition_joins)
    } else {
        match plan {
            PlanNode::HashJoin(hash_join) => if hash_join.left.boundedness is Unbounded
                && hash_join.right.boundedness is Bounded && runs_swapped(hash_join.join_type) {
                Some(Rewrite::SwapHashJoin(swapped_mode(hash_join.partition_mode)))
            } else {
                None
            },
            _ => None,
        }
    }
}

/// Applies the pipeline-fixing subrules to a join, one after the other; what a subrule
/// has made of a hash join is no hash join any more.
pub fn apply_subrules(input: &PlanNode, config_options: &OptimizerOptions) -> (result: Result<
    Option<Rewrite>,
    JoinError,
>)
    requires
        input.wf(),
    ensures
        result == Ok::<Option<Rewrite>, JoinError>(
            pipeline_decision(*input, config_options.repartition_joins),
        ),
{
    match hash_join_convert_symmetric_subrule(input, config_options) {
        Some(rewrite) => Ok(Some(rewrite)),
        None => hash_join_swap_subrule(input, config_options),
    }
}

/// Which of its two passes over a plan the rule is in.
#[derive(Debug, Clone, Copy, PartialEq, Eq, Structural)]
pub enum Pass {
    /// The first: joins are fixed so as to accommodate unbounded inputs.
    Pipeline,
    /// The second: joins are optimized by the statistics of their inputs.
    Statistical,
}

/// Whether a decision is what the rule says of a node in a pass.
pub open spec fn decides(
    pass: Pass,
    node: PlanNode,
    config: OptimizerOptions,
    decision: Result<Option<Rewrite>, JoinError>,
) -> bool {
    match pass {
        Pass::Pipeline => decision == Ok::<Option<Rewrite>, JoinError>(
            pipeline_decision(node, config.repartition_joins),
        ),
        Pass::Statistical => match asof_parts(node) {
            Some(parts) => match decision {
                Ok(Some(Rewrite::AsOfJoin(join))) => makes_asof_join(Ok(join), parts),
                Ok(_) => false,
                Err(error) => makes_asof_join(Err(error), parts),
            },
            None => decision == statistical_decision(
                node,
                config.hash_join_single_partition_threshold,
                config.hash_join_single_partition_threshold_rows,
            ),
        },
    }
}

impl JoinSelection {
    /// Creates the rule.
    pub fn new() -> (rule: JoinSelection)
        ensures
            rule == (JoinSelection {  }),
    {
        JoinSelection {  }
    }

    /// Says what to do with one node in one pass.
    pub fn optimize_node(&self, pass: Pass, node: &PlanNode, config: &OptimizerOptions) -> (result:
        Result<Option<Rewrite>, JoinError>)
        requires
            node.wf(),
        ensures
            decides(pass, *node, *config, result),
    {
        match pass {
            Pass::Pipeline => apply_subrules(node, config),
            Pass::Statistical => statistical_join_selection_subrule(
                node,
                config.hash_join_single_partition_threshold,
                config.hash_join_single_partition_threshold_rows,
            ),
        }
    }

    /// Returns the name of the rule.
    pub fn name(&self) -> (name: &'static str)
        ensures
            name@ == "join_selection"@,
    {
        "join_selection"
    }

    /// Returns whether the rule keeps the schema of a plan.
    pub fn schema_check(&self) -> (keeps: bool)
        ensures
            keeps,
    {
        true
    }
}

/// Where sizes are not known of both sides, neither in bytes nor in rows, the sides
/// stay as they are.
pub proof fn sides_stay_without_statistics(left: Arc<PlanInput>, right: Arc<PlanInput>)
    requires
        left.statistics is Ok,
        right.statistics is Ok,
        left.statistics->Ok_0.total_byte_size.value() is None
            || right.statistics->Ok_0.total_byte_size.value() is None,
        left.statistics->Ok_0.num_rows.value() is None
            || right.statistics->Ok_0.num_rows.value() is None,
    ensures
        swap_decision(left, right) == Ok::<bool, JoinError>(false),
{
}

/// Sides that have been swapped are not swapped back.
pub proof fn swapped_sides_stay(left: Arc<PlanInput>, right: Arc<PlanInput>)
    requires
        swap_decision(left, right) == Ok::<bool, JoinError>(true),
    ensures
        swap_decision(right, left) == Ok::<bool, JoinError>(false),
{
}

/// The partition mode of a hash join is always decided: one whose mode is left open is
/// either partitioned or has its left side collected.
pub proof fn open_partition_mode_is_decided(
    hash_join: HashJoin,
    threshold_byte_size: usize,
    threshold_num_rows: usize,
)
    requires
        hash_join.partition_mode == PartitionMode::Auto,
    ensures
        match statistical_decision(
            PlanNode::HashJoin(hash_join),
            threshold_byte_size,
            threshold_num_rows,
        ) {
            Ok(Some(Rewrite::SwapHashJoin(mode))) => mode != PartitionMode::Auto,
            Ok(Some(Rewrite::SetPartitionMode(mode))) => mode != PartitionMode::Auto,
            Ok(_) => false,
            Err(_) => hash_join.left.statistics is Err || hash_join.right.statistics is Err,
        },
{
}

/// Where the rule decides the partition mode, it collects a side only where that side
/// is known to be small enough.
pub proof fn only_small_sides_are_collected(
    hash_join: HashJoin,
    threshold_byte_size: usize,
    threshold_num_rows: usize,
)
    requires
        hash_join.partition_mode == PartitionMode::Auto,
    ensures
        statistical_decision(
            PlanNode::HashJoin(hash_join),
            threshold_byte_size,
            threshold_num_rows,
        ) == Ok::<Option<Rewrite>, JoinError>(
            Some(Rewrite::SetPartitionMode(PartitionMode::CollectLeft)),
        ) ==> is_collectable(hash_join.left, threshold_byte_size, threshold_num_rows),
        statistical_decision(
            PlanNode::HashJoin(hash_join),
            threshold_byte_size,
            threshold_num_rows,
        ) == Ok::<Option<Rewrite>, JoinError>(
            Some(Rewrite::SwapHashJoin(PartitionMode::CollectLeft)),
        ) ==> is_collectable(hash_join.right, threshold_byte_size, threshold_num_rows),
{
}

/// A hash join that is swapped for unbounded input builds a bounded side then, and
/// joins whose inputs both end are not touched.
pub proof fn swapped_build_side_is_bounded(plan: PlanNode, repartition_joins: bool)
    ensures
        plan is HashJoin && pipeline_decision(plan, repartition_joins) is Some
            && pipeline_decision(plan, repartition_joins)->0 is SwapHashJoin
            ==> plan->HashJoin_0.right.boundedness is Bounded,
        plan is HashJoin && plan->HashJoin_0.left.boundedness is Bounded
            && plan->HashJoin_0.right.boundedness is Bounded ==> pipeline_decision(
            plan,
            repartition_joins,
        ) is None,
        plan !is HashJoin ==> pipeline_decision(plan, repartition_joins) is None,
{
}

/// Where nothing is known of the sizes of its inputs, a hash join whose mode is left
/// open is partitioned, and its sides stay as they are.
pub proof fn unknown_sizes_fall_back_to_partitioned(
    hash_join: HashJoin,
    threshold_byte_size: usize,
    threshold_num_rows: usize,
)
    requires
        hash_join.partition_mode == PartitionMode::Auto,
        hash_join.left.statistics is Ok,
        hash_join.right.statistics is Ok,
        hash_join.left.statistics->Ok_0.total_byte_size.value() is None,
        hash_join.left.statistics->Ok_0.num_rows.value() is None,
        hash_join.right.statistics->Ok_0.total_byte_size.value() is None,
        hash_join.right.statistics->Ok_0.num_rows.value() is None,
    ensures
        statistical_decision(
            PlanNode::HashJoin(hash_join),
            threshold_byte_size,
            threshold_num_rows,
        ) == Ok::<Option<Rewrite>, JoinError>(
            Some(Rewrite::SetPartitionMode(PartitionMode::Partitioned)),
        ),
{
}

/// A join that is not collected is swapped exactly where it can be and its left side is
/// the larger one, so that the left side is the smaller one then.
pub proof fn only_larger_left_sides_are_swapped(
    hash_join: HashJoin,
    cross_join: CrossJoin,
    threshold_byte_size: usize,
    threshold_num_rows: usize,
)
    requires
        hash_join.partition_mode == PartitionMode::Partitioned,
        hash_join.left.statistics is Ok,
        hash_join.right.statistics is Ok,
        cross_join.left.statistics is Ok,
        cross_join.right.statistics is Ok,
    ensures
        statistical_decision(
            PlanNode::HashJoin(hash_join),
            threshold_byte_size,
            threshold_num_rows,
        ) == Ok::<Option<Rewrite>, JoinError>(
            if hash_join.supports_swap && left_is_larger(
                hash_join.left.statistics->Ok_0,
                hash_join.right.statistics->Ok_0,
            ) {
                Some(Rewrite::SwapHashJoin(PartitionMode::Partitioned))
            } else {
                None
            },
        ),
        statistical_decision(
            PlanNode::CrossJoin(cross_join),
            threshold_byte_size,
            threshold_num_rows,
        ) == Ok::<Option<Rewrite>, JoinError>(
            if left_is_larger(
                cross_join.left.statistics->Ok_0,
                cross_join.right.statistics->Ok_0,
            ) {
                Some(Rewrite::SwapInputs)
            } else {
                None
            },
        ),
{
}

} // verus!
