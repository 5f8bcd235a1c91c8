//! What the join selection rule does, told from what it is given and what it answers.
use crate::condition::AsOfJoinCondition;
use crate::error::JoinError;
use crate::exec::AsOfJoinExec;
use crate::expr::JoinOn;
use crate::plan::{
    boundedness_from_children, Boundedness, EmissionType, PlanInput, Precision,
};
use crate::predicates::{extract_asof_join_predicates, JoinFilter};
use crate::selection::{
    apply_subrules, hash_join_convert_symmetric_subrule, hash_join_swap_subrule,
    partitioned_hash_join, rewrite_node, should_swap_join_order,
    statistical_join_selection_subrule, swap_join_according_to_unboundedness, try_asof_join,
    try_collect_left, CrossJoin, HashJoin, JoinSelection, NestedLoopJoin, OptimizerOptions,
    PartitionMode, Pass, PlanNode, Rewrite, StreamJoinPartitionMode,
};
use crate::types::{JoinSide, JoinType, NullEquality};
use std::sync::Arc;
use vstd::prelude::*;

verus! {

/// Whether a quantity is known to be the given one, exactly or not.
pub open spec fn is_known(quantity: Precision, value: usize) -> bool {
    quantity == Precision::Exact(value) || quantity == Precision::Inexact(value)
}

/// Whether the statistics of an input could be had and say that it has so many bytes.
pub open spec fn has_bytes(input: Arc<PlanInput>, bytes: usize) -> bool {
    input.statistics is Ok && is_known(input.statistics->Ok_0.total_byte_size, bytes)
}

/// Whether the statistics of an input could be had and say that it has so many rows.
pub open spec fn has_rows(input: Arc<PlanInput>, rows: usize) -> bool {
    input.statistics is Ok && is_known(input.statistics->Ok_0.num_rows, rows)
}

/// Whether the statistics of an input could be had and do not tell how many bytes it has.
pub open spec fn lacks_bytes(input: Arc<PlanInput>) -> bool {
    input.statistics is Ok && input.statistics->Ok_0.total_byte_size == Precision::Absent
}

/// Whether the statistics of an input could be had and do not tell how many rows it has.
pub open spec fn lacks_rows(input: Arc<PlanInput>) -> bool {
    input.statistics is Ok && input.statistics->Ok_0.num_rows == Precision::Absent
}

/// Where the byte sizes of both inputs are known, exactly or not, the inputs are swapped
/// exactly where the left one is larger, whatever their row counts are.
pub proof fn known_byte_sizes_decide(
    left: Arc<PlanInput>,
    right: Arc<PlanInput>,
    left_bytes: usize,
    right_bytes: usize,
    swap: Result<bool, JoinError>,
)
    requires
        call_ensures(should_swap_join_order, (&left, &right), swap),
        has_bytes(left, left_bytes),
        has_bytes(right, right_bytes),
    ensures
        swap == Ok::<bool, JoinError>(left_bytes > right_bytes),
{
}

/// Where a byte size is missing, the row counts decide, if both are known.
pub proof fn row_counts_decide_where_byte_sizes_are_missing(
    left: Arc<PlanInput>,
    right: Arc<PlanInput>,
    left_rows: usize,
    right_rows: usize,
    swap: Result<bool, JoinError>,
)
    requires
        call_ensures(should_swap_join_order, (&left, &right), swap),
        lacks_bytes(left) || lacks_bytes(right),
        has_rows(left, left_rows),
        has_rows(right, right_rows),
    ensures
        swap == Ok::<bool, JoinError>(left_rows > right_rows),
{
}

/// Where a byte size and a row count are missing, the inputs stay where they are.
pub proof fn unknown_sizes_swap_nothing(
    left: Arc<PlanInput>,
    right: Arc<PlanInput>,
    swap: Result<bool, JoinError>,
)
    requires
        call_ensures(should_swap_join_order, (&left, &right), swap),
        left.statistics is Ok,
        right.statistics is Ok,
        lacks_bytes(left) || lacks_bytes(right),
        lacks_rows(left) || lacks_rows(right),
    ensures
        swap == Ok::<bool, JoinError>(false),
{
}

/// Statistics that cannot be had are reported, the left input's first.
pub proof fn missing_statistics_are_reported(
    left: Arc<PlanInput>,
    right: Arc<PlanInput>,
    swap: Result<bool, JoinError>,
)
    requires
        call_ensures(should_swap_join_order, (&left, &right), swap),
    ensures
        left.statistics is Err ==> swap == Err::<bool, JoinError>(
            JoinError::Statistics(left.statistics->Err_0),
        ),
        left.statistics is Ok && right.statistics is Err ==> swap == Err::<bool, JoinError>(
            JoinError::Statistics(right.statistics->Err_0),
        ),
        swap is Err ==> left.statistics is Err || right.statistics is Err,
{
}

/// Inputs that have been swapped are not swapped back.
pub proof fn swapping_is_final(
    left: Arc<PlanInput>,
    right: Arc<PlanInput>,
    swap: Result<bool, JoinError>,
    swap_back: Result<bool, JoinError>,
)
    requires
        call_ensures(should_swap_join_order, (&left, &right), swap),
        call_ensures(should_swap_join_order, (&right, &left), swap_back),
        swap == Ok::<bool, JoinError>(true),
    ensures
        swap_back == Ok::<bool, JoinError>(false),
{
}

/// Whether a quantity is known, exactly or not, is not zero and stays below a limit.
pub open spec fn is_within(quantity: Precision, limit: usize) -> bool {
    match quantity {
        Precision::Exact(value) => 0 < value < limit,
        Precision::Inexact(value) => 0 < value < limit,
        Precision::Absent => false,
    }
}

/// Whether an input is known to be small, by its byte size or, where that is missing, by
/// its row count.
pub open spec fn is_known_small(input: Arc<PlanInput>, max_bytes: usize, max_rows: usize) -> bool {
    &&& input.statistics is Ok
    &&& if input.statistics->Ok_0.total_byte_size == Precision::Absent {
        is_within(input.statistics->Ok_0.num_rows, max_rows)
    } else {
        is_within(input.statistics->Ok_0.total_byte_size, max_bytes)
    }
}

/// A side of a hash join is collected only where it is known to be small, or where no
/// limit counts; where both can be, the one is collected that should be on the left; and
/// where a side can be collected, one is.
pub proof fn small_sides_are_collected(
    join: HashJoin,
    ignore_limits: bool,
    max_bytes: usize,
    max_rows: usize,
    swap: Result<bool, JoinError>,
    answer: Result<Option<Rewrite>, JoinError>,
)
    requires
        call_ensures(should_swap_join_order, (&join.left, &join.right), swap),
        call_ensures(try_collect_left, (&join, ignore_limits, max_bytes, max_rows), answer),
    ensures
        ({
            let left = ignore_limits || is_known_small(join.left, max_bytes, max_rows);
            let right = join.supports_swap && (ignore_limits || is_known_small(
                join.right,
                max_bytes,
                max_rows,
            ));
            let stay = Ok::<Option<Rewrite>, JoinError>(
                Some(Rewrite::SetPartitionMode(PartitionMode::CollectLeft)),
            );
            let exchange = Ok::<Option<Rewrite>, JoinError>(
                Some(Rewrite::SwapHashJoin(PartitionMode::CollectLeft)),
            );
            &&& answer == stay ==> left
            &&& answer == exchange ==> right
            &&& left && !right ==> answer == stay
            &&& right && !left ==> answer == exchange
            &&& left && right && swap == Ok::<bool, JoinError>(true) ==> answer == exchange
            &&& left && right && swap == Ok::<bool, JoinError>(false) ==> answer == stay
            &&& left && right && swap is Err ==> answer is Err && answer->Err_0 == swap->Err_0
            &&& !left && !right ==> answer == Ok::<Option<Rewrite>, JoinError>(None)
        }),
{
}

/// A partitioned hash join has its inputs exchanged exactly where it can be and where the
/// left input should not be on the left.
pub proof fn partitioned_joins_build_the_smaller_side(
    join: HashJoin,
    swap: Result<bool, JoinError>,
    answer: Result<Rewrite, JoinError>,
)
    requires
        call_ensures(should_swap_join_order, (&join.left, &join.right), swap),
        call_ensures(partitioned_hash_join, (&join,), answer),
    ensures
        !join.supports_swap || swap == Ok::<bool, JoinError>(false) ==> answer == Ok::<
            Rewrite,
            JoinError,
        >(Rewrite::SetPartitionMode(PartitionMode::Partitioned)),
        join.supports_swap && swap == Ok::<bool, JoinError>(true) ==> answer == Ok::<
            Rewrite,
            JoinError,
        >(Rewrite::SwapHashJoin(PartitionMode::Partitioned)),
        join.supports_swap && swap is Err ==> answer is Err && answer->Err_0 == swap->Err_0,
{
}

/// A hash join that is no as-of join is run in the mode that was asked for. Where the mode
/// was left open, a side is collected where one can be, and else both are partitioned. A
/// partitioned join that should not be swapped is left alone.
pub proof fn partition_modes_are_kept_or_decided(
    join: HashJoin,
    max_bytes: usize,
    max_rows: usize,
    swap: Result<bool, JoinError>,
    collected: Result<Option<Rewrite>, JoinError>,
    always_collected: Result<Option<Rewrite>, JoinError>,
    partitioned: Result<Rewrite, JoinError>,
    asof: Result<Option<AsOfJoinExec>, JoinError>,
    answer: Result<Option<Rewrite>, JoinError>,
)
    requires
        call_ensures(should_swap_join_order, (&join.left, &join.right), swap),
        call_ensures(try_collect_left, (&join, false, max_bytes, max_rows), collected),
        call_ensures(try_collect_left, (&join, true, max_bytes, max_rows), always_collected),
        call_ensures(partitioned_hash_join, (&join,), partitioned),
        call_ensures(try_asof_join, (&PlanNode::HashJoin(join),), asof),
        asof == Ok::<Option<AsOfJoinExec>, JoinError>(None),
        call_ensures(
            statistical_join_selection_subrule,
            (&PlanNode::HashJoin(join), max_bytes, max_rows),
            answer,
        ),
    ensures
        join.partition_mode == PartitionMode::Auto && collected
            != Ok::<Option<Rewrite>, JoinError>(None) ==> answer == collected,
        join.partition_mode == PartitionMode::Auto && collected == Ok::<
            Option<Rewrite>,
            JoinError,
        >(None) ==> match partitioned {
            Ok(rewrite) => answer == Ok::<Option<Rewrite>, JoinError>(Some(rewrite)),
            Err(error) => answer == Err::<Option<Rewrite>, JoinError>(error),
        },
        join.partition_mode == PartitionMode::CollectLeft ==> answer == always_collected,
        join.partition_mode == PartitionMode::Partitioned ==> match swap {
            Ok(true) => answer == if join.supports_swap {
                Ok::<Option<Rewrite>, JoinError>(
                    Some(Rewrite::SwapHashJoin(PartitionMode::Partitioned)),
                )
            } else {
                Ok::<Option<Rewrite>, JoinError>(None)
            },
            Ok(false) => answer == Ok::<Option<Rewrite>, JoinError>(None),
            Err(error) => answer == if join.supports_swap {
                Err::<Option<Rewrite>, JoinError>(error)
            } else {
                Ok::<Option<Rewrite>, JoinError>(None)
            },
        },
{
}

/// Cross joins, and nested loop joins that can be swapped and are no as-of joins, have
/// their inputs exchanged exactly where the left one should not be on the left. Nothing
/// else is touched.
pub proof fn other_joins_build_the_smaller_side(
    cross: CrossJoin,
    nested: NestedLoopJoin,
    max_bytes: usize,
    max_rows: usize,
    cross_swap: Result<bool, JoinError>,
    nested_swap: Result<bool, JoinError>,
    nested_asof: Result<Option<AsOfJoinExec>, JoinError>,
    cross_answer: Result<Option<Rewrite>, JoinError>,
    nested_answer: Result<Option<Rewrite>, JoinError>,
    other_answer: Result<Option<Rewrite>, JoinError>,
)
    requires
        call_ensures(should_swap_join_order, (&cross.left, &cross.right), cross_swap),
        call_ensures(should_swap_join_order, (&nested.left, &nested.right), nested_swap),
        call_ensures(try_asof_join, (&PlanNode::NestedLoopJoin(nested),), nested_asof),
        nested_asof == Ok::<Option<AsOfJoinExec>, JoinError>(None),
        call_ensures(
            statistical_join_selection_subrule,
            (&PlanNode::CrossJoin(cross), max_bytes, max_rows),
            cross_answer,
        ),
        call_ensures(
            statistical_join_selection_subrule,
            (&PlanNode::NestedLoopJoin(nested), max_bytes, max_rows),
            nested_answer,
        ),
        call_ensures(
            statistical_join_selection_subrule,
            (&PlanNode::Other, max_bytes, max_rows),
            other_answer,
        ),
    ensures
        match cross_swap {
            Ok(true) => cross_answer == Ok::<Option<Rewrite>, JoinError>(
                Some(Rewrite::SwapInputs),
            ),
            Ok(false) => cross_answer == Ok::<Option<Rewrite>, JoinError>(None),
            Err(error) => cross_answer == Err::<Option<Rewrite>, JoinError>(error),
        },
        !nested.supports_swap ==> nested_answer == Ok::<Option<Rewrite>, JoinError>(None),
        nested.supports_swap ==> match nested_swap {
            Ok(true) => nested_answer == Ok::<Option<Rewrite>, JoinError>(
                Some(Rewrite::SwapInputs),
            ),
            Ok(false) => nested_answer == Ok::<Option<Rewrite>, JoinError>(None),
            Err(error) => nested_answer == Err::<Option<Rewrite>, JoinError>(error),
        },
        other_answer == Ok::<Option<Rewrite>, JoinError>(None),
{
}

/// A join is tried as an as-of join before anything else is decided by statistics.
pub proof fn asof_joins_come_first(
    node: PlanNode,
    max_bytes: usize,
    max_rows: usize,
    asof: Result<Option<AsOfJoinExec>, JoinError>,
    answer: Result<Option<Rewrite>, JoinError>,
)
    requires
        call_ensures(try_asof_join, (&node,), asof),
        call_ensures(statistical_join_selection_subrule, (&node, max_bytes, max_rows), answer),
    ensures
        asof == Ok::<Option<AsOfJoinExec>, JoinError>(None) ==> !(answer is Ok
            && answer->Ok_0 is Some && answer->Ok_0->0 is AsOfJoin),
        asof is Ok && asof->Ok_0 is Some ==> answer is Ok && answer->Ok_0 is Some
            && answer->Ok_0->0 is AsOfJoin,
        asof is Err ==> answer is Err && answer->Err_0 == asof->Err_0,
{
}

/// A hash join is run as an as-of join exactly where it is an inner or left join and keys
/// can be extracted from its filter. The as-of join has the inputs, the type, the
/// projection and the null equality of the hash join, its keys followed by those of the
/// filter, and the condition of the filter.
pub proof fn hash_joins_become_asof_joins(
    join: HashJoin,
    extracted: Option<(JoinOn, AsOfJoinCondition)>,
    asof: Result<Option<AsOfJoinExec>, JoinError>,
)
    requires
        join.filter is Some ==> call_ensures(
            extract_asof_join_predicates,
            (&join.filter->0, &*join.left.schema, &*join.right.schema),
            extracted,
        ),
        join.filter is None ==> extracted is None,
        call_ensures(try_asof_join, (&PlanNode::HashJoin(join),), asof),
    ensures
        (join.join_type == JoinType::Inner || join.join_type == JoinType::Left)
            && extracted is Some <==> asof != Ok::<Option<AsOfJoinExec>, JoinError>(None),
        asof is Ok && asof->Ok_0 is Some ==> {
            let made = asof->Ok_0->0;
            &&& made.left == join.left
            &&& made.right == join.right
            &&& made.on@ == join.on@ + (extracted->0).0@
            &&& made.asof_condition == (extracted->0).1
            &&& made.join_type == join.join_type
            &&& made.null_equality == join.null_equality
            &&& made.projection is Some <==> join.projection is Some
            &&& made.projection is Some ==> made.projection->0@ == join.projection->0@
        },
{
}

/// A nested loop join likewise, with the keys of its filter alone; null keys match
/// nothing.
pub proof fn nested_loop_joins_become_asof_joins(
    join: NestedLoopJoin,
    extracted: Option<(JoinOn, AsOfJoinCondition)>,
    asof: Result<Option<AsOfJoinExec>, JoinError>,
)
    requires
        join.filter is Some ==> call_ensures(
            extract_asof_join_predicates,
            (&join.filter->0, &*join.left.schema, &*join.right.schema),
            extracted,
        ),
        join.filter is None ==> extracted is None,
        call_ensures(try_asof_join, (&PlanNode::NestedLoopJoin(join),), asof),
    ensures
        (join.join_type == JoinType::Inner || join.join_type == JoinType::Left)
            && extracted is Some <==> asof != Ok::<Option<AsOfJoinExec>, JoinError>(None),
        asof is Ok && asof->Ok_0 is Some ==> {
            let made = asof->Ok_0->0;
            &&& made.left == join.left
            &&& made.right == join.right
            &&& made.on@ == (extracted->0).0@
            &&& made.asof_condition == (extracted->0).1
            &&& made.join_type == join.join_type
            &&& made.null_equality == NullEquality::NullEqualsNothing
            &&& made.projection is Some <==> join.projection is Some
            &&& made.projection is Some ==> made.projection->0@ == join.projection->0@
        },
{
}

/// Cross joins and nodes that are no joins are never run as as-of joins.
pub proof fn other_nodes_become_no_asof_joins(
    node: PlanNode,
    asof: Result<Option<AsOfJoinExec>, JoinError>,
)
    requires
        !(node is HashJoin),
        !(node is NestedLoopJoin),
        call_ensures(try_asof_join, (&node,), asof),
    ensures
        asof == Ok::<Option<AsOfJoinExec>, JoinError>(None),
{
}

/// Whether an input may never end, and emits rows before it does.
pub open spec fn emits_forever(input: Arc<PlanInput>) -> bool {
    &&& input.boundedness != Boundedness::Bounded
    &&& input.emission_type == EmissionType::Incremental || input.emission_type
        == EmissionType::Both
}

/// Whether a filter refers to a column of a side by which the input is ordered.
pub open spec fn refers_to_order(filter: JoinFilter, side: JoinSide, ordered: Seq<bool>) -> bool {
    exists|k: int|
        0 <= k < filter.column_indices@.len() && (#[trigger] filter.column_indices@[k]).side
            == side && ordered[filter.column_indices@[k].index as int]
}

/// A hash join is made a symmetric one exactly where both its inputs may never end and emit
/// rows all the same. It repartitions its inputs exactly where joins may, and keeps the
/// order of an input exactly where the filter refers to a column by which it is ordered.
pub proof fn endless_joins_become_symmetric(
    node: PlanNode,
    config: OptimizerOptions,
    answer: Option<Rewrite>,
)
    requires
        call_ensures(hash_join_convert_symmetric_subrule, (&node, &config), answer),
    ensures
        answer is Some <==> node is HashJoin && emits_forever(node->HashJoin_0.left)
            && emits_forever(node->HashJoin_0.right),
        answer is Some ==> {
            let join = node->HashJoin_0;
            let refers = |side: JoinSide, input: Arc<PlanInput>|
                join.filter is Some && refers_to_order(
                    join.filter->0,
                    side,
                    input.ordered_columns@,
                );
            &&& answer->0 is SymmetricHashJoin
            &&& answer->0->left_order == if refers(JoinSide::Left, join.left) {
                join.left.output_ordering
            } else {
                None
            }
            &&& answer->0->right_order == if refers(JoinSide::Right, join.right) {
                join.right.output_ordering
            } else {
                None
            }
            &&& answer->0->mode == StreamJoinPartitionMode::Partitioned
                <==> config.repartition_joins
        },
{
}

/// Swapping a hash join for unbounded input keeps a partition mode that is already
/// decided, and partitions a join whose mode is left open. Joins that keep rows of the
/// right input, or are defined by them, are not swapped.
pub proof fn swapping_keeps_a_decided_mode(
    join: HashJoin,
    answer: Result<Rewrite, JoinError>,
)
    requires
        call_ensures(swap_join_according_to_unboundedness, (&join,), answer),
    ensures
        answer is Ok ==> answer->Ok_0 is SwapHashJoin && {
            let mode = answer->Ok_0->SwapHashJoin_0;
            &&& mode != PartitionMode::Auto
            &&& join.partition_mode != PartitionMode::Auto ==> mode == join.partition_mode
            &&& join.partition_mode == PartitionMode::Auto ==> mode == PartitionMode::Partitioned
        },
        answer is Err <==> join.join_type == JoinType::Right || join.join_type == JoinType::Full
            || join.join_type == JoinType::RightSemi || join.join_type == JoinType::RightAnti,
        answer is Err ==> answer->Err_0 == JoinError::CannotSwapUnbounded(join.join_type),
{
}

/// A hash join is swapped for unbounded input exactly where its left input may never end,
/// its right input ends, and its type is one that can be run swapped: its build side ends
/// then.
pub proof fn build_sides_are_made_finite(
    node: PlanNode,
    config: OptimizerOptions,
    swap: Result<Rewrite, JoinError>,
    answer: Result<Option<Rewrite>, JoinError>,
)
    requires
        node is HashJoin ==> call_ensures(
            swap_join_according_to_unboundedness,
            (&node->HashJoin_0,),
            swap,
        ),
        call_ensures(hash_join_swap_subrule, (&node, &config), answer),
    ensures
        answer is Ok,
        answer->Ok_0 is Some <==> node is HashJoin && {
            let join = node->HashJoin_0;
            &&& join.left.boundedness != Boundedness::Bounded
            &&& join.right.boundedness == Boundedness::Bounded
            &&& join.join_type == JoinType::Inner || join.join_type == JoinType::Left
                || join.join_type == JoinType::LeftSemi || join.join_type == JoinType::LeftAnti
        },
        answer->Ok_0 is Some ==> swap == Ok::<Rewrite, JoinError>(answer->Ok_0->0),
{
}

/// A join is fixed for unbounded input by being made symmetric, where that applies, and
/// else by being swapped, where that applies.
pub proof fn symmetric_joins_come_before_swaps(
    node: PlanNode,
    config: OptimizerOptions,
    symmetric: Option<Rewrite>,
    swapped: Result<Option<Rewrite>, JoinError>,
    answer: Result<Option<Rewrite>, JoinError>,
)
    requires
        call_ensures(hash_join_convert_symmetric_subrule, (&node, &config), symmetric),
        call_ensures(hash_join_swap_subrule, (&node, &config), swapped),
        call_ensures(apply_subrules, (&node, &config), answer),
    ensures
        symmetric is Some ==> answer == Ok::<Option<Rewrite>, JoinError>(symmetric),
        symmetric is None ==> answer == swapped,
{
}

/// The first pass fixes joins for unbounded inputs, the second goes by statistics, with
/// the byte limit for byte sizes and the row limit for row counts.
pub proof fn each_pass_has_its_subrules(
    rule: JoinSelection,
    node: PlanNode,
    config: OptimizerOptions,
    fixed: Result<Option<Rewrite>, JoinError>,
    first: Result<Option<Rewrite>, JoinError>,
    asof: Result<Option<AsOfJoinExec>, JoinError>,
    by_statistics: Result<Option<Rewrite>, JoinError>,
    second: Result<Option<Rewrite>, JoinError>,
)
    requires
        call_ensures(apply_subrules, (&node, &config), fixed),
        call_ensures(JoinSelection::optimize_node, (&rule, Pass::Pipeline, &node, &config), first),
        call_ensures(try_asof_join, (&node,), asof),
        call_ensures(
            statistical_join_selection_subrule,
            (
                &node,
                config.hash_join_single_partition_threshold,
                config.hash_join_single_partition_threshold_rows,
            ),
            by_statistics,
        ),
        call_ensures(
            JoinSelection::optimize_node,
            (&rule, Pass::Statistical, &node, &config),
            second,
        ),
    ensures
        first == fixed,
        asof == Ok::<Option<AsOfJoinExec>, JoinError>(None) ==> second == by_statistics,
        asof is Ok && asof->Ok_0 is Some ==> second is Ok && second->Ok_0 is Some
            && second->Ok_0->0 is AsOfJoin,
        asof is Err ==> second is Err && second->Err_0 == asof->Err_0,
{
}

/// A rewrite that exchanges nothing keeps every part of a join that it does not name: a
/// hash join in another mode differs in its mode alone, and a symmetric hash join has the
/// sides, keys, filter, type and null equality of the hash join.
pub proof fn rewrites_keep_the_other_parts(
    node: PlanNode,
    rewrite: Rewrite,
    made: Option<PlanNode>,
)
    requires
        call_ensures(rewrite_node, (node, rewrite), made),
    ensures
        node is HashJoin && rewrite is SetPartitionMode ==> made is Some && made->0 is HashJoin && {
            let (before, after) = (node->HashJoin_0, made->0->HashJoin_0);
            &&& after.partition_mode == rewrite->SetPartitionMode_0
            &&& after.left == before.left && after.right == before.right
            &&& after.on == before.on && after.filter == before.filter
            &&& after.join_type == before.join_type && after.projection == before.projection
            &&& after.null_equality == before.null_equality
            &&& after.supports_swap == before.supports_swap
        },
        node is HashJoin && rewrite is SymmetricHashJoin ==> made is Some
            && made->0 is SymmetricHashJoin && {
            let (before, after) = (node->HashJoin_0, made->0->SymmetricHashJoin_0);
            &&& after.left == before.left && after.right == before.right
            &&& after.on == before.on && after.filter == before.filter
            &&& after.join_type == before.join_type
            &&& after.null_equality == before.null_equality
            &&& after.left_order == rewrite->left_order
            &&& after.right_order == rewrite->right_order
            &&& after.mode == rewrite->mode
        },
        rewrite is AsOfJoin ==> made == Some(PlanNode::AsOfJoin(rewrite->AsOfJoin_0)),
        rewrite is SwapHashJoin || rewrite is SwapInputs ==> made is None,
{
}

/// Two inputs together end exactly where both do, and may need memory without end exactly
/// where one of them may; it does not matter which is which.
pub proof fn inputs_end_together(
    left: Boundedness,
    right: Boundedness,
    together: Boundedness,
    exchanged: Boundedness,
)
    requires
        call_ensures(boundedness_from_children, (left, right), together),
        call_ensures(boundedness_from_children, (right, left), exchanged),
    ensures
        together == Boundedness::Bounded <==> left == Boundedness::Bounded && right
            == Boundedness::Bounded,
        together == (Boundedness::Unbounded { requires_infinite_memory: true }) <==> left == (
        Boundedness::Unbounded { requires_infinite_memory: true }) || right == (
        Boundedness::Unbounded { requires_infinite_memory: true }),
        exchanged == together,
{
}

/// The rule has a name, and keeps the columns of a plan.
pub proof fn the_rule_keeps_the_columns(rule: JoinSelection, name: &'static str, keeps: bool)
    requires
        call_ensures(JoinSelection::name, (&rule,), name),
        call_ensures(JoinSelection::schema_check, (&rule,), keeps),
    ensures
        name@ == "join_selection"@,
        keeps,
{
}

} // verus!
