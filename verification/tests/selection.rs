//! How joins are selected.
use asof_join::array::DataType;
use asof_join::batch::{Field, Schema};
use asof_join::condition::{flip_inequality, AsOfJoinCondition, AsOfJoinDirection};
use asof_join::error::JoinError;
use asof_join::expr::{Column, Operator, PhysicalExpr, PhysicalExprRef, PhysicalSortExpr};
use asof_join::order::SortOptions;
use asof_join::plan::{
    boundedness_from_children, Boundedness, EmissionType, PlanInput, Precision, Statistics,
};
use asof_join::predicates::{extract_asof_join_predicates, AsOfPredicateVisitor, JoinFilter};
use asof_join::selection::{
    apply_subrules, hash_join_convert_symmetric_subrule, hash_join_swap_subrule,
    partitioned_hash_join, rewrite_node, should_swap_join_order,
    statistical_join_selection_subrule,
    swap_join_according_to_unboundedness, try_asof_join, try_collect_left, CrossJoin, HashJoin,
    JoinSelection, NestedLoopJoin, OptimizerOptions, PartitionMode, Pass, PlanNode, Rewrite,
    StreamJoinPartitionMode, SymmetricHashJoin,
};
use asof_join::tree::{OptimizeError, PlanTree};
use asof_join::types::{ColumnIndex, JoinSide, JoinType, NullEquality};
use std::sync::Arc;

const UNBOUNDED: Boundedness = Boundedness::Unbounded { requires_infinite_memory: false };

fn col(name: &str, index: usize) -> PhysicalExprRef {
    Arc::new(PhysicalExpr::Column(Column { name: name.to_string(), index }))
}

fn binary(left: PhysicalExprRef, op: Operator, right: PhysicalExprRef) -> PhysicalExprRef {
    Arc::new(PhysicalExpr::Binary { left, op, right, sql: "..".to_string() })
}

fn schema(prefix: &str) -> Arc<Schema> {
    let fields = (0..3).map(|i| Field {
        name: format!("{prefix}{i}"),
        data_type: DataType::Int64,
        nullable: true,
    });
    Arc::new(Schema { fields: fields.collect() })
}

fn plan(prefix: &str, bytes: Precision, rows: Precision, boundedness: Boundedness) -> PlanInput {
    PlanInput {
        schema: schema(prefix),
        partitions: 1,
        boundedness,
        emission_type: EmissionType::Incremental,
        statistics: Ok(Statistics { num_rows: rows, total_byte_size: bytes }),
        ordered_columns: vec![false, true, false],
        output_ordering: Some(Arc::new(vec![PhysicalSortExpr {
            expr: col(&format!("{prefix}1"), 1),
            options: SortOptions { descending: false, nulls_first: true },
        }])),
    }
}

fn sized(prefix: &str, bytes: usize) -> Arc<PlanInput> {
    Arc::new(plan(prefix, Precision::Inexact(bytes), Precision::Absent, Boundedness::Bounded))
}

fn counted(prefix: &str, rows: usize) -> Arc<PlanInput> {
    Arc::new(plan(prefix, Precision::Absent, Precision::Exact(rows), Boundedness::Bounded))
}

fn unknown(prefix: &str) -> Arc<PlanInput> {
    Arc::new(plan(prefix, Precision::Absent, Precision::Absent, Boundedness::Bounded))
}

fn failing(prefix: &str) -> Arc<PlanInput> {
    let mut input = plan(prefix, Precision::Absent, Precision::Absent, Boundedness::Bounded);
    input.statistics = Err(format!("no statistics of {prefix}"));
    Arc::new(input)
}

fn endless(prefix: &str, boundedness: Boundedness, emission_type: EmissionType) -> Arc<PlanInput> {
    let mut input = plan(prefix, Precision::Absent, Precision::Absent, boundedness);
    input.emission_type = emission_type;
    Arc::new(input)
}

fn hash_join(
    left: Arc<PlanInput>,
    right: Arc<PlanInput>,
    partition_mode: PartitionMode,
) -> HashJoin {
    HashJoin {
        left,
        right,
        on: vec![(col("l0", 0), col("r0", 0))],
        filter: None,
        join_type: JoinType::Inner,
        projection: None,
        partition_mode,
        null_equality: NullEquality::NullEqualsNull,
        supports_swap: true,
    }
}

fn options(repartition_joins: bool) -> OptimizerOptions {
    OptimizerOptions {
        repartition_joins,
        hash_join_single_partition_threshold: 1000,
        hash_join_single_partition_threshold_rows: 100,
    }
}

fn at(index: usize, side: JoinSide) -> ColumnIndex {
    ColumnIndex { index, side }
}

/// Filter columns: `l1`, `r2`, `r1`, `l0`, and one of neither input.
fn filter(expression: PhysicalExprRef) -> JoinFilter {
    JoinFilter {
        expression,
        column_indices: vec![
            at(1, JoinSide::Left),
            at(2, JoinSide::Right),
            at(1, JoinSide::Right),
            at(0, JoinSide::Left),
            at(0, JoinSide::Neither),
        ],
    }
}

fn extract(
    expression: PhysicalExprRef,
) -> Option<(Vec<(PhysicalExprRef, PhysicalExprRef)>, AsOfJoinCondition)> {
    extract_asof_join_predicates(&filter(expression), &schema("l"), &schema("r"))
}

#[test]
fn operators_become_directions() {
    let make = |op: Operator| AsOfJoinCondition::try_new(col("l", 0), op, col("r", 0));
    for (op, direction, strict) in [
        (Operator::Gt, AsOfJoinDirection::Backward, true),
        (Operator::GtEq, AsOfJoinDirection::Backward, false),
        (Operator::Lt, AsOfJoinDirection::Forward, true),
        (Operator::LtEq, AsOfJoinDirection::Forward, false),
    ] {
        let condition = make(op).unwrap();
        assert_eq!((condition.direction, condition.strict), (direction, strict));
        let descending = direction == AsOfJoinDirection::Forward;
        assert_eq!(condition.sort_options(), SortOptions { descending, nulls_first: false });
    }
    for op in [Operator::Eq, Operator::NotEq, Operator::And, Operator::Or, Operator::Other] {
        assert_eq!(make(op).unwrap_err(), JoinError::NotAnInequality(op));
    }
}

#[test]
fn flipping_twice_gives_the_operator_back() {
    for (op, flipped) in [(Operator::Lt, Operator::Gt), (Operator::LtEq, Operator::GtEq)] {
        assert_eq!(flip_inequality(op), Ok(flipped));
        assert_eq!(flip_inequality(flipped), Ok(op));
    }
    assert_eq!(flip_inequality(Operator::Eq), Err(JoinError::CannotFlip(Operator::Eq)));
}

#[test]
fn one_inequality_and_equalities_are_extracted() {
    let inequality = binary(col("a", 0), Operator::GtEq, col("b", 1));
    let (on, condition) = extract(Arc::clone(&inequality)).unwrap();
    assert_eq!(on, vec![]);
    assert_eq!(
        condition,
        AsOfJoinCondition::try_new(col("l1", 1), Operator::GtEq, col("r2", 2)).unwrap()
    );
    let equality = binary(col("a", 3), Operator::Eq, col("b", 2));
    let exchanged = binary(col("b", 1), Operator::Eq, col("a", 0));
    let all = binary(
        binary(equality, Operator::And, inequality),
        Operator::And,
        exchanged,
    );
    let (on, condition) = extract(all).unwrap();
    assert_eq!(on, vec![(col("l0", 0), col("r1", 1)), (col("l1", 1), col("r2", 2))]);
    assert_eq!(condition.direction, AsOfJoinDirection::Backward);
}

#[test]
fn the_left_column_comes_first_whichever_side_it_stands_on() {
    let (_, one) = extract(binary(col("a", 0), Operator::Lt, col("b", 1))).unwrap();
    let (_, other) = extract(binary(col("b", 1), Operator::Gt, col("a", 0))).unwrap();
    assert_eq!(one, other);
    assert_eq!(one.direction, AsOfJoinDirection::Forward);
    assert!(one.strict);
}

#[test]
fn other_filters_are_not_extracted() {
    let inequality = || binary(col("a", 0), Operator::Gt, col("b", 1));
    let equality = || binary(col("a", 0), Operator::Eq, col("b", 1));
    let sum = Arc::new(PhysicalExpr::Other { columns: vec![], sql: "a + b".to_string() });
    for expression in [
        equality(),
        col("a", 0),
        binary(inequality(), Operator::And, inequality()),
        binary(inequality(), Operator::Or, equality()),
        binary(inequality(), Operator::And, binary(col("a", 0), Operator::NotEq, col("b", 1))),
        binary(col("a", 0), Operator::Gt, col("a", 3)),
        binary(col("a", 0), Operator::Gt, col("none", 4)),
        binary(col("a", 0), Operator::Gt, col("missing", 9)),
        binary(col("a", 0), Operator::Gt, Arc::clone(&sum) as PhysicalExprRef),
        binary(inequality(), Operator::And, binary(col("a", 0), Operator::Eq, col("a", 3))),
    ] {
        assert_eq!(extract(expression), None);
    }
}

fn visitor<'a>(
    filter: &'a JoinFilter,
    left: &'a Schema,
    right: &'a Schema,
) -> AsOfPredicateVisitor<'a> {
    AsOfPredicateVisitor {
        filter,
        left,
        right,
        on: vec![],
        asof_condition: None,
        inequality_count: 0,
        unsupported: false,
    }
}

#[test]
fn visiting_takes_nothing_back() {
    let (filter, left, right) = (filter(col("a", 0)), schema("l"), schema("r"));
    let mut visitor = visitor(&filter, &left, &right);
    visitor.visit(&binary(col("a", 0), Operator::Eq, col("b", 1)));
    assert_eq!(visitor.on, vec![(col("l1", 1), col("r2", 2))]);
    assert_eq!((visitor.inequality_count, visitor.unsupported), (0, false));
    visitor.visit(&binary(col("b", 2), Operator::Lt, col("a", 3)));
    let found = AsOfJoinCondition::try_new(col("l0", 0), Operator::Gt, col("r1", 1)).unwrap();
    assert_eq!(visitor.asof_condition, Some(found.clone()));
    assert_eq!((visitor.inequality_count, visitor.unsupported), (1, false));
    visitor.visit(&binary(
        binary(col("b", 2), Operator::Eq, col("a", 3)),
        Operator::And,
        binary(col("a", 0), Operator::Lt, col("b", 1)),
    ));
    assert_eq!(
        visitor.on,
        vec![(col("l1", 1), col("r2", 2)), (col("l0", 0), col("r1", 1))]
    );
    assert_eq!(visitor.asof_condition, Some(found.clone()));
    assert_eq!((visitor.inequality_count, visitor.unsupported), (2, true));
    visitor.visit(&binary(col("a", 0), Operator::Eq, col("b", 1)));
    assert_eq!(visitor.on.len(), 3);
    assert_eq!(visitor.asof_condition, Some(found));
    assert_eq!((visitor.inequality_count, visitor.unsupported), (2, true));
}

#[test]
fn sides_of_comparisons_are_told_apart() {
    let (filter, left, right) = (filter(col("a", 0)), schema("l"), schema("r"));
    let visitor = visitor(&filter, &left, &right);
    let columns = || (col("l1", 1), col("r2", 2));
    let (l, r) = columns();
    let forward = visitor.extract_inequality(&col("a", 0), &col("b", 1), Operator::LtEq);
    assert_eq!(forward, Ok(Some((l, r, Operator::LtEq))));
    let exchanged = visitor.extract_inequality(&col("b", 1), &col("a", 0), Operator::GtEq);
    assert_eq!(exchanged, forward);
    let same_side = visitor.extract_inequality(&col("a", 0), &col("a", 3), Operator::Gt);
    assert_eq!(same_side, Ok(None));
    let literal = Arc::new(PhysicalExpr::Other { columns: vec![], sql: "1".to_string() });
    assert_eq!(visitor.extract_inequality(&literal, &col("b", 1), Operator::Gt), Ok(None));
    assert_eq!(
        visitor.extract_inequality(&col("b", 1), &col("a", 0), Operator::Eq),
        Err(JoinError::CannotFlip(Operator::Eq))
    );
    let pair = |a: PhysicalExprRef, op: Operator, b: PhysicalExprRef| {
        visitor.extract_side_pair(&a, &b, op)
    };
    assert_eq!(pair(col("a", 0), Operator::Eq, col("b", 1)), Some(columns()));
    assert_eq!(pair(col("b", 1), Operator::Eq, col("a", 0)), Some(columns()));
    assert_eq!(pair(col("a", 0), Operator::Lt, col("b", 1)), None);
    assert_eq!(pair(col("b", 1), Operator::Eq, col("b", 2)), None);
    assert_eq!(visitor.filter_column(&col("x", 3)), Some((JoinSide::Left, col("l0", 0))));
    assert_eq!(visitor.filter_column(&col("x", 4)), None);
    assert_eq!(visitor.filter_column(&col("x", 5)), None);
}

#[test]
fn joins_with_one_inequality_become_asof_joins() {
    let mut join = hash_join(unknown("l"), unknown("r"), PartitionMode::Auto);
    join.filter = Some(filter(binary(
        binary(col("b", 2), Operator::Eq, col("a", 3)),
        Operator::And,
        binary(col("b", 1), Operator::LtEq, col("a", 0)),
    )));
    join.join_type = JoinType::Left;
    join.projection = Some(vec![5, 0]);
    let rewrite = statistical_join_selection_subrule(&PlanNode::HashJoin(join), 10, 10);
    let asof = match rewrite {
        Ok(Some(Rewrite::AsOfJoin(asof))) => asof,
        other => panic!("selected {other:?}"),
    };
    assert_eq!(asof.on, vec![(col("l0", 0), col("r0", 0)), (col("l0", 0), col("r1", 1))]);
    assert_eq!(asof.asof_condition.left, col("l1", 1));
    assert_eq!(asof.asof_condition.direction, AsOfJoinDirection::Backward);
    assert!(!asof.asof_condition.strict);
    assert_eq!(asof.join_type, JoinType::Left);
    assert_eq!(asof.projection, Some(vec![5, 0]));
    assert_eq!(asof.null_equality, NullEquality::NullEqualsNull);

    let nested = NestedLoopJoin {
        left: unknown("l"),
        right: unknown("r"),
        filter: Some(filter(binary(col("a", 0), Operator::Gt, col("b", 1)))),
        join_type: JoinType::Inner,
        projection: None,
        supports_swap: true,
    };
    let asof = try_asof_join(&PlanNode::NestedLoopJoin(nested)).unwrap().unwrap();
    assert_eq!(asof.on, vec![]);
    assert_eq!(asof.null_equality, NullEquality::NullEqualsNothing);
}

#[test]
fn other_joins_do_not_become_asof_joins() {
    let inequality = || filter(binary(col("a", 0), Operator::Gt, col("b", 1)));
    let mut semi = hash_join(unknown("l"), unknown("r"), PartitionMode::Auto);
    semi.filter = Some(inequality());
    semi.join_type = JoinType::LeftSemi;
    assert_eq!(try_asof_join(&PlanNode::HashJoin(semi)), Ok(None));
    let plain = hash_join(unknown("l"), unknown("r"), PartitionMode::Auto);
    assert_eq!(try_asof_join(&PlanNode::HashJoin(plain)), Ok(None));
    let cross = CrossJoin { left: unknown("l"), right: unknown("r") };
    assert_eq!(try_asof_join(&PlanNode::CrossJoin(cross)), Ok(None));
    let mut misnamed = hash_join(unknown("l"), unknown("r"), PartitionMode::Auto);
    misnamed.filter = Some(inequality());
    misnamed.on = vec![(col("elsewhere", 0), col("r0", 0))];
    assert_eq!(
        try_asof_join(&PlanNode::HashJoin(misnamed)),
        Err(JoinError::MissingJoinColumns)
    );
}

#[test]
fn the_larger_side_goes_right() {
    let swap = |left: Arc<PlanInput>, right: Arc<PlanInput>| should_swap_join_order(&left, &right);
    assert_eq!(swap(sized("l", 9), sized("r", 8)), Ok(true));
    assert_eq!(swap(sized("l", 8), sized("r", 9)), Ok(false));
    assert_eq!(swap(sized("l", 8), sized("r", 8)), Ok(false));
    assert_eq!(swap(counted("l", 9), counted("r", 8)), Ok(true));
    assert_eq!(swap(sized("l", 9), counted("r", 8)), Ok(false));
    assert_eq!(swap(unknown("l"), unknown("r")), Ok(false));
    let lost = |prefix: &str| JoinError::Statistics(format!("no statistics of {prefix}"));
    assert_eq!(swap(failing("l"), failing("r")), Err(lost("l")));
    assert_eq!(swap(unknown("l"), failing("r")), Err(lost("r")));
}

#[test]
fn small_sides_are_collected() {
    let decide = |left: Arc<PlanInput>, right: Arc<PlanInput>, supports_swap: bool| {
        let mut join = hash_join(left, right, PartitionMode::Auto);
        join.supports_swap = supports_swap;
        try_collect_left(&join, false, 100, 10)
    };
    let keep = || Ok(Some(Rewrite::SetPartitionMode(PartitionMode::CollectLeft)));
    let swap = || Ok(Some(Rewrite::SwapHashJoin(PartitionMode::CollectLeft)));
    assert_eq!(decide(sized("l", 50), sized("r", 60), true), keep());
    assert_eq!(decide(sized("l", 60), sized("r", 50), true), swap());
    assert_eq!(decide(sized("l", 60), sized("r", 50), false), keep());
    assert_eq!(decide(sized("l", 60), sized("r", 100), true), keep());
    assert_eq!(decide(sized("l", 100), sized("r", 60), true), swap());
    assert_eq!(decide(sized("l", 100), sized("r", 60), false), Ok(None));
    assert_eq!(decide(sized("l", 100), sized("r", 100), true), Ok(None));
    assert_eq!(decide(sized("l", 0), unknown("r"), true), Ok(None));
    assert_eq!(decide(counted("l", 9), failing("r"), true), keep());
    assert_eq!(decide(counted("l", 10), unknown("r"), true), Ok(None));
}

#[test]
fn the_statistical_subrule_selects_by_mode() {
    let decide = |left: Arc<PlanInput>, right: Arc<PlanInput>, mode: PartitionMode| {
        let node = PlanNode::HashJoin(hash_join(left, right, mode));
        statistical_join_selection_subrule(&node, 100, 10)
    };
    let set = |mode: PartitionMode| Ok(Some(Rewrite::SetPartitionMode(mode)));
    let swap = |mode: PartitionMode| Ok(Some(Rewrite::SwapHashJoin(mode)));
    assert_eq!(
        decide(unknown("l"), unknown("r"), PartitionMode::Auto),
        set(PartitionMode::Partitioned)
    );
    assert_eq!(
        decide(sized("l", 500), sized("r", 400), PartitionMode::Auto),
        swap(PartitionMode::Partitioned)
    );
    assert_eq!(
        decide(sized("l", 50), sized("r", 400), PartitionMode::Auto),
        set(PartitionMode::CollectLeft)
    );
    assert_eq!(
        decide(sized("l", 500), sized("r", 400), PartitionMode::CollectLeft),
        swap(PartitionMode::CollectLeft)
    );
    assert_eq!(
        decide(unknown("l"), unknown("r"), PartitionMode::CollectLeft),
        set(PartitionMode::CollectLeft)
    );
    assert_eq!(decide(unknown("l"), unknown("r"), PartitionMode::Partitioned), Ok(None));
    assert_eq!(
        decide(sized("l", 500), sized("r", 400), PartitionMode::Partitioned),
        swap(PartitionMode::Partitioned)
    );
    let lost = Err(JoinError::Statistics("no statistics of l".to_string()));
    assert_eq!(decide(failing("l"), sized("r", 4000), PartitionMode::Auto), lost);
}

#[test]
fn cross_and_nested_loop_joins_are_swapped() {
    let cross = |left: Arc<PlanInput>, right: Arc<PlanInput>| {
        statistical_join_selection_subrule(&PlanNode::CrossJoin(CrossJoin { left, right }), 0, 0)
    };
    assert_eq!(cross(sized("l", 2), sized("r", 1)), Ok(Some(Rewrite::SwapInputs)));
    assert_eq!(cross(sized("l", 1), sized("r", 2)), Ok(None));
    let nested = |supports_swap: bool| {
        let join = NestedLoopJoin {
            left: sized("l", 2),
            right: sized("r", 1),
            filter: None,
            join_type: JoinType::Full,
            projection: None,
            supports_swap,
        };
        statistical_join_selection_subrule(&PlanNode::NestedLoopJoin(join), 0, 0)
    };
    assert_eq!(nested(true), Ok(Some(Rewrite::SwapInputs)));
    assert_eq!(nested(false), Ok(None));
    assert_eq!(statistical_join_selection_subrule(&PlanNode::Other, 0, 0), Ok(None));
}

#[test]
fn partitioned_hash_joins_build_the_smaller_side() {
    let decide = |left: usize, right: usize| {
        partitioned_hash_join(&hash_join(sized("l", left), sized("r", right), PartitionMode::Auto))
    };
    assert_eq!(decide(2, 1), Ok(Rewrite::SwapHashJoin(PartitionMode::Partitioned)));
    assert_eq!(decide(1, 2), Ok(Rewrite::SetPartitionMode(PartitionMode::Partitioned)));
}

#[test]
fn endless_streams_are_joined_symmetrically() {
    let node = |left: EmissionType, right: EmissionType, use_order: bool| {
        let mut join = hash_join(
            endless("l", UNBOUNDED, left),
            endless("r", UNBOUNDED, right),
            PartitionMode::Auto,
        );
        if use_order {
            join.filter = Some(JoinFilter {
                expression: binary(col("a", 0), Operator::NotEq, col("b", 1)),
                column_indices: vec![at(1, JoinSide::Left), at(2, JoinSide::Right)],
            });
        }
        PlanNode::HashJoin(join)
    };
    let convert = hash_join_convert_symmetric_subrule;
    assert_eq!(
        convert(&node(EmissionType::Incremental, EmissionType::Both, false), &options(true)),
        Some(Rewrite::SymmetricHashJoin {
            left_order: None,
            right_order: None,
            mode: StreamJoinPartitionMode::Partitioned,
        })
    );
    let ordered = node(EmissionType::Both, EmissionType::Incremental, true);
    let left = plan("l", Precision::Absent, Precision::Absent, UNBOUNDED);
    assert_eq!(
        convert(&ordered, &options(false)),
        Some(Rewrite::SymmetricHashJoin {
            left_order: left.output_ordering,
            right_order: None,
            mode: StreamJoinPartitionMode::SinglePartition,
        })
    );
    assert!(matches!(
        apply_subrules(&ordered, &options(false)),
        Ok(Some(Rewrite::SymmetricHashJoin { .. }))
    ));
    let blocking = node(EmissionType::Final, EmissionType::Incremental, false);
    assert_eq!(convert(&blocking, &options(true)), None);
    assert_eq!(apply_subrules(&blocking, &options(true)), Ok(None));
    assert_eq!(convert(&PlanNode::Other, &options(true)), None);
}

#[test]
fn rewritten_joins_keep_their_parts() {
    let before = || {
        let mut join = hash_join(sized("l", 5), sized("r", 7), PartitionMode::Auto);
        join.filter = Some(filter(binary(col("a", 0), Operator::NotEq, col("b", 1))));
        join.join_type = JoinType::Left;
        join.projection = Some(vec![4, 0]);
        join
    };
    let mut collected = before();
    collected.partition_mode = PartitionMode::CollectLeft;
    assert_eq!(
        rewrite_node(
            PlanNode::HashJoin(before()),
            Rewrite::SetPartitionMode(PartitionMode::CollectLeft)
        ),
        Some(PlanNode::HashJoin(collected))
    );
    let HashJoin { left, right, on, filter, join_type, null_equality, .. } = before();
    let left_order = || left.output_ordering.clone();
    let symmetric = Rewrite::SymmetricHashJoin {
        left_order: left_order(),
        right_order: None,
        mode: StreamJoinPartitionMode::SinglePartition,
    };
    assert_eq!(
        rewrite_node(PlanNode::HashJoin(before()), symmetric),
        Some(PlanNode::SymmetricHashJoin(SymmetricHashJoin {
            left_order: left_order(),
            left: Arc::clone(&left),
            right,
            on,
            filter,
            join_type,
            null_equality,
            right_order: None,
            mode: StreamJoinPartitionMode::SinglePartition,
        }))
    );
    let swap = Rewrite::SwapHashJoin(PartitionMode::Partitioned);
    assert_eq!(rewrite_node(PlanNode::HashJoin(before()), swap), None);
    let mode = Rewrite::SetPartitionMode(PartitionMode::Partitioned);
    assert_eq!(rewrite_node(PlanNode::Other, mode), None);
}

#[test]
fn the_build_side_is_made_finite() {
    let node = |join_type: JoinType, mode: PartitionMode, left: Boundedness, right: Boundedness| {
        let mut join = hash_join(
            endless("l", left, EmissionType::Incremental),
            endless("r", right, EmissionType::Incremental),
            mode,
        );
        join.join_type = join_type;
        PlanNode::HashJoin(join)
    };
    let swap = |node: PlanNode| hash_join_swap_subrule(&node, &options(true));
    let bounded = Boundedness::Bounded;
    for join_type in [JoinType::Inner, JoinType::Left, JoinType::LeftSemi, JoinType::LeftAnti] {
        assert_eq!(
            swap(node(join_type, PartitionMode::Auto, UNBOUNDED, bounded)),
            Ok(Some(Rewrite::SwapHashJoin(PartitionMode::Partitioned)))
        );
        assert_eq!(
            swap(node(join_type, PartitionMode::CollectLeft, UNBOUNDED, bounded)),
            Ok(Some(Rewrite::SwapHashJoin(PartitionMode::CollectLeft)))
        );
        assert_eq!(swap(node(join_type, PartitionMode::Auto, bounded, UNBOUNDED)), Ok(None));
        assert_eq!(swap(node(join_type, PartitionMode::Auto, bounded, bounded)), Ok(None));
        assert_eq!(swap(node(join_type, PartitionMode::Auto, UNBOUNDED, UNBOUNDED)), Ok(None));
    }
    for join_type in [JoinType::Right, JoinType::RightSemi, JoinType::RightAnti, JoinType::Full] {
        assert_eq!(swap(node(join_type, PartitionMode::Auto, UNBOUNDED, bounded)), Ok(None));
        let mut join = hash_join(unknown("l"), unknown("r"), PartitionMode::Partitioned);
        join.join_type = join_type;
        assert_eq!(
            swap_join_according_to_unboundedness(&join),
            Err(JoinError::CannotSwapUnbounded(join_type))
        );
    }
    assert_eq!(swap(PlanNode::Other), Ok(None));
}

#[test]
fn each_pass_decides_on_a_node() {
    let rule = JoinSelection::new();
    assert_eq!(rule.name(), "join_selection");
    assert!(rule.schema_check());
    let node = PlanNode::HashJoin(hash_join(
        endless("l", UNBOUNDED, EmissionType::Final),
        sized("r", 50),
        PartitionMode::Auto,
    ));
    assert_eq!(
        rule.optimize_node(Pass::Pipeline, &node, &options(true)),
        Ok(Some(Rewrite::SwapHashJoin(PartitionMode::Partitioned)))
    );
    assert_eq!(
        rule.optimize_node(Pass::Statistical, &node, &options(true)),
        Ok(Some(Rewrite::SwapHashJoin(PartitionMode::CollectLeft)))
    );
}

/// What a test keeps of a node: its kind and the size of its output.
#[derive(Debug, PartialEq)]
struct Planned {
    kind: &'static str,
    bytes: usize,
    boundedness: Boundedness,
    mode: PartitionMode,
}

impl Planned {
    fn input(&self) -> Arc<PlanInput> {
        let bytes = Precision::Exact(self.bytes);
        Arc::new(plan("c", bytes, Precision::Absent, self.boundedness))
    }
}

fn leaf(bytes: usize, boundedness: Boundedness) -> PlanTree<Planned> {
    let mode = PartitionMode::Auto;
    PlanTree {
        plan: Planned { kind: "scan", bytes, boundedness, mode },
        node: PlanNode::Other,
        inputs: vec![],
    }
}

/// Makes a node over inputs, and notes that it was made.
fn make(plan: Planned, inputs: Vec<PlanTree<Planned>>) -> Result<PlanTree<Planned>, String> {
    if plan.kind == "broken" {
        return Err("cannot be made".to_string());
    }
    let plan = match &inputs[..] {
        [] => plan,
        _ => Planned {
            bytes: inputs.iter().map(|input| input.plan.bytes).sum(),
            boundedness: inputs.iter().fold(Boundedness::Bounded, |all, input| {
                boundedness_from_children(all, input.plan.boundedness)
            }),
            ..plan
        },
    };
    let node = match &inputs[..] {
        [left, right] if plan.kind == "hash" => PlanNode::HashJoin(HashJoin {
            on: vec![(col("c0", 0), col("c0", 0))],
            ..hash_join(left.plan.input(), right.plan.input(), plan.mode)
        }),
        [left, right] if plan.kind == "cross" => PlanNode::CrossJoin(CrossJoin {
            left: left.plan.input(),
            right: right.plan.input(),
        }),
        _ => PlanNode::Other,
    };
    Ok(PlanTree { plan, node, inputs })
}

fn carry_out(tree: PlanTree<Planned>, rewrite: Rewrite) -> Result<PlanTree<Planned>, String> {
    let PlanTree { plan, mut inputs, .. } = tree;
    match rewrite {
        Rewrite::SetPartitionMode(mode) => make(Planned { mode, ..plan }, inputs),
        Rewrite::SwapHashJoin(mode) => {
            inputs.reverse();
            make(Planned { mode, ..plan }, inputs)
        }
        Rewrite::SwapInputs => {
            inputs.reverse();
            make(plan, inputs)
        }
        other => Err(format!("cannot carry out {other:?}")),
    }
}

fn node_over(kind: &'static str, inputs: Vec<PlanTree<Planned>>) -> PlanTree<Planned> {
    PlanTree {
        plan: Planned {
            kind,
            bytes: 0,
            boundedness: Boundedness::Bounded,
            mode: PartitionMode::Auto,
        },
        node: PlanNode::Other,
        inputs,
    }
}

/// A plan in short: leaves by size, hash joins with their mode.
fn short(tree: &PlanTree<Planned>) -> String {
    let inputs: Vec<String> = tree.inputs.iter().map(short).collect();
    match tree.plan.kind {
        "scan" => tree.plan.bytes.to_string(),
        "hash" => format!("{:?}({})", tree.plan.mode, inputs.join(" ")),
        kind => format!("{kind}({})", inputs.join(" ")),
    }
}

#[test]
fn every_join_of_a_plan_is_decided_inputs_first() {
    let bounded = Boundedness::Bounded;
    let rule = JoinSelection::new();
    let plan = node_over(
        "sort",
        vec![node_over(
            "hash",
            vec![
                node_over("hash", vec![leaf(5000, bounded), leaf(3000, bounded)]),
                node_over("cross", vec![leaf(4000, bounded), leaf(7, bounded)]),
            ],
        )],
    );
    let optimized = rule.optimize(plan, &options(true), &make, &carry_out).unwrap();
    assert_eq!(
        short(&optimized),
        "sort(Partitioned(cross(7 4000) Partitioned(3000 5000)))"
    );
}

#[test]
fn a_plan_is_fixed_for_unbounded_inputs_before_it_is_optimized() {
    let rule = JoinSelection::new();
    let plan = || {
        let endless = leaf(9, UNBOUNDED);
        let inner = node_over("hash", vec![endless, leaf(800, Boundedness::Bounded)]);
        node_over("filter", vec![inner])
    };
    let fixed = rule.transform_up(Pass::Pipeline, plan(), &options(true), &make, &carry_out);
    assert_eq!(short(&fixed.unwrap()), "filter(Partitioned(800 9))");
    let optimized = rule.optimize(plan(), &options(true), &make, &carry_out).unwrap();
    assert_eq!(short(&optimized), "filter(Partitioned(9 800))");
}

#[test]
fn the_first_error_ends_a_pass() {
    let bounded = Boundedness::Bounded;
    let rule = JoinSelection::new();
    let broken = |kind: &'static str| node_over(kind, vec![]);
    let plan = node_over("hash", vec![leaf(1, bounded), broken("broken")]);
    let failed = rule.optimize(plan, &options(true), &make, &carry_out);
    assert_eq!(failed.unwrap_err(), OptimizeError::Plan("cannot be made".to_string()));

    let unsized_inputs = |plan: Planned, inputs: Vec<PlanTree<Planned>>| {
        let mut tree = make(plan, inputs)?;
        if let PlanNode::HashJoin(join) = &mut tree.node {
            join.left = failing("l");
        }
        Ok::<_, String>(tree)
    };
    let plan = node_over("hash", vec![leaf(5000, bounded), leaf(6000, bounded)]);
    let failed = rule.optimize(plan, &options(true), &unsized_inputs, &carry_out);
    let lost = JoinError::Statistics("no statistics of l".to_string());
    assert_eq!(failed.unwrap_err(), OptimizeError::Rule(lost));
}

#[test]
fn unbounded_inputs_make_unbounded_outputs() {
    let infinite = Boundedness::Unbounded { requires_infinite_memory: true };
    let bounded = Boundedness::Bounded;
    assert_eq!(boundedness_from_children(bounded, bounded), bounded);
    assert_eq!(boundedness_from_children(UNBOUNDED, bounded), UNBOUNDED);
    assert_eq!(boundedness_from_children(bounded, UNBOUNDED), UNBOUNDED);
    assert_eq!(boundedness_from_children(UNBOUNDED, infinite), infinite);
    assert_eq!(boundedness_from_children(infinite, bounded), infinite);
}
