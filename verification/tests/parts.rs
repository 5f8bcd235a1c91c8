//! The parts that a join is made of.
use asof_join::array::{Array, DataType, Scalar};
use asof_join::batch::{concat_or_empty, take_record_batch, Field, RecordBatch, Schema};
use asof_join::condition::AsOfJoinDirection;
use asof_join::error::JoinError;
use asof_join::eval::{
    array_of_size, evaluate, evaluate_expr, evaluate_keys, ColumnarValue, KeyColumns,
};
use asof_join::expr::{Column, Operator, PhysicalExpr, PhysicalExprRef};
use asof_join::keys::{build_partition_validity, build_validity, KeyOrder, SortedKeyValues};
use asof_join::merge::merge_sorted;
use asof_join::plan::{build_join_schema, can_project, check_join_is_valid};
use asof_join::sort::sort_join_input;
use asof_join::types::{ColumnIndex, JoinSide, JoinType, NullEquality};
use std::sync::Arc;

fn col(index: usize) -> PhysicalExprRef {
    Arc::new(PhysicalExpr::Column(Column { name: format!("c{index}"), index }))
}

fn field(name: &str, data_type: DataType, nullable: bool) -> Field {
    Field { name: name.to_string(), data_type, nullable }
}

fn ints(values: Vec<Option<i64>>) -> Array {
    Array::Int64(values)
}

fn two_columns(a: Vec<Option<i64>>, b: Vec<Option<i64>>) -> RecordBatch {
    let fields = vec![field("c0", DataType::Int64, true), field("c1", DataType::Int64, true)];
    let num_rows = a.len();
    RecordBatch::try_new(Arc::new(Schema { fields }), vec![ints(a), ints(b)], num_rows).unwrap()
}

fn key_columns(batch: &RecordBatch, on: bool) -> KeyColumns {
    let value = |index: usize| evaluate(&col(index), batch).unwrap();
    let on = if on { vec![value(0)] } else { vec![] };
    evaluate_keys(on, value(1), batch.num_rows).unwrap()
}

fn keys(
    batch: &RecordBatch,
    on: bool,
    direction: AsOfJoinDirection,
    null_equality: NullEquality,
) -> SortedKeyValues {
    let keys = key_columns(batch, on);
    SortedKeyValues::try_new(keys, batch.num_rows, direction, null_equality).unwrap()
}

#[test]
fn batches_have_to_fit_their_schema() {
    let schema = |nullable: bool| {
        Arc::new(Schema { fields: vec![field("c0", DataType::Int64, nullable)] })
    };
    let make = |nullable: bool, columns: Vec<Array>, num_rows: usize| {
        RecordBatch::try_new(schema(nullable), columns, num_rows).map(|batch| batch.num_rows)
    };
    let refused = Err(JoinError::InvalidRecordBatch);
    assert_eq!(make(true, vec![ints(vec![Some(1), None])], 2), Ok(2));
    assert_eq!(make(false, vec![ints(vec![Some(1), None])], 2), refused);
    assert_eq!(make(true, vec![ints(vec![Some(1)])], 2), refused);
    assert_eq!(make(true, vec![Array::UInt64(vec![Some(1)])], 1), refused);
    assert_eq!(make(true, vec![], 0), refused);
}

#[test]
fn batches_are_put_one_after_the_other() {
    let a = two_columns(vec![Some(1)], vec![None]);
    let b = two_columns(vec![Some(2), Some(3)], vec![Some(4), None]);
    let schema = Arc::clone(&a.schema);
    let all = concat_or_empty(Arc::clone(&schema), vec![a, b]).unwrap();
    assert_eq!(all, two_columns(vec![Some(1), Some(2), Some(3)], vec![None, Some(4), None]));
    let none = concat_or_empty(schema, vec![]).unwrap();
    assert_eq!(none, two_columns(vec![], vec![]));
}

#[test]
fn rows_are_taken_and_sliced() {
    let batch = two_columns(vec![Some(1), Some(2), Some(3)], vec![None, Some(5), Some(6)]);
    let taken = take_record_batch(&batch, &vec![2, 0, 2]);
    assert_eq!(
        taken,
        two_columns(vec![Some(3), Some(1), Some(3)], vec![Some(6), None, Some(6)])
    );
    assert_eq!(batch.slice(1, 2), two_columns(vec![Some(2), Some(3)], vec![Some(5), Some(6)]));
    assert_eq!(batch.slice(3, 0), two_columns(vec![], vec![]));
}

#[test]
fn expressions_have_values() {
    let batch = two_columns(vec![Some(1), None], vec![Some(3), Some(4)]);
    let array = |index: usize| ColumnarValue::Array(match index {
        0 => ints(vec![Some(1), None]),
        _ => ints(vec![Some(3), Some(4)]),
    });
    assert_eq!(evaluate(&col(0), &batch), Some(Ok(array(0))));
    assert_eq!(evaluate(&col(2), &batch), Some(Err(JoinError::UnknownColumn(2))));
    let text = Scalar::Utf8(Some("x".to_string()));
    assert_eq!(array_of_size(&text, 2), Array::Utf8(vec![Some("x".to_string()); 2]));
    assert_eq!(array_of_size(&Scalar::Boolean(None), 1), Array::Boolean(vec![None]));
    let null: PhysicalExprRef = Arc::new(PhysicalExpr::Literal {
        value: Scalar::UInt64(None),
        sql: "NULL".to_string(),
    });
    let value = evaluate(&null, &batch).unwrap();
    assert_eq!(value, Ok(ColumnarValue::Scalar(Scalar::UInt64(None))));
    assert_eq!(evaluate_expr(value, 2), Ok(Array::UInt64(vec![None, None])));
    assert_eq!(evaluate_expr(Ok(array(1)), 2), Ok(ints(vec![Some(3), Some(4)])));
    let sum: PhysicalExprRef = Arc::new(PhysicalExpr::Binary {
        left: col(0),
        op: Operator::Other,
        right: col(1),
        sql: "c0 + c1".to_string(),
    });
    assert_eq!(evaluate(&sum, &batch), None);
}

#[test]
fn the_first_key_that_fails_is_reported() {
    let value = |at: i64| Ok(ColumnarValue::Array(ints(vec![Some(at), None])));
    let failure = |text: &str| Err(JoinError::Evaluation(text.to_string()));
    let constant = Ok(ColumnarValue::Scalar(Scalar::Int64(Some(7))));
    assert_eq!(
        evaluate_keys(vec![value(1), constant], value(2), 2),
        Ok(KeyColumns {
            on: vec![ints(vec![Some(1), None]), ints(vec![Some(7), Some(7)])],
            asof: ints(vec![Some(2), None]),
        })
    );
    assert_eq!(
        evaluate_keys(vec![value(1), failure("b")], failure("c"), 2),
        Err(JoinError::Evaluation("b".to_string()))
    );
    assert_eq!(
        evaluate_keys(vec![failure("a"), failure("b")], value(2), 2),
        Err(JoinError::Evaluation("a".to_string()))
    );
    assert_eq!(
        evaluate_keys(vec![value(1)], failure("c"), 2),
        Err(JoinError::Evaluation("c".to_string()))
    );
}

#[test]
fn nulls_may_or_may_not_match() {
    let columns = vec![ints(vec![Some(1), None, Some(3)]), ints(vec![Some(1), Some(2), None])];
    assert_eq!(
        build_partition_validity(&columns, 3, NullEquality::NullEqualsNothing),
        vec![true, false, false]
    );
    assert_eq!(
        build_partition_validity(&columns, 3, NullEquality::NullEqualsNull),
        vec![true, true, true]
    );
    assert_eq!(build_validity(&columns[0], 3), vec![true, false, true]);
    assert_eq!(build_validity(&ints(vec![Some(1)]), 1), vec![true]);
}

#[test]
fn inputs_are_sorted_by_their_keys() {
    let batch = || {
        two_columns(
            vec![Some(2), None, Some(1), Some(1), Some(1)],
            vec![Some(9), Some(1), None, Some(7), Some(8)],
        )
    };
    let sorted = |direction: AsOfJoinDirection| {
        let batch = batch();
        let (rows, keys) = sort_join_input(&batch, key_columns(&batch, true), direction).unwrap();
        assert_eq!(keys, key_columns(&rows, true));
        rows
    };
    assert_eq!(
        sorted(AsOfJoinDirection::Backward),
        two_columns(
            vec![Some(1), Some(1), Some(1), Some(2), None],
            vec![Some(7), Some(8), None, Some(9), Some(1)],
        )
    );
    assert_eq!(
        sorted(AsOfJoinDirection::Forward),
        two_columns(
            vec![Some(1), Some(1), Some(1), Some(2), None],
            vec![Some(8), Some(7), None, Some(9), Some(1)],
        )
    );
}

#[test]
fn rows_are_sorted_by_keys_that_they_do_not_hold() {
    let batch = two_columns(vec![Some(1), Some(2), Some(3)], vec![None, None, None]);
    let keys = KeyColumns { on: vec![], asof: ints(vec![Some(5), None, Some(4)]) };
    let (rows, keys) = sort_join_input(&batch, keys, AsOfJoinDirection::Backward).unwrap();
    assert_eq!(rows, two_columns(vec![Some(3), Some(1), Some(2)], vec![None, None, None]));
    assert_eq!(keys.asof, ints(vec![Some(4), Some(5), None]));
}

#[test]
fn sorted_keys_compare() {
    let batch = two_columns(
        vec![Some(1), Some(1), Some(2), None],
        vec![Some(7), None, Some(6), Some(6)],
    );
    let sorted = keys(&batch, true, AsOfJoinDirection::Backward, NullEquality::NullEqualsNothing);
    assert_eq!(sorted.num_rows(), 4);
    assert_eq!(sorted.partition_order(0, &sorted, 1), KeyOrder::Equal);
    assert_eq!(sorted.partition_order(1, &sorted, 2), KeyOrder::Less);
    assert_eq!(sorted.partition_order(3, &sorted, 2), KeyOrder::Greater);
    assert_eq!(sorted.partition_end(0), 2);
    assert_eq!(sorted.partition_end(2), 3);
    assert_eq!(sorted.partition_end(3), 4);
    let joinable: Vec<bool> = (0..4).map(|row| sorted.is_joinable(row)).collect();
    assert_eq!(joinable, vec![true, false, true, false]);
    assert!(sorted.passes_asof(2, &sorted, 0, true));
    assert!(!sorted.passes_asof(0, &sorted, 0, true));
    assert!(sorted.passes_asof(0, &sorted, 0, false));
    assert!(!sorted.passes_asof(0, &sorted, 2, false));

    let unkeyed = keys(&batch, false, AsOfJoinDirection::Forward, NullEquality::NullEqualsNothing);
    assert_eq!(unkeyed.partition_end(0), 4);
    assert_eq!(unkeyed.partition_order(0, &unkeyed, 3), KeyOrder::Equal);
    assert!(unkeyed.passes_asof(0, &unkeyed, 2, true));
}

#[test]
fn sorted_keys_are_merged() {
    let left = two_columns(
        vec![Some(1), Some(1), Some(2), Some(3), Some(5)],
        vec![Some(1), Some(9), Some(4), Some(4), Some(4)],
    );
    let right = two_columns(
        vec![Some(0), Some(1), Some(1), Some(3), Some(4)],
        vec![Some(1), Some(2), Some(3), Some(4), Some(4)],
    );
    let merged = |join_type: JoinType, strict: bool| {
        let backward = AsOfJoinDirection::Backward;
        merge_sorted(
            &keys(&left, true, backward, NullEquality::NullEqualsNothing),
            &keys(&right, true, backward, NullEquality::NullEqualsNothing),
            join_type,
            strict,
        )
    };
    assert_eq!(
        merged(JoinType::Left, false),
        (
            vec![Some(0), Some(1), Some(2), Some(3), Some(4)],
            vec![None, Some(2), None, Some(3), None],
        )
    );
    assert_eq!(merged(JoinType::Inner, false), (vec![Some(1), Some(3)], vec![Some(2), Some(3)]));
    assert_eq!(merged(JoinType::Inner, true), (vec![Some(1)], vec![Some(2)]));
}

#[test]
fn left_joins_make_right_columns_nullable() {
    let left = Schema { fields: vec![field("a", DataType::Int64, false)] };
    let right = Schema {
        fields: vec![field("b", DataType::Utf8, false), field("c", DataType::Boolean, true)],
    };
    let (schema, columns) = build_join_schema(&left, &right, JoinType::Left);
    assert_eq!(
        schema.fields,
        vec![
            field("a", DataType::Int64, false),
            field("b", DataType::Utf8, true),
            field("c", DataType::Boolean, true),
        ]
    );
    assert_eq!(
        columns,
        vec![
            ColumnIndex { index: 0, side: JoinSide::Left },
            ColumnIndex { index: 0, side: JoinSide::Right },
            ColumnIndex { index: 1, side: JoinSide::Right },
        ]
    );
    let (schema, _) = build_join_schema(&left, &right, JoinType::Inner);
    assert!(!schema.fields[1].nullable);
}

#[test]
fn keys_and_projections_refer_to_columns_that_exist() {
    let schema = Schema { fields: vec![field("c0", DataType::Int64, true)] };
    assert_eq!(check_join_is_valid(&schema, &schema, &vec![(col(0), col(0))]), Ok(()));
    assert_eq!(
        check_join_is_valid(&schema, &schema, &vec![(col(0), col(0)), (col(0), col(1))]),
        Err(JoinError::MissingJoinColumns)
    );
    assert_eq!(can_project(2, &None), Ok(()));
    assert_eq!(can_project(2, &Some(vec![1, 0, 1])), Ok(()));
    assert_eq!(
        can_project(2, &Some(vec![3, 1, 2])),
        Err(JoinError::ProjectionOutOfBounds { index: 3, fields: 2 })
    );
}
