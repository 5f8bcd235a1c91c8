//! As-of joins from plan to rows.
use asof_join::array::{Array, DataType, Scalar};
use asof_join::batch::{concat_or_empty, Field, RecordBatch, Schema};
use asof_join::condition::{AsOfJoinCondition, AsOfJoinDirection};
use asof_join::error::JoinError;
use asof_join::eval::{evaluate, evaluate_side, ColumnarValue, KeyColumns};
use asof_join::exec::{AsOfJoinExec, DisplayFormatType, StatisticsSource};
use asof_join::expr::{Column, Operator, PhysicalExpr, PhysicalExprRef};
use asof_join::join::{join_asof, join_asof_on_keys};
use asof_join::plan::{
    Boundedness, Distribution, EmissionType, PlanInput, Precision, Statistics,
};
use asof_join::sql;
use asof_join::stream::{AsOfJoinStreamState, CollectedInput, Event, Step};
use asof_join::types::{ColumnIndex, JoinSide, JoinType, NullEquality};
use std::sync::Arc;

fn column(name: &str, index: usize) -> Column {
    Column { name: name.to_string(), index }
}

fn col(name: &str, index: usize) -> PhysicalExprRef {
    Arc::new(PhysicalExpr::Column(column(name, index)))
}

fn field(name: &str, data_type: DataType, nullable: bool) -> Field {
    Field { name: name.to_string(), data_type, nullable }
}

fn ints(values: Vec<i64>) -> Array {
    Array::Int64(values.into_iter().map(Some).collect())
}

fn strings(values: Vec<&str>) -> Array {
    Array::Utf8(values.into_iter().map(|v| Some(v.to_string())).collect())
}

fn batch(fields: Vec<Field>, columns: Vec<Array>) -> RecordBatch {
    let num_rows = columns[0].len();
    RecordBatch::try_new(Arc::new(Schema { fields }), columns, num_rows).unwrap()
}

fn table(names: [&str; 3], cols: [Vec<Option<i64>>; 3]) -> RecordBatch {
    let fields = names.iter().map(|name| field(name, DataType::Int64, true)).collect();
    batch(fields, cols.into_iter().map(Array::Int64).collect())
}

fn input(schema: &Arc<Schema>) -> Arc<PlanInput> {
    partitioned_input(schema, 1)
}

fn partitioned_input(schema: &Arc<Schema>, partitions: usize) -> Arc<PlanInput> {
    Arc::new(PlanInput {
        schema: Arc::clone(schema),
        partitions,
        boundedness: Boundedness::Bounded,
        emission_type: EmissionType::Incremental,
        statistics: Ok(Statistics {
            num_rows: Precision::Absent,
            total_byte_size: Precision::Absent,
        }),
        ordered_columns: schema.fields.iter().map(|_| false).collect(),
        output_ordering: None,
    })
}

/// Evaluates columns and constants, and `t + 1` for any `t`.
fn value_of(expr: &PhysicalExpr, batch: &RecordBatch) -> Result<ColumnarValue, JoinError> {
    match expr {
        PhysicalExpr::Other { columns, sql } if *sql == format!("{} + 1", columns[0].name) => {
            match &batch.columns[columns[0].index] {
                Array::Int64(values) => Ok(ColumnarValue::Array(Array::Int64(
                    values.iter().map(|value| value.map(|value| value + 1)).collect(),
                ))),
                _ => Err(JoinError::Evaluation("not an integer".to_string())),
            }
        }
        _ => evaluate(expr, batch)
            .unwrap_or_else(|| Err(JoinError::Evaluation("cannot compute".to_string()))),
    }
}

fn key_columns(
    on: &Vec<(PhysicalExprRef, PhysicalExprRef)>,
    condition: &AsOfJoinCondition,
    side: JoinSide,
    batch: &RecordBatch,
) -> Result<KeyColumns, JoinError> {
    let value = |expr: PhysicalExprRef| value_of(&expr, batch);
    evaluate_side(on, condition, side, batch.num_rows, &value)
}

fn collected(join: &AsOfJoinExec, side: JoinSide, batches: Vec<RecordBatch>) -> Event {
    let schema = match side {
        JoinSide::Left => Arc::clone(&join.left().schema),
        _ => Arc::clone(&join.right().schema),
    };
    let whole = batches.iter().map(|batch| batch.slice(0, batch.num_rows)).collect();
    let whole = concat_or_empty(schema, whole).unwrap();
    let value = |expr: PhysicalExprRef| value_of(&expr, &whole);
    match join.execute(0, 10).unwrap().state {
        AsOfJoinStreamState::Loading { task, .. } => {
            Event::Collected(Ok(task.collect_input(side, batches, &value)))
        }
        other => panic!("a new stream is {other:?}"),
    }
}

fn run(
    join: &AsOfJoinExec,
    left: Vec<RecordBatch>,
    right: Vec<RecordBatch>,
    batch_size: usize,
) -> Result<Vec<RecordBatch>, JoinError> {
    run_partition(join, 0, left, right, batch_size)
}

fn run_partition(
    join: &AsOfJoinExec,
    partition: usize,
    left: Vec<RecordBatch>,
    right: Vec<RecordBatch>,
    batch_size: usize,
) -> Result<Vec<RecordBatch>, JoinError> {
    let mut stream = join.execute(partition, batch_size)?;
    assert_eq!(stream.poll_next(Event::Pending), Step::Pending);
    let left = collected(join, JoinSide::Left, left);
    assert_eq!(stream.poll_next(left), Step::CollectRight);
    let mut event = collected(join, JoinSide::Right, right);
    let mut output = vec![];
    loop {
        match stream.poll_next(event) {
            Step::Emit(batch) => output.push(batch),
            Step::Fail(error) => return Err(error),
            Step::End => return Ok(output),
            _ => panic!("the stream has both inputs"),
        }
        event = Event::Pending;
    }
}

fn int_rows(batches: &[RecordBatch]) -> Vec<Vec<Option<i64>>> {
    let mut rows = vec![];
    for batch in batches {
        for row in 0..batch.num_rows {
            let cells = batch.columns.iter().map(|column| match column {
                Array::Int64(values) => values[row],
                _ => panic!("not an integer column"),
            });
            rows.push(cells.collect());
        }
    }
    rows
}

fn keyed_join(
    left: &RecordBatch,
    right: &RecordBatch,
    op: Operator,
    join_type: JoinType,
    null_equality: NullEquality,
) -> AsOfJoinExec {
    AsOfJoinExec::try_new(
        input(&left.schema),
        input(&right.schema),
        vec![(col("l_sym", 0), col("r_sym", 0))],
        AsOfJoinCondition::try_new(col("l_t", 1), op, col("r_t", 1)).unwrap(),
        join_type,
        None,
        null_equality,
    )
    .unwrap()
}

#[test]
fn backward_left_asof_join_partitions_and_null_extends() {
    let left = table(
        ["l_sym", "l_t", "l_v"],
        [
            vec![Some(1), Some(1), Some(2), Some(2), Some(3)],
            vec![Some(10), Some(12), Some(5), Some(2), Some(7)],
            vec![Some(100), Some(120), Some(200), Some(220), Some(300)],
        ],
    );
    let right = table(
        ["r_sym", "r_t", "r_v"],
        [
            vec![Some(1), Some(1), Some(2), Some(2), Some(4)],
            vec![Some(9), Some(11), Some(3), Some(6), Some(1)],
            vec![Some(90), Some(110), Some(230), Some(260), Some(400)],
        ],
    );
    let join = keyed_join(
        &left,
        &right,
        Operator::GtEq,
        JoinType::Left,
        NullEquality::NullEqualsNothing,
    );
    let batches = run(&join, vec![left], vec![right], 8192).unwrap();
    let names: Vec<&str> = batches[0].schema.fields.iter().map(|f| f.name.as_str()).collect();
    assert_eq!(names, vec!["l_sym", "l_t", "l_v", "r_sym", "r_t", "r_v"]);
    assert_eq!(
        int_rows(&batches),
        vec![
            vec![Some(1), Some(10), Some(100), Some(1), Some(9), Some(90)],
            vec![Some(1), Some(12), Some(120), Some(1), Some(11), Some(110)],
            vec![Some(2), Some(2), Some(220), None, None, None],
            vec![Some(2), Some(5), Some(200), Some(2), Some(3), Some(230)],
            vec![Some(3), Some(7), Some(300), None, None, None],
        ]
    );
}

#[test]
fn forward_inner_asof_join_flips_sort_direction() {
    let left = table(
        ["l_sym", "l_t", "l_v"],
        [
            vec![Some(1), Some(1), Some(1)],
            vec![Some(10), Some(12), Some(15)],
            vec![Some(100), Some(120), Some(150)],
        ],
    );
    let right = table(
        ["r_sym", "r_t", "r_v"],
        [
            vec![Some(1), Some(1), Some(1)],
            vec![Some(9), Some(11), Some(20)],
            vec![Some(90), Some(110), Some(200)],
        ],
    );
    let join = keyed_join(
        &left,
        &right,
        Operator::LtEq,
        JoinType::Inner,
        NullEquality::NullEqualsNothing,
    );
    let batches = run(&join, vec![left], vec![right], 8192).unwrap();
    assert_eq!(
        int_rows(&batches),
        vec![
            vec![Some(1), Some(15), Some(150), Some(1), Some(20), Some(200)],
            vec![Some(1), Some(12), Some(120), Some(1), Some(20), Some(200)],
            vec![Some(1), Some(10), Some(100), Some(1), Some(11), Some(110)],
        ]
    );
}

fn null_tables() -> (RecordBatch, RecordBatch) {
    let left = table(
        ["l_sym", "l_t", "l_v"],
        [
            vec![None, Some(1), Some(1)],
            vec![Some(5), None, Some(10)],
            vec![Some(50), Some(100), Some(110)],
        ],
    );
    let right = table(
        ["r_sym", "r_t", "r_v"],
        [
            vec![None, Some(1), Some(1)],
            vec![Some(4), Some(9), None],
            vec![Some(40), Some(90), Some(999)],
        ],
    );
    (left, right)
}

#[test]
fn null_keys_do_not_match_for_default_null_equality() {
    let (left, right) = null_tables();
    let join = keyed_join(
        &left,
        &right,
        Operator::GtEq,
        JoinType::Left,
        NullEquality::NullEqualsNothing,
    );
    let batches = run(&join, vec![left], vec![right], 8192).unwrap();
    assert_eq!(
        int_rows(&batches),
        vec![
            vec![Some(1), Some(10), Some(110), Some(1), Some(9), Some(90)],
            vec![Some(1), None, Some(100), None, None, None],
            vec![None, Some(5), Some(50), None, None, None],
        ]
    );
}

#[test]
fn null_keys_match_where_nulls_are_equal() {
    let (left, right) = null_tables();
    let join = keyed_join(
        &left,
        &right,
        Operator::GtEq,
        JoinType::Left,
        NullEquality::NullEqualsNull,
    );
    let batches = run(&join, vec![left], vec![right], 8192).unwrap();
    assert_eq!(
        int_rows(&batches),
        vec![
            vec![Some(1), Some(10), Some(110), Some(1), Some(9), Some(90)],
            vec![Some(1), None, Some(100), None, None, None],
            vec![None, Some(5), Some(50), None, Some(4), Some(40)],
        ]
    );
}

fn market_fields(last: &str) -> Vec<Field> {
    vec![
        field("symbol", DataType::Utf8, false),
        field("t", DataType::Int64, false),
        field(last, DataType::Int64, false),
    ]
}

fn trades_batch() -> RecordBatch {
    batch(
        market_fields("price"),
        vec![
            strings(vec!["AAPL", "AAPL", "MSFT"]),
            ints(vec![10, 20, 10]),
            ints(vec![100, 200, 50]),
        ],
    )
}

fn quotes_batch() -> RecordBatch {
    batch(
        market_fields("bid"),
        vec![
            strings(vec!["AAPL", "AAPL", "AAPL", "MSFT"]),
            ints(vec![5, 15, 25, 5]),
            ints(vec![1, 2, 3, 9]),
        ],
    )
}

fn column_ref(name: &str, in_left: bool) -> Arc<sql::Expr> {
    Arc::new(sql::Expr::Column(sql::ColumnRef {
        name: name.to_string(),
        in_left,
        in_right: !in_left,
    }))
}

fn comparison(left: Arc<sql::Expr>, op: Operator, right: Arc<sql::Expr>) -> Arc<sql::Expr> {
    Arc::new(sql::Expr::Binary { left, op, right })
}

/// Plans `quotes q ASOF JOIN trades tr MATCH_CONDITION (q.t >= tr.t)
/// ON q.symbol = tr.symbol`.
fn asof_query() -> sql::JoinPlan {
    let join = sql::Join {
        relation: sql::TableFactor::Other,
        join_operator: sql::JoinOperator::AsOf {
            match_condition: Ok(comparison(
                column_ref("q.t", true),
                Operator::GtEq,
                column_ref("tr.t", false),
            )),
            constraint: sql::JoinConstraint::On(Ok(comparison(
                column_ref("q.symbol", true),
                Operator::Eq,
                column_ref("tr.symbol", false),
            ))),
        },
    };
    let names = |last: &str| vec!["symbol".to_string(), "t".to_string(), last.to_string()];
    sql::parse_relation_join(&names("bid"), Ok(names("price")), join).unwrap()
}

fn asof_query_join(quotes: &Arc<Schema>, trades: &Arc<Schema>) -> AsOfJoinExec {
    asof_query_join_of(input(quotes), input(trades))
}

/// The physical join of the query, with `q.symbol, q.t, tr.t, tr.price` selected.
fn asof_query_join_of(quotes: Arc<PlanInput>, trades: Arc<PlanInput>) -> AsOfJoinExec {
    let (join_type, null_equality) = match asof_query() {
        sql::JoinPlan::AsOf { on, join_type, null_equality, .. } => {
            assert_eq!(
                on,
                vec![(column_ref("q.symbol", true), column_ref("tr.symbol", false))]
            );
            (join_type, null_equality)
        }
        other => panic!("planned as {other:?}"),
    };
    AsOfJoinExec::try_new(
        quotes,
        trades,
        vec![(col("symbol", 0), col("symbol", 0))],
        AsOfJoinCondition::try_new(col("t", 1), Operator::GtEq, col("t", 1)).unwrap(),
        join_type,
        Some(vec![0, 1, 4, 5]),
        null_equality,
    )
    .unwrap()
}

fn nearest_trades() -> Vec<Array> {
    vec![
        strings(vec!["AAPL", "AAPL", "AAPL", "MSFT"]),
        ints(vec![5, 15, 25, 5]),
        Array::Int64(vec![None, Some(10), Some(20), None]),
        Array::Int64(vec![None, Some(100), Some(200), None]),
    ]
}

#[test]
fn asof_join_nearest_earlier_trade() {
    let (quotes, trades) = (quotes_batch(), trades_batch());
    let join = asof_query_join(&quotes.schema, &trades.schema);
    let batches = run(&join, vec![quotes], vec![trades], 8192).unwrap();
    assert_eq!(batches.len(), 1);
    assert_eq!(batches[0].columns, nearest_trades());
    assert_eq!(
        batches[0].schema.fields,
        vec![
            field("symbol", DataType::Utf8, false),
            field("t", DataType::Int64, false),
            field("t", DataType::Int64, true),
            field("price", DataType::Int64, true),
        ]
    );
}

#[test]
fn asof_join_uses_physical_operator() {
    let join = asof_query_join(&quotes_batch().schema, &trades_batch().schema);
    let displayed = join.fmt_as(DisplayFormatType::Verbose);
    assert!(displayed.contains("AsOfJoinExec"));
    assert_eq!(join.name(), "AsOfJoinExec");
}

#[test]
fn asof_join_sorts_internally_when_disabled() {
    let (quotes, trades) = (quotes_batch(), trades_batch());
    let join = asof_query_join(&quotes.schema, &trades.schema);
    assert_eq!(join.maintains_input_order(), vec![false, false]);
    let batches = run(&join, vec![quotes], vec![trades], 8192).unwrap();
    assert_eq!(batches[0].columns, nearest_trades());
}

fn split_trades() -> Vec<RecordBatch> {
    vec![
        batch(
            market_fields("price"),
            vec![strings(vec!["AAPL"]), ints(vec![10]), ints(vec![100])],
        ),
        batch(
            market_fields("price"),
            vec![strings(vec!["AAPL", "MSFT"]), ints(vec![20, 10]), ints(vec![200, 50])],
        ),
    ]
}

fn split_quotes() -> Vec<RecordBatch> {
    vec![
        batch(
            market_fields("bid"),
            vec![strings(vec!["AAPL", "AAPL"]), ints(vec![5, 25]), ints(vec![1, 3])],
        ),
        batch(
            market_fields("bid"),
            vec![strings(vec!["AAPL", "MSFT"]), ints(vec![15, 5]), ints(vec![2, 9])],
        ),
    ]
}

#[test]
fn rows_split_over_batches_join_like_one_batch() {
    let join = asof_query_join(&quotes_batch().schema, &trades_batch().schema);
    let batches = run(&join, split_quotes(), split_trades(), 8192).unwrap();
    assert_eq!(batches[0].columns, nearest_trades());
}

/// The rows of some batches whose symbol goes to a partition, in batches of one row.
fn repartition(batches: Vec<RecordBatch>, partition: usize) -> Vec<RecordBatch> {
    let mut rows = vec![];
    for batch in batches {
        for row in 0..batch.num_rows {
            let goes_to = match &batch.columns[0] {
                Array::Utf8(symbols) => symbols[row]
                    .as_ref()
                    .map_or(0, |symbol| symbol.as_bytes()[1] as usize % 4),
                _ => 0,
            };
            if goes_to == partition {
                rows.push(batch.slice(row, 1));
            }
        }
    }
    rows
}

#[test]
fn asof_join_runs_partitioned_by_equality_keys() {
    let join = asof_query_join_of(
        partitioned_input(&quotes_batch().schema, 4),
        partitioned_input(&trades_batch().schema, 4),
    );
    assert!(join.fmt_as(DisplayFormatType::Verbose).contains("AsOfJoinExec"));
    assert_eq!(
        join.required_input_distribution(),
        vec![
            Distribution::HashPartitioned(vec![col("symbol", 0)]),
            Distribution::HashPartitioned(vec![col("symbol", 0)]),
        ]
    );
    assert_eq!(join.properties().partitions, 4);
    let mut batches = vec![];
    let mut used = vec![];
    for partition in 0..4 {
        let quotes = repartition(split_quotes(), partition);
        let trades = repartition(split_trades(), partition);
        if !quotes.is_empty() {
            used.push(partition);
        }
        batches.extend(run_partition(&join, partition, quotes, trades, 8192).unwrap());
    }
    assert_eq!(used.len(), 2);
    let schema = join.schema();
    let joined = concat_or_empty(Arc::clone(&schema), batches).unwrap();
    let mut rows: Vec<String> =
        (0..joined.num_rows).map(|row| format!("{:?}", joined.slice(row, 1).columns)).collect();
    rows.sort();
    let whole = RecordBatch::try_new(schema, nearest_trades(), 4).unwrap();
    let mut expected: Vec<String> =
        (0..4).map(|row| format!("{:?}", whole.slice(row, 1).columns)).collect();
    expected.sort();
    assert_eq!(rows, expected);
}

#[test]
fn partitions_follow_the_inputs() {
    let (quotes, trades) = (quotes_batch().schema, trades_batch().schema);
    let partitions = |on: Vec<(PhysicalExprRef, PhysicalExprRef)>, left: usize, right: usize| {
        AsOfJoinExec::try_new(
            partitioned_input(&quotes, left),
            partitioned_input(&trades, right),
            on,
            AsOfJoinCondition::try_new(col("t", 1), Operator::GtEq, col("t", 1)).unwrap(),
            JoinType::Left,
            None,
            NullEquality::NullEqualsNothing,
        )
        .unwrap()
    };
    let on = || vec![(col("symbol", 0), col("symbol", 0))];
    let keyed = partitions(on(), 3, 3);
    assert_eq!(keyed.properties().partitions, 3);
    assert!(keyed.execute(2, 10).is_ok());
    assert_eq!(keyed.execute(3, 10).unwrap_err(), JoinError::InvalidPartition(3));
    let uneven = partitions(on(), 3, 2);
    assert_eq!(uneven.properties().partitions, 1);
    assert!(uneven.execute(0, 10).is_ok());
    assert_eq!(uneven.execute(1, 10).unwrap_err(), JoinError::InvalidPartition(1));
    assert_eq!(partitions(on(), 0, 0).properties().partitions, 1);
    let unkeyed = partitions(vec![], 3, 2);
    assert_eq!(unkeyed.properties().partitions, 1);
    assert_eq!(
        unkeyed.required_input_distribution(),
        vec![Distribution::SinglePartition, Distribution::SinglePartition]
    );
    assert_eq!(unkeyed.execute(1, 10).unwrap_err(), JoinError::InvalidPartition(1));
}

#[test]
fn the_order_in_which_rows_arrive_does_not_matter() {
    let left = |rows: [usize; 4]| {
        let (keys, times) = ([2, 1, 1, 2], [4, 9, 5, 8]);
        table(
            ["l_sym", "l_t", "l_v"],
            [
                rows.iter().map(|row| Some(keys[*row])).collect(),
                rows.iter().map(|row| Some(times[*row])).collect(),
                rows.iter().map(|row| Some(*row as i64)).collect(),
            ],
        )
    };
    let right = |rows: [usize; 3]| {
        let (keys, times) = ([1, 2, 1], [4, 8, 6]);
        table(
            ["r_sym", "r_t", "r_v"],
            [
                rows.iter().map(|row| Some(keys[*row])).collect(),
                rows.iter().map(|row| Some(times[*row])).collect(),
                rows.iter().map(|row| Some(*row as i64)).collect(),
            ],
        )
    };
    let joined = |left: RecordBatch, right: RecordBatch| {
        let join = keyed_join(
            &left,
            &right,
            Operator::GtEq,
            JoinType::Left,
            NullEquality::NullEqualsNothing,
        );
        let mut rows = int_rows(&run(&join, vec![left], vec![right], 10).unwrap());
        rows.sort();
        rows
    };
    let expected = joined(left([0, 1, 2, 3]), right([0, 1, 2]));
    assert_eq!(expected.len(), 4);
    assert_eq!(expected[1], vec![Some(1), Some(9), Some(1), Some(1), Some(6), Some(2)]);
    assert_eq!(joined(left([3, 1, 0, 2]), right([2, 0, 1])), expected);
    assert_eq!(joined(left([1, 0, 2, 3]), right([1, 2, 0])), expected);
}

fn plus_one(name: &str, index: usize) -> PhysicalExprRef {
    Arc::new(PhysicalExpr::Other {
        columns: vec![column(name, index)],
        sql: format!("{name} + 1"),
    })
}

#[test]
fn computed_keys_are_joined() {
    let left = table(
        ["l_sym", "l_t", "l_v"],
        [vec![Some(1), Some(2)], vec![Some(10), Some(10)], vec![Some(100), Some(200)]],
    );
    let right = table(
        ["r_sym", "r_t", "r_v"],
        [
            vec![Some(2), Some(2), Some(1)],
            vec![Some(9), Some(10), Some(9)],
            vec![Some(90), Some(95), Some(80)],
        ],
    );
    let join = AsOfJoinExec::try_new(
        input(&left.schema),
        input(&right.schema),
        vec![(plus_one("l_sym", 0), col("r_sym", 0))],
        AsOfJoinCondition::try_new(col("l_t", 1), Operator::GtEq, plus_one("r_t", 1)).unwrap(),
        JoinType::Left,
        None,
        NullEquality::NullEqualsNothing,
    )
    .unwrap();
    let rows = int_rows(&run(&join, vec![left], vec![right], 10).unwrap());
    assert_eq!(
        rows,
        vec![
            vec![Some(1), Some(10), Some(100), Some(2), Some(9), Some(90)],
            vec![Some(2), Some(10), Some(200), None, None, None],
        ]
    );
}

#[test]
fn inputs_are_collected_with_the_keys_of_their_side() {
    let (quotes, trades) = (quotes_batch(), trades_batch());
    let join = asof_query_join(&quotes.schema, &trades.schema);
    let keys_of = |side: JoinSide, batches: Vec<RecordBatch>| {
        match collected(&join, side, batches) {
            Event::Collected(Ok(input)) => input.keys.unwrap(),
            other => panic!("collected {other:?}"),
        }
    };
    assert_eq!(
        keys_of(JoinSide::Left, split_quotes()),
        KeyColumns {
            on: vec![strings(vec!["AAPL", "AAPL", "AAPL", "MSFT"])],
            asof: ints(vec![5, 25, 15, 5]),
        }
    );
    assert_eq!(
        keys_of(JoinSide::Right, split_trades()),
        KeyColumns {
            on: vec![strings(vec!["AAPL", "AAPL", "MSFT"])],
            asof: ints(vec![10, 20, 10]),
        }
    );
}

#[test]
fn key_columns_can_be_given_apart_from_the_rows() {
    let left = one_column(vec![70, 71, 72]);
    let right = one_column(vec![80, 81]);
    let output = join_asof_on_keys(
        left,
        right,
        vec![strings(vec!["b", "a", "a"])],
        ints(vec![5, 5, 9]),
        vec![strings(vec!["a", "b"])],
        ints(vec![9, 5]),
        Arc::new(Schema {
            fields: vec![field("l", DataType::Int64, true), field("r", DataType::Int64, true)],
        }),
        vec![
            ColumnIndex { index: 0, side: JoinSide::Left },
            ColumnIndex { index: 0, side: JoinSide::Right },
        ],
        AsOfJoinDirection::Forward,
        true,
        JoinType::Left,
        NullEquality::NullEqualsNothing,
    )
    .unwrap();
    assert_eq!(
        int_rows(&[output]),
        vec![vec![Some(72), None], vec![Some(71), Some(80)], vec![Some(70), None]]
    );
}

#[test]
fn keys_that_fail_to_evaluate_fail_the_join() {
    let (quotes, trades) = (quotes_batch(), trades_batch());
    let failing = |sql: &str| -> PhysicalExprRef {
        Arc::new(PhysicalExpr::Other { columns: vec![column("t", 1)], sql: sql.to_string() })
    };
    let make = |on: PhysicalExprRef, left: PhysicalExprRef, right: PhysicalExprRef| {
        AsOfJoinExec::try_new(
            input(&quotes.schema),
            input(&trades.schema),
            vec![(on, col("symbol", 0))],
            AsOfJoinCondition::try_new(left, Operator::GtEq, right).unwrap(),
            JoinType::Left,
            None,
            NullEquality::NullEqualsNothing,
        )
        .unwrap()
    };
    let fails = |join: AsOfJoinExec| {
        run(&join, vec![quotes_batch()], vec![trades_batch()], 10).unwrap_err()
    };
    let cannot = || JoinError::Evaluation("cannot compute".to_string());
    assert_eq!(fails(make(col("symbol", 0), col("t", 1), failing("t!"))), cannot());
    assert_eq!(fails(make(col("symbol", 0), failing("t!"), col("t", 1))), cannot());
    assert_eq!(
        fails(make(plus_one("symbol", 0), failing("t!"), col("t", 1))),
        JoinError::Evaluation("not an integer".to_string())
    );
    let both = make(col("symbol", 0), col("x", 7), failing("t!"));
    assert_eq!(fails(both), JoinError::UnknownColumn(7));
}

#[test]
fn parts_of_the_key_space_join_independently() {
    let part = |symbol: &str| {
        let pick = |source: RecordBatch| {
            let keep: Vec<usize> = match &source.columns[0] {
                Array::Utf8(symbols) => (0..source.num_rows)
                    .filter(|row| symbols[*row].as_deref() == Some(symbol))
                    .collect(),
                _ => vec![],
            };
            source.slice(keep[0], keep.len())
        };
        let (quotes, trades) = (pick(quotes_batch()), pick(trades_batch()));
        let join = asof_query_join(&quotes.schema, &trades.schema);
        run(&join, vec![quotes], vec![trades], 8192).unwrap().remove(0)
    };
    let (apple, microsoft) = (part("AAPL"), part("MSFT"));
    let (quotes, trades) = (quotes_batch(), trades_batch());
    let join = asof_query_join(&quotes.schema, &trades.schema);
    let whole = run(&join, vec![quotes], vec![trades], 8192).unwrap().remove(0);
    assert_eq!(whole.slice(0, 3).columns, apple.columns);
    assert_eq!(whole.slice(3, 1).columns, microsoft.columns);
}

fn unkeyed(left: Array, right: Array, op: Operator, join_type: JoinType) -> (Array, Array) {
    let left = batch(vec![field("l", left.data_type(), true)], vec![left]);
    let right = batch(vec![field("r", right.data_type(), true)], vec![right]);
    let join = AsOfJoinExec::try_new(
        input(&left.schema),
        input(&right.schema),
        vec![],
        AsOfJoinCondition::try_new(col("l", 0), op, col("r", 0)).unwrap(),
        join_type,
        None,
        NullEquality::NullEqualsNothing,
    )
    .unwrap();
    let mut batches = run(&join, vec![left], vec![right], 8192).unwrap();
    assert_eq!(batches.len(), 1);
    let mut columns = batches.remove(0).columns;
    let right = columns.pop().unwrap();
    (columns.pop().unwrap(), right)
}

#[test]
fn every_inequality_finds_its_nearest_row() {
    let left = || ints(vec![20]);
    let right = || ints(vec![30, 10, 20]);
    let nearest = |op: Operator| unkeyed(left(), right(), op, JoinType::Inner).1;
    assert_eq!(nearest(Operator::GtEq), ints(vec![20]));
    assert_eq!(nearest(Operator::Gt), ints(vec![10]));
    assert_eq!(nearest(Operator::LtEq), ints(vec![20]));
    assert_eq!(nearest(Operator::Lt), ints(vec![30]));
}

#[test]
fn text_keys_compare_by_code_points() {
    let left = strings(vec!["b", "é", "", "zz"]);
    let right = strings(vec!["a", "zz", "ê"]);
    let (l, r) = unkeyed(left, right, Operator::Gt, JoinType::Left);
    assert_eq!(l, strings(vec!["", "b", "zz", "é"]));
    let found = |text: &str| Some(text.to_string());
    assert_eq!(r, Array::Utf8(vec![None, found("a"), found("a"), found("zz")]));
}

#[test]
fn unsigned_and_boolean_keys_compare_by_value() {
    let left = Array::UInt64(vec![Some(u64::MAX), Some(0), Some(7)]);
    let right = Array::UInt64(vec![Some(u64::MAX - 1), Some(3), None]);
    let (l, r) = unkeyed(left, right, Operator::GtEq, JoinType::Left);
    assert_eq!(l, Array::UInt64(vec![Some(0), Some(7), Some(u64::MAX)]));
    assert_eq!(r, Array::UInt64(vec![None, Some(3), Some(u64::MAX - 1)]));

    let left = Array::Boolean(vec![Some(true), Some(false), None]);
    let right = Array::Boolean(vec![Some(false)]);
    let (l, r) = unkeyed(left, right, Operator::Gt, JoinType::Left);
    assert_eq!(l, Array::Boolean(vec![Some(false), Some(true), None]));
    assert_eq!(r, Array::Boolean(vec![None, Some(false), None]));
}

#[test]
fn negative_keys_compare_by_value() {
    let left = ints(vec![-1, i64::MIN, 1]);
    let right = ints(vec![-2, i64::MIN, 0]);
    let (l, r) = unkeyed(left, right, Operator::GtEq, JoinType::Inner);
    assert_eq!(l, ints(vec![i64::MIN, -1, 1]));
    assert_eq!(r, ints(vec![i64::MIN, -2, 0]));
}

#[test]
fn inner_join_is_left_join_without_unmatched_rows() {
    let left = || ints(vec![5, 15, 25, 1]);
    let right = || ints(vec![10, 20, 5]);
    let (l, r) = unkeyed(left(), right(), Operator::Gt, JoinType::Left);
    assert_eq!(l, ints(vec![1, 5, 15, 25]));
    assert_eq!(r, Array::Int64(vec![None, None, Some(10), Some(20)]));
    let (l, r) = unkeyed(left(), right(), Operator::Gt, JoinType::Inner);
    assert_eq!(l, ints(vec![15, 25]));
    assert_eq!(r, ints(vec![10, 20]));
}

#[test]
fn empty_inputs_join_to_nothing_or_nulls() {
    let schema = |name: &str| Arc::new(Schema { fields: vec![field(name, DataType::Int64, true)] });
    let join = |join_type: JoinType| {
        AsOfJoinExec::try_new(
            input(&schema("l")),
            input(&schema("r")),
            vec![],
            AsOfJoinCondition::try_new(col("l", 0), Operator::GtEq, col("r", 0)).unwrap(),
            join_type,
            None,
            NullEquality::NullEqualsNothing,
        )
        .unwrap()
    };
    let one = || {
        let columns = vec![ints(vec![4])];
        RecordBatch::try_new(schema("l"), columns, 1).unwrap()
    };
    assert_eq!(run(&join(JoinType::Left), vec![], vec![], 10), Ok(vec![]));
    assert_eq!(run(&join(JoinType::Inner), vec![one()], vec![], 10), Ok(vec![]));
    let batches = run(&join(JoinType::Left), vec![one()], vec![], 10).unwrap();
    assert_eq!(int_rows(&batches), vec![vec![Some(4), None]]);
}

#[test]
fn constants_can_be_keys() {
    let left = batch(vec![field("t", DataType::Int64, false)], vec![ints(vec![1, 9])]);
    let right = batch(vec![field("t", DataType::Int64, false)], vec![ints(vec![3, 8])]);
    let five = Arc::new(PhysicalExpr::Literal {
        value: Scalar::Int64(Some(5)),
        sql: "5".to_string(),
    });
    let join = AsOfJoinExec::try_new(
        input(&left.schema),
        input(&right.schema),
        vec![],
        AsOfJoinCondition::try_new(five, Operator::GtEq, col("t", 0)).unwrap(),
        JoinType::Inner,
        None,
        NullEquality::NullEqualsNothing,
    )
    .unwrap();
    let batches = run(&join, vec![left], vec![right], 10).unwrap();
    let mut rows = int_rows(&batches);
    rows.sort();
    assert_eq!(rows, vec![vec![Some(1), Some(3)], vec![Some(9), Some(3)]]);
}

#[test]
fn joined_rows_come_in_batches_of_the_asked_size() {
    let left = table(
        ["l_sym", "l_t", "l_v"],
        [
            (0..7).map(|_| Some(1)).collect(),
            (0..7).map(Some).collect(),
            (0..7).map(Some).collect(),
        ],
    );
    let right = table(["r_sym", "r_t", "r_v"], [vec![Some(1)], vec![Some(3)], vec![Some(0)]]);
    let join = keyed_join(
        &left,
        &right,
        Operator::GtEq,
        JoinType::Left,
        NullEquality::NullEqualsNothing,
    );
    let whole = run(&join, vec![left.slice(0, 7)], vec![right.slice(0, 1)], 100).unwrap();
    assert_eq!(whole.len(), 1);
    let batches = run(&join, vec![left], vec![right], 3).unwrap();
    let sizes: Vec<usize> = batches.iter().map(|batch| batch.num_rows).collect();
    assert_eq!(sizes, vec![3, 3, 1]);
    assert_eq!(int_rows(&batches), int_rows(&whole));
}

#[test]
fn a_failed_input_ends_the_stream() {
    let (quotes, trades) = (quotes_batch(), trades_batch());
    let join = asof_query_join(&quotes.schema, &trades.schema);
    let mut stream = join.execute(0, 10).unwrap();
    assert_eq!(*stream.schema(), *join.schema());
    let failed = Event::Collected(Err(JoinError::Arrow));
    assert_eq!(stream.poll_next(failed), Step::Fail(JoinError::Arrow));
    assert_eq!(stream.state, AsOfJoinStreamState::Done);
    assert_eq!(stream.poll_next(collected(&join, JoinSide::Left, vec![])), Step::End);

    let mut stream = join.execute(0, 10).unwrap();
    let quotes = collected(&join, JoinSide::Left, vec![quotes]);
    assert_eq!(stream.poll_next(quotes), Step::CollectRight);
    let lost = || JoinError::Statistics("lost".to_string());
    assert_eq!(stream.poll_next(Event::Collected(Err(lost()))), Step::Fail(lost()));
    assert_eq!(stream.poll_next(Event::Pending), Step::End);
}

#[test]
fn batches_of_other_types_are_refused() {
    let (quotes, trades) = (quotes_batch(), trades_batch());
    let join = asof_query_join(&quotes.schema, &trades.schema);
    let other = table(["symbol", "t", "bid"], [vec![Some(1)], vec![Some(1)], vec![Some(1)]]);
    let mut stream = join.execute(0, 10).unwrap();
    let mixed = CollectedInput {
        batches: vec![quotes, other],
        keys: Err(JoinError::InvalidRecordBatch),
    };
    assert_eq!(
        stream.poll_next(Event::Collected(Ok(mixed))),
        Step::Fail(JoinError::InvalidRecordBatch)
    );
}

fn direct(
    left: RecordBatch,
    right: RecordBatch,
    condition: AsOfJoinCondition,
    fields: Vec<Field>,
) -> Result<RecordBatch, JoinError> {
    let left_keys = key_columns(&vec![], &condition, JoinSide::Left, &left);
    let right_keys = key_columns(&vec![], &condition, JoinSide::Right, &right);
    join_asof(
        left,
        right,
        left_keys,
        right_keys,
        Arc::new(Schema { fields }),
        vec![
            ColumnIndex { index: 0, side: JoinSide::Right },
            ColumnIndex { index: 0, side: JoinSide::Left },
            ColumnIndex { index: 0, side: JoinSide::Neither },
        ],
        condition,
        JoinType::Left,
        NullEquality::NullEqualsNothing,
    )
}

fn one_column(values: Vec<i64>) -> RecordBatch {
    batch(vec![field("t", DataType::Int64, false)], vec![ints(values)])
}

#[test]
fn columns_are_put_where_the_schema_wants_them() {
    let condition = || AsOfJoinCondition::try_new(col("t", 0), Operator::Gt, col("t", 0)).unwrap();
    let fields = |nullable: bool| {
        vec![
            field("right", DataType::Int64, nullable),
            field("left", DataType::Int64, false),
            field("matched", DataType::Boolean, false),
        ]
    };
    let output =
        direct(one_column(vec![9, 2]), one_column(vec![4, 3]), condition(), fields(true)).unwrap();
    assert_eq!(
        output.columns,
        vec![
            Array::Int64(vec![None, Some(4)]),
            ints(vec![2, 9]),
            Array::Boolean(vec![Some(false), Some(true)]),
        ]
    );
    assert_eq!(
        direct(one_column(vec![9, 2]), one_column(vec![4, 3]), condition(), fields(false)),
        Err(JoinError::InvalidRecordBatch)
    );
    let rows_alone = direct(one_column(vec![9, 2]), one_column(vec![4]), condition(), vec![]);
    assert_eq!(rows_alone.unwrap().num_rows, 2);
}

#[test]
fn inputs_that_cannot_be_joined_are_refused() {
    let fields = || vec![field("t", DataType::Int64, true)];
    let on_column = |index: usize| {
        AsOfJoinCondition::try_new(col("t", index), Operator::Gt, col("t", 0)).unwrap()
    };
    let missing = direct(one_column(vec![1]), one_column(vec![1]), on_column(3), fields());
    assert_eq!(missing, Err(JoinError::UnknownColumn(3)));

    let sum = Arc::new(PhysicalExpr::Other {
        columns: vec![column("t", 0)],
        sql: "t + 2".to_string(),
    });
    let computed = AsOfJoinCondition::try_new(col("t", 0), Operator::Gt, sum).unwrap();
    let refused = direct(one_column(vec![1]), one_column(vec![1]), computed, fields());
    assert_eq!(refused, Err(JoinError::Evaluation("cannot compute".to_string())));

    let huge = RecordBatch::try_new(
        Arc::new(Schema { fields: vec![] }),
        vec![],
        u32::MAX as usize + 1,
    )
    .unwrap();
    let rows = huge.num_rows;
    let too_many = join_asof(
        one_column(vec![1]),
        huge,
        Err(JoinError::Arrow),
        Err(JoinError::Evaluation(format!("{rows} rows"))),
        Arc::new(Schema { fields: vec![] }),
        vec![],
        on_column(0),
        JoinType::Left,
        NullEquality::NullEqualsNothing,
    );
    assert_eq!(too_many, Err(JoinError::TooManyRightRows));
}

#[test]
fn plans_that_cannot_be_made_are_refused() {
    let (quotes, trades) = (quotes_batch(), trades_batch());
    let make = |on: Vec<(PhysicalExprRef, PhysicalExprRef)>,
                join_type: JoinType,
                projection: Option<Vec<usize>>| {
        AsOfJoinExec::try_new(
            input(&quotes.schema),
            input(&trades.schema),
            on,
            AsOfJoinCondition::try_new(col("t", 1), Operator::GtEq, col("t", 1)).unwrap(),
            join_type,
            projection,
            NullEquality::NullEqualsNothing,
        )
    };
    let full = make(vec![], JoinType::Full, None);
    assert_eq!(full.unwrap_err(), JoinError::UnsupportedJoinType(JoinType::Full));
    let misnamed = make(vec![(col("symbol", 0), col("sym", 0))], JoinType::Left, None);
    assert_eq!(misnamed.unwrap_err(), JoinError::MissingJoinColumns);
    let nested = Arc::new(PhysicalExpr::Binary {
        left: col("t", 1),
        op: Operator::Other,
        right: Arc::new(PhysicalExpr::Other {
            columns: vec![column("bid", 5)],
            sql: "abs(bid)".to_string(),
        }),
        sql: "t + abs(bid)".to_string(),
    });
    let out_of_range = make(vec![(nested, col("symbol", 0))], JoinType::Inner, None);
    assert_eq!(out_of_range.unwrap_err(), JoinError::MissingJoinColumns);
    let projected = make(vec![], JoinType::Left, Some(vec![1, 9, 6]));
    assert_eq!(
        projected.unwrap_err(),
        JoinError::ProjectionOutOfBounds { index: 9, fields: 6 }
    );
    assert!(make(vec![], JoinType::Left, Some(vec![])).is_ok());
}

#[test]
fn a_plan_answers_for_its_parts() {
    let (quotes, trades) = (quotes_batch(), trades_batch());
    let join = asof_query_join(&quotes.schema, &trades.schema);
    assert_eq!(*join.left(), input(&quotes.schema));
    assert_eq!(*join.right(), input(&trades.schema));
    assert_eq!(join.children(), vec![input(&quotes.schema), input(&trades.schema)]);
    assert_eq!(*join.on(), vec![(col("symbol", 0), col("symbol", 0))]);
    assert_eq!(join.asof_condition().left, col("t", 1));
    assert_eq!(*join.join_type(), JoinType::Left);
    assert_eq!(join.null_equality(), NullEquality::NullEqualsNothing);
    assert!(join.contains_projection());
    assert_eq!(join.properties().partitions, 1);
    assert_eq!(join.properties().emission_type, EmissionType::Final);
    assert_eq!(join.properties().boundedness, Boundedness::Bounded);
    assert_eq!(
        join.required_input_distribution(),
        vec![
            Distribution::HashPartitioned(vec![col("symbol", 0)]),
            Distribution::HashPartitioned(vec![col("symbol", 0)]),
        ]
    );
    assert_eq!(join.execute(3, 10).unwrap_err(), JoinError::InvalidPartition(3));
}

#[test]
fn new_children_take_the_place_of_the_old() {
    let (quotes, trades) = (quotes_batch(), trades_batch());
    let join = asof_query_join(&quotes.schema, &trades.schema);
    let exchanged = join.with_new_children(vec![input(&trades.schema), input(&quotes.schema)]);
    let exchanged = exchanged.unwrap();
    assert_eq!(*exchanged.left(), input(&trades.schema));
    assert_eq!(exchanged.projection, Some(vec![0, 1, 4, 5]));
    let narrow = Arc::new(Schema { fields: vec![field("symbol", DataType::Utf8, false)] });
    let narrowed = join.with_new_children(vec![input(&narrow), input(&narrow)]);
    assert_eq!(
        narrowed.unwrap_err(),
        JoinError::ProjectionOutOfBounds { index: 5, fields: 2 }
    );
}

#[test]
fn projections_are_applied_one_after_the_other() {
    let (quotes, trades) = (quotes_batch(), trades_batch());
    let join = asof_query_join(&quotes.schema, &trades.schema);
    let narrowed = join.with_projection(Some(vec![3, 0])).unwrap();
    assert_eq!(narrowed.projection, Some(vec![5, 0]));
    let batches = run(&narrowed, vec![quotes], vec![trades], 10).unwrap();
    assert_eq!(
        batches[0].columns,
        vec![nearest_trades().remove(3), nearest_trades().remove(0)]
    );
    assert_eq!(
        join.with_projection(Some(vec![4])).unwrap_err(),
        JoinError::ProjectionOutOfBounds { index: 4, fields: 4 }
    );
    let all = join.with_projection(None).unwrap();
    assert_eq!(all.projection, None);
    assert_eq!(all.schema().fields.len(), 6);
}

#[test]
fn a_projection_is_embedded_once() {
    let (quotes, trades) = (quotes_batch(), trades_batch());
    let join = asof_query_join(&quotes.schema, &trades.schema);
    assert_eq!(join.try_swapping_with_projection(Some(vec![0])), Ok(None));
    let all = join.with_projection(None).unwrap();
    assert_eq!(all.try_swapping_with_projection(None), Ok(None));
    let embedded = all.try_swapping_with_projection(Some(vec![2, 1])).unwrap().unwrap();
    assert_eq!(embedded.projection, Some(vec![2, 1]));
    assert!(all.try_swapping_with_projection(Some(vec![6])).is_err());
}

#[test]
fn plans_are_displayed() {
    let (quotes, trades) = (quotes_batch(), trades_batch());
    let join = asof_query_join(&quotes.schema, &trades.schema);
    assert_eq!(
        join.fmt_as(DisplayFormatType::Default),
        "AsOfJoinExec: join_type=Left, on=[(symbol, symbol)], asof=t >= t, \
         projection=[symbol@0, t@1, t@4, price@5]"
    );
    assert_eq!(join.fmt_as(DisplayFormatType::TreeRender), "join_type=Left\n");
    let wide = Arc::new(Schema {
        fields: (0..12).map(|i| field(&format!("c{i}"), DataType::Int64, true)).collect(),
    });
    let make = |op: Operator, projection: Option<Vec<usize>>| {
        AsOfJoinExec::try_new(
            input(&wide),
            input(&wide),
            vec![(col("c1", 1), col("c2", 2)), (col("c3", 3), col("c4", 4))],
            AsOfJoinCondition::try_new(col("c5", 5), op, col("c6", 6)).unwrap(),
            JoinType::Inner,
            projection,
            NullEquality::NullEqualsNothing,
        )
        .unwrap()
        .fmt_as(DisplayFormatType::Verbose)
    };
    assert_eq!(
        make(Operator::Lt, Some(vec![10, 23])),
        "AsOfJoinExec: join_type=Inner, on=[(c1, c2), (c3, c4)], asof=c5 < c6, \
         projection=[c10@10, c11@23]"
    );
    assert!(make(Operator::LtEq, None).ends_with("asof=c5 <= c6"));
    assert!(make(Operator::Gt, Some(vec![])).ends_with("asof=c5 > c6, projection=[]"));
}

#[test]
fn statistics_are_made_from_those_of_the_inputs() {
    let schema = Arc::new(Schema { fields: vec![field("t", DataType::Int64, true)] });
    let known = Statistics { num_rows: Precision::Exact(3), total_byte_size: Precision::Absent };
    let with = |statistics: Result<Statistics, String>| {
        let mut input = PlanInput {
            schema: Arc::clone(&schema),
            partitions: 1,
            boundedness: Boundedness::Bounded,
            emission_type: EmissionType::Final,
            statistics: Ok(known),
            ordered_columns: vec![false],
            output_ordering: None,
        };
        input.statistics = statistics;
        Arc::new(input)
    };
    let make = |left: Arc<PlanInput>, right: Arc<PlanInput>| {
        AsOfJoinExec::try_new(
            left,
            right,
            vec![],
            AsOfJoinCondition::try_new(col("t", 0), Operator::Gt, col("t", 0)).unwrap(),
            JoinType::Left,
            None,
            NullEquality::NullEqualsNothing,
        )
        .unwrap()
    };
    let both = make(with(Ok(known)), with(Ok(known)));
    assert_eq!(
        both.partition_statistics(None),
        Ok(StatisticsSource::Inputs { left: known, right: known })
    );
    assert_eq!(both.partition_statistics(Some(0)), Ok(StatisticsSource::Unknown));
    let lost = |side: &str| Err(format!("no {side}"));
    let failed = make(with(lost("left")), with(lost("right")));
    assert_eq!(
        failed.partition_statistics(None),
        Err(JoinError::Statistics("no left".to_string()))
    );
    let failed = make(with(Ok(known)), with(lost("right")));
    assert_eq!(
        failed.partition_statistics(None),
        Err(JoinError::Statistics("no right".to_string()))
    );
}

#[test]
fn equally_near_rows_are_one_as_good_as_the_other() {
    let left = table(["l_sym", "l_t", "l_v"], [vec![Some(1)], vec![Some(9)], vec![Some(0)]]);
    let right = table(
        ["r_sym", "r_t", "r_v"],
        [
            vec![Some(1), Some(1), Some(1)],
            vec![Some(7), Some(3), Some(7)],
            vec![Some(70), Some(30), Some(71)],
        ],
    );
    let join = keyed_join(
        &left,
        &right,
        Operator::GtEq,
        JoinType::Inner,
        NullEquality::NullEqualsNothing,
    );
    let rows = int_rows(&run(&join, vec![left], vec![right], 10).unwrap());
    assert_eq!(rows.len(), 1);
    assert_eq!(rows[0][4], Some(7));
    assert!(rows[0][5] == Some(70) || rows[0][5] == Some(71));
}
