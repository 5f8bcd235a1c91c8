//! The as-of join of two batches.
use crate::array::{Array, DataType};
use crate::asof;
use crate::asof::AsOfInputs;
use crate::batch;
use crate::batch::{RecordBatch, Schema};
use crate::condition::{AsOfJoinCondition, AsOfJoinDirection};
use crate::error::JoinError;
use crate::eval::KeyColumns;
use crate::keys;
use crate::keys::SortedKeyValues;
use crate::merge;
use crate::merge::merge_sorted;
use crate::order::Value;
use crate::sort;
use crate::sort::sort_join_input;
use crate::types::{ColumnIndex, JoinSide, JoinType, NullEquality};
use std::sync::Arc;
use vstd::prelude::*;

verus! {

/// The slots of a column in the order of the given rows, null where there is no
/// row.
pub open spec fn gathered(cells: Seq<Option<Value>>, rows: Seq<Option<int>>) -> Seq<
    Option<Value>,
> {
    Seq::new(
        rows.len(),
        |k: int|
            match rows[k] {
                Some(row) => cells[row],
                None => None,
            },
    )
}

/// The type of a column of the output.
pub open spec fn output_type(
    left: RecordBatch,
    right: RecordBatch,
    column: ColumnIndex,
) -> DataType {
    match column.side {
        JoinSide::Left => left.columns@[column.index as int].data_type(),
        JoinSide::Right => right.columns@[column.index as int].data_type(),
        JoinSide::Neither => DataType::Boolean,
    }
}

/// The slots of a column of the output: those of the left or the right input, or
/// whether there is a right row.
pub open spec fn output_cells(
    left: RecordBatch,
    right: RecordBatch,
    left_rows: Seq<Option<int>>,
    right_rows: Seq<Option<int>>,
    column: ColumnIndex,
) -> Seq<Option<Value>> {
    match column.side {
        JoinSide::Left => gathered(left.columns@[column.index as int]@, left_rows),
        JoinSide::Right => gathered(right.columns@[column.index as int]@, right_rows),
        JoinSide::Neither => Seq::new(
            right_rows.len(),
            |k: int| Some(Value::Boolean(right_rows[k] is Some)),
        ),
    }
}

/// Whether the columns of the output may stand under a schema. A schema without
/// columns takes any.
pub open spec fn output_conforms(
    schema: Arc<Schema>,
    left: RecordBatch,
    right: RecordBatch,
    left_rows: Seq<Option<int>>,
    right_rows: Seq<Option<int>>,
    column_indices: Seq<ColumnIndex>,
) -> bool {
    schema.fields@.len() == 0 || {
        &&& schema.fields@.len() == column_indices.len()
        &&& forall|c: int|
            0 <= c < column_indices.len() ==> batch::cells_conform(
                output_type(left, right, #[trigger] column_indices[c]),
                output_cells(left, right, left_rows, right_rows, column_indices[c]),
                schema.fields@[c],
            )
    }
}

/// Whether a batch is the output for the given rows.
pub open spec fn is_output(
    output: RecordBatch,
    schema: Arc<Schema>,
    left: RecordBatch,
    right: RecordBatch,
    left_rows: Seq<Option<int>>,
    right_rows: Seq<Option<int>>,
    column_indices: Seq<ColumnIndex>,
) -> bool {
    &&& output.wf()
    &&& output.schema == schema
    &&& output.num_rows == left_rows.len()
    &&& forall|c: int|
        0 <= c < schema.fields@.len() ==> (#[trigger] output.columns@[c])@ == output_cells(
            left,
            right,
            left_rows,
            right_rows,
            column_indices[c],
        )
}

/// Whether the columns of the output exist in the inputs.
pub open spec fn columns_exist(
    left_columns: nat,
    right_columns: nat,
    column_indices: Seq<ColumnIndex>,
) -> bool {
    forall|c: int|
        0 <= c < column_indices.len() ==> match (#[trigger] column_indices[c]).side {
            JoinSide::Left => column_indices[c].index < left_columns,
            JoinSide::Right => column_indices[c].index < right_columns,
            JoinSide::Neither => true,
        }
}

/// Row numbers, where there are any, as integers.
pub open spec fn some_rows(rows: Seq<Option<usize>>) -> Seq<Option<int>> {
    Seq::new(
        rows.len(),
        |k: int|
            match rows[k] {
                Some(row) => Some(row as int),
                None => None,
            },
    )
}

/// Returns a column with the slots of the given rows, null where there is no row.
fn gather(column: &Array, rows: &Vec<Option<usize>>) -> (result: Array)
    requires
        forall|k: int|
            0 <= k < rows@.len() ==> ((#[trigger] rows@[k]) is Some ==> rows@[k]->0 < column@.len()),
    ensures
        result.data_type() == column.data_type(),
        result@ == gathered(column@, some_rows(rows@)),
{
    let mut result = Array::new_empty(column.data_type());
    for k in 0..rows.len()
        invariant
            forall|k: int|
                0 <= k < rows@.len() ==> ((#[trigger] rows@[k]) is Some ==> rows@[k]->0
                    < column@.len()),
            result.data_type() == column.data_type(),
            result@ == gathered(column@, some_rows(rows@.take(k as int))),
    {
        match rows[k] {
            Some(row) => result.append_slot(column, row),
            None => result.append_null(),
        }
        assert(result@ =~= gathered(column@, some_rows(rows@.take(k + 1))));
    }
    assert(rows@.take(rows@.len() as int) =~= rows@);
    result
}

/// Returns a column that says where there is a row.
fn is_not_null(rows: &Vec<Option<usize>>) -> (result: Array)
    ensures
        result.data_type() == DataType::Boolean,
        result@ == Seq::new(
            rows@.len(),
            |k: int| Some(Value::Boolean(some_rows(rows@)[k] is Some)),
        ),
{
    let mut values: Vec<Option<bool>> = Vec::new();
    for k in 0..rows.len()
        invariant
            values@ == Seq::new(k as nat, |i: int| Some(rows@[i] is Some)),
    {
        values.push(Some(rows[k].is_some()));
        assert(values@ =~= Seq::new((k + 1) as nat, |i: int| Some(rows@[i] is Some)));
    }
    let result = Array::Boolean(values);
    assert(result@ =~= Seq::new(
        rows@.len(),
        |k: int| Some(Value::Boolean(some_rows(rows@)[k] is Some)),
    ));
    result
}

/// Builds the output of a join from row numbers of its inputs.
pub fn build_batch_from_indices(
    schema: Arc<Schema>,
    left: &RecordBatch,
    right: &RecordBatch,
    left_rows: &Vec<Option<usize>>,
    right_rows: &Vec<Option<usize>>,
    column_indices: &Vec<ColumnIndex>,
) -> (result: Result<RecordBatch, JoinError>)
    requires
        left.wf(),
        right.wf(),
        left_rows@.len() == right_rows@.len(),
        forall|k: int|
            0 <= k < left_rows@.len() ==> ((#[trigger] left_rows@[k]) is Some ==> left_rows@[k]->0
                < left.num_rows),
        forall|k: int|
            0 <= k < right_rows@.len() ==> ((#[trigger] right_rows@[k]) is Some
                ==> right_rows@[k]->0 < right.num_rows),
        columns_exist(left.columns@.len(), right.columns@.len(), column_indices@),
    ensures
        output_conforms(
            schema,
            *left,
            *right,
            some_rows(left_rows@),
            some_rows(right_rows@),
            column_indices@,
        ) ==> result is Ok && is_output(
            result->Ok_0,
            schema,
            *left,
            *right,
            some_rows(left_rows@),
            some_rows(right_rows@),
            column_indices@,
        ),
        !output_conforms(
            schema,
            *left,
            *right,
            some_rows(left_rows@),
            some_rows(right_rows@),
            column_indices@,
        ) ==> result == Err::<RecordBatch, JoinError>(JoinError::InvalidRecordBatch),
{
    if schema.fields.len() == 0 {
        return RecordBatch::try_new(schema, Vec::new(), left_rows.len());
    }
    let ghost lr = some_rows(left_rows@);
    let ghost rr = some_rows(right_rows@);
    let mut columns: Vec<Array> = Vec::new();
    for c in 0..column_indices.len()
        invariant
            left.wf(),
            right.wf(),
            lr == some_rows(left_rows@),
            rr == some_rows(right_rows@),
            forall|k: int|
                0 <= k < left_rows@.len() ==> ((#[trigger] left_rows@[k]) is Some
                    ==> left_rows@[k]->0 < left.num_rows),
            forall|k: int|
                0 <= k < right_rows@.len() ==> ((#[trigger] right_rows@[k]) is Some
                    ==> right_rows@[k]->0 < right.num_rows),
            columns_exist(left.columns@.len(), right.columns@.len(), column_indices@),
            columns@.len() == c,
            forall|d: int|
                0 <= d < c ==> (#[trigger] columns@[d])@ == output_cells(
                    *left,
                    *right,
                    lr,
                    rr,
                    column_indices@[d],
                ) && columns@[d].data_type() == output_type(*left, *right, column_indices@[d]),
    {
        let column_index = &column_indices[c];
        assert(*column_index == column_indices@[c as int]);
        let column = match column_index.side {
            JoinSide::Left => {
                assert(left.columns@[column_index.index as int]@.len() == left.num_rows);
                gather(&left.columns[column_index.index], left_rows)
            },
            JoinSide::Right => {
                assert(right.columns@[column_index.index as int]@.len() == right.num_rows);
                gather(&right.columns[column_index.index], right_rows)
            },
            JoinSide::Neither => is_not_null(right_rows),
        };
        columns.push(column);
    }
    let ghost fits = output_conforms(schema, *left, *right, lr, rr, column_indices@);
    proof {
        assert forall|c: int| 0 <= c < columns@.len() implies (#[trigger] columns@[c])@.len()
            == left_rows@.len() by {}
        if fits {
            assert forall|c: int| 0 <= c < columns@.len() implies batch::column_conforms(
                #[trigger] columns@[c],
                schema.fields@[c],
            ) by {
                let d = column_indices@[c];
            }
        } else if columns@.len() == schema.fields@.len() {
            let c = choose|c: int|
                0 <= c < column_indices@.len() && !batch::cells_conform(
                    output_type(*left, *right, #[trigger] column_indices@[c]),
                    output_cells(*left, *right, lr, rr, column_indices@[c]),
                    schema.fields@[c],
                );
            assert(!batch::column_conforms(columns@[c], schema.fields@[c]));
        }
    }
    RecordBatch::try_new(schema, columns, left_rows.len())
}

/// The left rows of some pairs.
pub open spec fn left_of(pairs: Seq<(int, Option<int>)>) -> Seq<Option<int>> {
    Seq::new(pairs.len(), |k: int| Some(pairs[k].0))
}

/// The right rows of some pairs.
pub open spec fn right_of(pairs: Seq<(int, Option<int>)>) -> Seq<Option<int>> {
    Seq::new(pairs.len(), |k: int| pairs[k].1)
}

impl AsOfInputs {
    /// What a join of the inputs may return, for given orders of the rows of each
    /// side: the rows that the merge pairs, put under the schema where they fit it.
    pub open spec fn may_return(
        self,
        left_order: Seq<u32>,
        right_order: Seq<u32>,
        join_type: JoinType,
        schema: Arc<Schema>,
        column_indices: Seq<ColumnIndex>,
        result: Result<RecordBatch, JoinError>,
    ) -> bool {
        let pairs = self.merged_pairs(left_order, right_order, join_type);
        let fits = output_conforms(
            schema,
            self.left,
            self.right,
            left_of(pairs),
            right_of(pairs),
            column_indices,
        );
        &&& self.ordered(left_order, right_order)
        &&& self.types_agree() ==> self.is_asof_join(left_order, join_type, pairs)
        &&& fits ==> result is Ok && is_output(
            result->Ok_0,
            schema,
            self.left,
            self.right,
            left_of(pairs),
            right_of(pairs),
            column_indices,
        )
        &&& !fits ==> result == Err::<RecordBatch, JoinError>(JoinError::InvalidRecordBatch)
    }
}

/// A column of a reordered input, gathered by position, is the column of the input
/// gathered by row number.
proof fn gathered_through(
    cells: Seq<Option<Value>>,
    reordered: Seq<Option<Value>>,
    row_order: Seq<u32>,
    positions: Seq<Option<int>>,
    numbers: Seq<Option<int>>,
)
    requires
        reordered == batch::taken(cells, row_order),
        positions.len() == numbers.len(),
        forall|k: int|
            0 <= k < positions.len() ==> match #[trigger] positions[k] {
                Some(p) => 0 <= p < row_order.len() && numbers[k] == Some(row_order[p] as int),
                None => numbers[k] is None,
            },
    ensures
        gathered(reordered, positions) == gathered(cells, numbers),
{
    assert forall|k: int| 0 <= k < positions.len() implies #[trigger] gathered(
        reordered,
        positions,
    )[k] == gathered(cells, numbers)[k] by {
        let p = positions[k];
    }
    assert(gathered(reordered, positions) =~= gathered(cells, numbers));
}

/// Every pair of a merge refers to rows that exist, and only a left join has pairs
/// without a right row.
pub proof fn pairs_in_range(
    left: keys::KeyView,
    right: keys::KeyView,
    n: nat,
    join_type: JoinType,
    strict: bool,
)
    ensures
        forall|k: int|
            0 <= k < merge::join_pairs(left, right, n, join_type, strict).len() ==> {
                let pair = #[trigger] merge::join_pairs(left, right, n, join_type, strict)[k];
                &&& 0 <= pair.0 < n
                &&& pair.1 is Some ==> 0 <= pair.1->0 < right.len()
                &&& pair.1 is None ==> join_type == JoinType::Left
            },
    decreases n,
{
    if n > 0 {
        pairs_in_range(left, right, (n - 1) as nat, join_type, strict);
        keys::last_candidate_is_last(left, n - 1, right, right.len(), strict);
    }
}

/// Why inputs cannot be joined, if they cannot: the right side has too many rows to
/// number, or a key could not be evaluated, on the left side first.
pub open spec fn join_refusal(
    right_rows: nat,
    left_keys: Result<KeyColumns, JoinError>,
    right_keys: Result<KeyColumns, JoinError>,
) -> Option<JoinError> {
    if right_rows > u32::MAX {
        Some(JoinError::TooManyRightRows)
    } else {
        match (left_keys, right_keys) {
            (Err(error), _) => Some(error),
            (Ok(_), Err(error)) => Some(error),
            (Ok(_), Ok(_)) => None,
        }
    }
}

/// Whether the keys of a side, where they could be evaluated, have a slot in each of
/// its rows.
pub open spec fn keys_fit(keys: Result<KeyColumns, JoinError>, num_rows: nat) -> bool {
    keys is Ok ==> keys->Ok_0.wf(num_rows)
}

/// Whether the keys of both sides, where they could be evaluated, are equally many.
pub open spec fn keys_pair_up(
    left_keys: Result<KeyColumns, JoinError>,
    right_keys: Result<KeyColumns, JoinError>,
) -> bool {
    left_keys is Ok && right_keys is Ok ==> left_keys->Ok_0.on@.len()
        == right_keys->Ok_0.on@.len()
}

/// What joining two batches may return, given what evaluating the keys of each side
/// returned.
pub open spec fn join_returns(
    left: RecordBatch,
    right: RecordBatch,
    left_keys: Result<KeyColumns, JoinError>,
    right_keys: Result<KeyColumns, JoinError>,
    schema: Arc<Schema>,
    column_indices: Seq<ColumnIndex>,
    direction: AsOfJoinDirection,
    strict: bool,
    join_type: JoinType,
    null_equality: NullEquality,
    result: Result<RecordBatch, JoinError>,
) -> bool {
    match join_refusal(right.num_rows as nat, left_keys, right_keys) {
        Some(error) => result == Err::<RecordBatch, JoinError>(error),
        None => {
            let inputs = AsOfInputs {
                left,
                right,
                left_keys: left_keys->Ok_0,
                right_keys: right_keys->Ok_0,
                direction,
                strict,
                null_equality,
            };
            exists|left_order: Seq<u32>, right_order: Seq<u32>| #[trigger]
                inputs.may_return(
                    left_order,
                    right_order,
                    join_type,
                    schema,
                    column_indices,
                    result,
                )
        },
    }
}

/// Joins two batches, given what evaluating the keys of each side returned.
pub fn join_asof(
    left: RecordBatch,
    right: RecordBatch,
    left_keys: Result<KeyColumns, JoinError>,
    right_keys: Result<KeyColumns, JoinError>,
    schema: Arc<Schema>,
    column_indices: Vec<ColumnIndex>,
    asof_condition: AsOfJoinCondition,
    join_type: JoinType,
    null_equality: NullEquality,
) -> (result: Result<RecordBatch, JoinError>)
    requires
        left.wf(),
        right.wf(),
        keys_fit(left_keys, left.num_rows as nat),
        keys_fit(right_keys, right.num_rows as nat),
        keys_pair_up(left_keys, right_keys),
        left.num_rows <= u32::MAX || join_refusal(
            right.num_rows as nat,
            left_keys,
            right_keys,
        ) is Some,
        columns_exist(left.columns@.len(), right.columns@.len(), column_indices@),
        join_type == JoinType::Inner || join_type == JoinType::Left,
    ensures
        join_returns(
            left,
            right,
            left_keys,
            right_keys,
            schema,
            column_indices@,
            asof_condition.direction,
            asof_condition.strict,
            join_type,
            null_equality,
            result,
        ),
{
    if right.num_rows > u32::MAX as usize {
        return Err(JoinError::TooManyRightRows);
    }
    let left_keys = match left_keys {
        Ok(keys) => keys,
        Err(error) => return Err(error),
    };
    let right_keys = match right_keys {
        Ok(keys) => keys,
        Err(error) => return Err(error),
    };
    join_asof_on_keys(
        left,
        right,
        left_keys.on,
        left_keys.asof,
        right_keys.on,
        right_keys.asof,
        schema,
        column_indices,
        asof_condition.direction,
        asof_condition.strict,
        join_type,
        null_equality,
    )
}

/// Joins two batches by their key columns: sorts both sides by their keys, merges them,
/// and builds the output from the rows that the merge pairs.
pub fn join_asof_on_keys(
    left: RecordBatch,
    right: RecordBatch,
    left_on: Vec<Array>,
    left_asof: Array,
    right_on: Vec<Array>,
    right_asof: Array,
    schema: Arc<Schema>,
    column_indices: Vec<ColumnIndex>,
    direction: AsOfJoinDirection,
    strict: bool,
    join_type: JoinType,
    null_equality: NullEquality,
) -> (result: Result<RecordBatch, JoinError>)
    requires
        left.wf(),
        right.wf(),
        (KeyColumns { on: left_on, asof: left_asof }).wf(left.num_rows as nat),
        (KeyColumns { on: right_on, asof: right_asof }).wf(right.num_rows as nat),
        left_on@.len() == right_on@.len(),
        left.num_rows <= u32::MAX || right.num_rows > u32::MAX,
        columns_exist(left.columns@.len(), right.columns@.len(), column_indices@),
        join_type == JoinType::Inner || join_type == JoinType::Left,
    ensures
        join_returns(
            left,
            right,
            Ok(KeyColumns { on: left_on, asof: left_asof }),
            Ok(KeyColumns { on: right_on, asof: right_asof }),
            schema,
            column_indices@,
            direction,
            strict,
            join_type,
            null_equality,
            result,
        ),
{
    if right.num_rows > u32::MAX as usize {
        return Err(JoinError::TooManyRightRows);
    }
    let left_keys = KeyColumns { on: left_on, asof: left_asof };
    let right_keys = KeyColumns { on: right_on, asof: right_asof };
    let ghost inputs = AsOfInputs {
        left,
        right,
        left_keys,
        right_keys,
        direction,
        strict,
        null_equality,
    };
    let (sorted_left, sorted_left_keys) = match sort_join_input(&left, left_keys, direction) {
        Ok(sorted) => sorted,
        Err(error) => return Err(error),
    };
    let (sorted_right, sorted_right_keys) = match sort_join_input(&right, right_keys, direction) {
        Ok(sorted) => sorted,
        Err(error) => return Err(error),
    };
    let ghost left_order = choose|row_order: Seq<u32>| #[trigger]
        sort::sorts_side(row_order, left_keys, left.num_rows as nat, direction)
            && batch::holds_rows(sorted_left, left, row_order) && sort::keys_hold_rows(
            sorted_left_keys,
            left_keys,
            row_order,
        );
    let ghost right_order = choose|row_order: Seq<u32>| #[trigger]
        sort::sorts_side(row_order, right_keys, right.num_rows as nat, direction)
            && batch::holds_rows(sorted_right, right, row_order) && sort::keys_hold_rows(
            sorted_right_keys,
            right_keys,
            row_order,
        );
    let ghost left_sorted = sorted_left_keys;
    let ghost right_sorted = sorted_right_keys;
    let left_keys = match SortedKeyValues::try_new(
        sorted_left_keys,
        sorted_left.num_rows,
        direction,
        null_equality,
    ) {
        Ok(keys) => keys,
        Err(error) => return Err(error),
    };
    let right_keys = match SortedKeyValues::try_new(
        sorted_right_keys,
        sorted_right.num_rows,
        direction,
        null_equality,
    ) {
        Ok(keys) => keys,
        Err(error) => return Err(error),
    };
    proof {
        asof::sorted_keys_in_order(
            inputs.left_keys,
            left_sorted,
            left_order,
            left.num_rows as nat,
            direction,
            null_equality,
        );
        asof::sorted_keys_in_order(
            inputs.right_keys,
            right_sorted,
            right_order,
            right.num_rows as nat,
            direction,
            null_equality,
        );
        assert(left_keys@ == inputs.left_view(left_order));
        assert(right_keys@ == inputs.right_view(right_order));
        asof::keys_are_sorted(
            inputs.left_keys,
            left_order,
            left.num_rows as nat,
            direction,
            null_equality,
        );
        asof::keys_are_sorted(
            inputs.right_keys,
            right_order,
            right.num_rows as nat,
            direction,
            null_equality,
        );
    }
    let (left_indices, right_indices) = merge_sorted(
        &left_keys,
        &right_keys,
        join_type,
        strict,
    );
    let ghost pairs = merge::join_pairs(
        left_keys@,
        right_keys@,
        left_keys@.len(),
        join_type,
        strict,
    );
    proof {
        pairs_in_range(
            left_keys@,
            right_keys@,
            left_keys@.len(),
            join_type,
            strict,
        );
    }
    let mut left_rows: Vec<Option<usize>> = Vec::new();
    let mut right_rows: Vec<Option<usize>> = Vec::new();
    for k in 0..left_indices.len()
        invariant
            left_indices@ == merge::left_slots(pairs),
            right_indices@ == merge::right_slots(pairs),
            sorted_left.num_rows <= u32::MAX,
            sorted_right.num_rows <= u32::MAX,
            forall|i: int|
                0 <= i < pairs.len() ==> 0 <= (#[trigger] pairs[i]).0 < sorted_left.num_rows && (
                pairs[i].1 is Some ==> 0 <= pairs[i].1->0 < sorted_right.num_rows),
            left_rows@.len() == k,
            right_rows@.len() == k,
            forall|i: int|
                0 <= i < k ==> (#[trigger] left_rows@[i]) == Some(pairs[i].0 as usize),
            forall|i: int|
                0 <= i < k ==> (#[trigger] right_rows@[i]) == match pairs[i].1 {
                    Some(row) => Some(row as usize),
                    None => None,
                },
    {
        let ghost pair = pairs[k as int];
        left_rows.push(
            match left_indices[k] {
                Some(row) => Some(row as usize),
                None => None,
            },
        );
        right_rows.push(
            match right_indices[k] {
                Some(row) => Some(row as usize),
                None => None,
            },
        );
    }
    proof {
        let numbered = inputs.merged_pairs(left_order, right_order, join_type);
        let lp = some_rows(left_rows@);
        let rp = some_rows(right_rows@);
        assert(numbered.len() == pairs.len());
        assert forall|k: int| 0 <= k < lp.len() implies match #[trigger] lp[k] {
            Some(p) => 0 <= p < left_order.len() && left_of(numbered)[k] == Some(
                left_order[p] as int,
            ),
            None => left_of(numbered)[k] is None,
        } by {
            let pair = pairs[k];
        }
        assert forall|k: int| 0 <= k < rp.len() implies match #[trigger] rp[k] {
            Some(p) => 0 <= p < right_order.len() && right_of(numbered)[k] == Some(
                right_order[p] as int,
            ),
            None => right_of(numbered)[k] is None,
        } by {
            let pair = pairs[k];
        }
        assert forall|c: int| 0 <= c < column_indices@.len() implies output_cells(
            sorted_left,
            sorted_right,
            lp,
            rp,
            #[trigger] column_indices@[c],
        ) == output_cells(left, right, left_of(numbered), right_of(numbered), column_indices@[c])
            && output_type(sorted_left, sorted_right, column_indices@[c]) == output_type(
            left,
            right,
            column_indices@[c],
        ) by {
            let column = column_indices@[c];
            let i = column.index as int;
            if column.side == JoinSide::Left {
                gathered_through(
                    left.columns@[i]@,
                    sorted_left.columns@[i]@,
                    left_order,
                    lp,
                    left_of(numbered),
                );
            } else if column.side == JoinSide::Right {
                gathered_through(
                    right.columns@[i]@,
                    sorted_right.columns@[i]@,
                    right_order,
                    rp,
                    right_of(numbered),
                );
            } else {
                assert forall|k: int| 0 <= k < rp.len() implies (#[trigger] rp[k] is Some) == (
                right_of(numbered)[k] is Some) by {}
                assert(output_cells(sorted_left, sorted_right, lp, rp, column) =~= output_cells(
                    left,
                    right,
                    left_of(numbered),
                    right_of(numbered),
                    column,
                ));
            }
        }
        assert forall|k: int|
            0 <= k < left_rows@.len() && (#[trigger] left_rows@[k]) is Some implies left_rows@[k]->0
            < sorted_left.num_rows by {
            let pair = pairs[k];
        }
        assert forall|k: int|
            0 <= k < right_rows@.len() && (
            #[trigger] right_rows@[k]) is Some implies right_rows@[k]->0
            < sorted_right.num_rows by {
            let pair = pairs[k];
        }
        assert(output_conforms(
            schema,
            sorted_left,
            sorted_right,
            lp,
            rp,
            column_indices@,
        ) == output_conforms(
            schema,
            left,
            right,
            left_of(numbered),
            right_of(numbered),
            column_indices@,
        ));
        if inputs.types_agree() {
            inputs.merge_is_asof_join(left_order, right_order, join_type);
        }
    }
    let result = build_batch_from_indices(
        schema,
        &sorted_left,
        &sorted_right,
        &left_rows,
        &right_rows,
        &column_indices,
    );
    proof {
        assert(inputs.may_return(
            left_order,
            right_order,
            join_type,
            schema,
            column_indices@,
            result,
        ));
    }
    result
}

} // verus!
