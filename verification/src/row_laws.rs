//! What joins do to rows, told cell by cell.
use crate::array;
use crate::array::{Array, DataType};
use crate::asof;
use crate::asof::AsOfInputs;
use crate::batch;
use crate::batch::{concat_or_empty, take_record_batch, Field, RecordBatch, Schema};
use crate::condition::{AsOfJoinCondition, AsOfJoinDirection};
use crate::error::JoinError;
use crate::eval::{ColumnarValue, KeyColumns};
use crate::expr::PhysicalExprRef;
use crate::join;
use crate::join::{build_batch_from_indices, join_asof, join_asof_on_keys};
use crate::key_laws;
use crate::keys;
use crate::keys::{
    build_partition_validity, build_validity, KeyOrder, KeyView, SortedKeyValues,
};
use crate::laws;
use crate::merge;
use crate::merge::merge_sorted;
use crate::order;
use crate::order::Value;
use crate::repeated;
use crate::sort;
use crate::sort::sort_join_input;
use crate::stream;
use crate::stream::{
    finish_loading, AsOfJoinStream, AsOfJoinStreamState, CollectedInput, Event, JoinInput,
    JoinTask, Step,
};
use crate::types::{ColumnIndex, JoinSide, JoinType, NullEquality};
use std::sync::Arc;
use vstd::prelude::*;

verus! {

/// A column holds a slot for each of its values, and a slot is null exactly where there is
/// no value.
pub proof fn columns_hold_their_values(column: Array, row: int)
    requires
        0 <= row < column@.len(),
    ensures
        match column {
            Array::Boolean(values) => column@.len() == values@.len() && match values@[row] {
                Some(value) => column@[row] == Some(Value::Boolean(value)),
                None => column@[row] is None,
            },
            Array::Int64(values) => column@.len() == values@.len() && match values@[row] {
                Some(value) => column@[row] == Some(Value::Int(value as int)),
                None => column@[row] is None,
            },
            Array::UInt64(values) => column@.len() == values@.len() && match values@[row] {
                Some(value) => column@[row] == Some(Value::Int(value as int)),
                None => column@[row] is None,
            },
            Array::Utf8(values) => column@.len() == values@.len() && match values@[row] {
                Some(value) => column@[row] == Some(Value::Text(value@)),
                None => column@[row] is None,
            },
        },
{
}

/// A column says how many slots it has, which are null, how many are, and of what type it
/// is.
pub proof fn columns_know_their_slots(
    column: Array,
    row: usize,
    len: usize,
    null: bool,
    nulls: usize,
    data_type: DataType,
)
    requires
        call_ensures(Array::len, (&column,), len),
        row < len,
        call_ensures(Array::is_null, (&column, row), null),
        call_ensures(Array::null_count, (&column,), nulls),
        call_ensures(Array::data_type, (&column,), data_type),
    ensures
        len == column@.len(),
        null <==> column@[row as int] is None,
        null ==> nulls > 0,
        nulls <= len,
        nulls == 0 <==> forall|i: int| 0 <= i < len ==> column@[i] is Some,
        nulls == len <==> forall|i: int| 0 <= i < len ==> column@[i] is None,
        column is Boolean <==> data_type == DataType::Boolean,
        column is Int64 <==> data_type == DataType::Int64,
        column is UInt64 <==> data_type == DataType::UInt64,
        column is Utf8 <==> data_type == DataType::Utf8,
{
    array::count_nulls_zero(column@, column@.len());
    all_null(column@, column@.len());
}

/// All slots are null exactly where all are counted.
proof fn all_null(cells: Seq<Option<Value>>, n: nat)
    requires
        n <= cells.len(),
    ensures
        array::count_nulls(cells, n) <= n,
        array::count_nulls(cells, n) == n <==> (forall|i: int| 0 <= i < n ==> cells[i] is None),
    decreases n,
{
    if n > 0 {
        all_null(cells, (n - 1) as nat);
        assert(array::count_nulls(cells, n) == n ==> cells[n - 1] is None);
    }
}

/// Whether a column can stand under a field: it has its type, and no nulls unless the field
/// admits them.
pub open spec fn fits_under(column: Array, field: Field) -> bool {
    &&& column.data_type() == field.data_type
    &&& field.nullable || forall|row: int|
        0 <= row < column@.len() ==> (#[trigger] column@[row]) is Some
}

/// Columns are put under a schema exactly where there are as many as it has fields, each
/// with the asked number of rows and fitting its field; then they are kept as they are.
pub proof fn batches_fit_their_schema(
    schema: Arc<Schema>,
    columns: Vec<Array>,
    num_rows: usize,
    made: Result<RecordBatch, JoinError>,
)
    requires
        call_ensures(RecordBatch::try_new, (schema, columns, num_rows), made),
    ensures
        made is Ok <==> columns@.len() == schema.fields@.len() && forall|c: int|
            0 <= c < columns@.len() ==> (#[trigger] columns@[c])@.len() == num_rows && fits_under(
                columns@[c],
                schema.fields@[c],
            ),
        made is Ok ==> made->Ok_0.schema == schema && made->Ok_0.columns == columns
            && made->Ok_0.num_rows == num_rows,
        made is Err ==> made->Err_0 == JoinError::InvalidRecordBatch,
{
    if columns@.len() == schema.fields@.len() && forall|c: int|
        0 <= c < columns@.len() ==> (#[trigger] columns@[c])@.len() == num_rows && fits_under(
            columns@[c],
            schema.fields@[c],
        ) {
        assert(batch::columns_conform(columns@, num_rows as nat, *schema)) by {
            assert forall|c: int| 0 <= c < columns@.len() implies (#[trigger] columns@[c])@.len()
                == num_rows && batch::column_conforms(columns@[c], schema.fields@[c]) by {
                assert(fits_under(columns@[c], schema.fields@[c]));
            }
        }
    }
    if made is Ok {
        assert forall|c: int| 0 <= c < columns@.len() implies (#[trigger] columns@[c])@.len()
            == num_rows && fits_under(columns@[c], schema.fields@[c]) by {
            assert(batch::column_conforms(columns@[c], schema.fields@[c]));
        }
    }
}

/// Taken rows hold, cell by cell, what the named rows hold.
pub proof fn taken_rows_are_the_named_rows(
    source: RecordBatch,
    rows: Vec<u32>,
    taken: RecordBatch,
    c: int,
    k: int,
)
    requires
        call_ensures(take_record_batch, (&source, &rows), taken),
        0 <= c < source.columns@.len(),
        0 <= k < rows@.len(),
    ensures
        taken.schema == source.schema,
        taken.num_rows == rows@.len(),
        taken.columns@.len() == source.columns@.len(),
        taken.columns@[c]@.len() == rows@.len(),
        taken.columns@[c]@[k] == source.columns@[c]@[rows@[k] as int],
{
}

/// A slice holds, cell by cell, the rows from its start on.
pub proof fn slices_are_consecutive_rows(
    source: RecordBatch,
    offset: usize,
    len: usize,
    slice: RecordBatch,
    c: int,
    k: int,
)
    requires
        source.wf(),
        offset + len <= source.num_rows,
        call_ensures(RecordBatch::slice, (&source, offset, len), slice),
        0 <= c < source.columns@.len(),
        0 <= k < len,
    ensures
        slice.schema == source.schema,
        slice.num_rows == len,
        slice.columns@[c]@.len() == len,
        slice.columns@[c]@[k] == source.columns@[c]@[offset + k],
{
    assert(source.columns@[c]@.len() == source.num_rows);
    assert(slice.columns@[c]@ == source.columns@[c]@.subrange(offset as int, offset + len));
}

/// Batches together have as many rows as they have one by one.
pub proof fn rows_add_up(batches: Seq<RecordBatch>, last: RecordBatch)
    ensures
        batch::total_rows(Seq::empty()) == 0,
        batch::total_rows(batches.push(last)) == batch::total_rows(batches) + last.num_rows,
{
    assert(batches.push(last).drop_last() =~= batches);
    assert(batches.push(last).last() == last);
}

/// A row of a batch stands, in batches put one after the other, behind the rows of the
/// batches before.
proof fn concatenated_cell(batches: Seq<RecordBatch>, column: int, b: int, k: int)
    requires
        forall|i: int|
            0 <= i < batches.len() ==> (#[trigger] batches[i]).columns@[column]@.len()
                == batches[i].num_rows,
        0 <= b < batches.len(),
        0 <= k < batches[b].num_rows,
    ensures
        batch::concat_cells(batches, column).len() == batch::total_rows(batches),
        batch::total_rows(batches.take(b)) + k < batch::total_rows(batches),
        batch::concat_cells(batches, column)[batch::total_rows(batches.take(b)) + k]
            == batches[b].columns@[column]@[k],
    decreases batches.len(),
{
    let rest = batches.drop_last();
    concat_len(batches, column);
    concat_len(rest, column);
    assert(batches.last() == batches[batches.len() - 1]);
    if b < rest.len() {
        assert forall|i: int| 0 <= i < rest.len() implies (#[trigger] rest[i]).columns@[column]@.len()
            == rest[i].num_rows by {
            assert(rest[i] == batches[i]);
        }
        concatenated_cell(rest, column, b, k);
        assert(rest.take(b) =~= batches.take(b));
    } else {
        assert(batches.take(b) =~= rest);
    }
}

/// A concatenated column has the slots of all batches.
proof fn concat_len(batches: Seq<RecordBatch>, column: int)
    requires
        forall|i: int|
            0 <= i < batches.len() ==> (#[trigger] batches[i]).columns@[column]@.len()
                == batches[i].num_rows,
    ensures
        batch::concat_cells(batches, column).len() == batch::total_rows(batches),
    decreases batches.len(),
{
    if batches.len() > 0 {
        let rest = batches.drop_last();
        assert forall|i: int| 0 <= i < rest.len() implies (#[trigger] rest[i]).columns@[column]@.len()
            == rest[i].num_rows by {
            assert(rest[i] == batches[i]);
        }
        concat_len(rest, column);
        assert(batches.last() == batches[batches.len() - 1]);
    }
}

/// Batches that fit a schema are put under it one after the other: every row of every batch
/// stands behind the rows of the batches before, and there are no others. Batches that do
/// not fit are refused.
pub proof fn concatenated_batches_keep_every_row(
    schema: Arc<Schema>,
    batches: Vec<RecordBatch>,
    whole: Result<RecordBatch, JoinError>,
    c: int,
    b: int,
    k: int,
)
    requires
        forall|i: int|
            0 <= i < batches@.len() ==> (#[trigger] batches@[i]).wf() && schema.fields@.len()
                <= batches@[i].columns@.len(),
        call_ensures(concat_or_empty, (schema, batches), whole),
        0 <= c < schema.fields@.len(),
        0 <= b < batches@.len(),
        0 <= k < batches@[b].num_rows,
    ensures
        whole is Err ==> whole->Err_0 == JoinError::InvalidRecordBatch,
        whole is Ok ==> {
            &&& whole->Ok_0.schema == schema
            &&& whole->Ok_0.num_rows == batch::total_rows(batches@)
            &&& whole->Ok_0.columns@[c]@.len() == whole->Ok_0.num_rows
            &&& whole->Ok_0.columns@[c]@[batch::total_rows(batches@.take(b)) + k]
                == batches@[b].columns@[c]@[k]
        },
        whole is Ok ==> fits_under(batches@[b].columns@[c], schema.fields@[c]),
{
    assert forall|i: int| 0 <= i < batches@.len() implies (
    #[trigger] batches@[i]).columns@[c]@.len() == batches@[i].num_rows by {
        assert(batches@[i].wf());
        assert(batches@[i].columns@[c]@.len() == batches@[i].num_rows);
    }
    concatenated_cell(batches@, c, b, k);
    if whole is Ok {
        assert(batch::batch_conforms(batches@[b], *schema));
        assert(batch::column_conforms(batches@[b].columns@[c], schema.fields@[c]));
        assert(whole->Ok_0.columns@[c]@ == batch::concat_cells(batches@, c));
    }
}

/// Where every column fits, batches are not refused.
pub proof fn fitting_batches_are_accepted(
    schema: Arc<Schema>,
    batches: Vec<RecordBatch>,
    whole: Result<RecordBatch, JoinError>,
)
    requires
        call_ensures(concat_or_empty, (schema, batches), whole),
        forall|b: int, c: int|
            0 <= b < batches@.len() && 0 <= c < schema.fields@.len() ==> fits_under(
                #[trigger] batches@[b].columns@[c],
                schema.fields@[c],
            ),
    ensures
        whole is Ok,
        batches@.len() == 0 ==> whole->Ok_0.num_rows == 0,
{
    assert forall|b: int| 0 <= b < batches@.len() implies batch::batch_conforms(
        #[trigger] batches@[b],
        *schema,
    ) by {
        assert forall|c: int| 0 <= c < schema.fields@.len() implies batch::column_conforms(
            #[trigger] batches@[b].columns@[c],
            schema.fields@[c],
        ) by {
            assert(fits_under(batches@[b].columns@[c], schema.fields@[c]));
        }
    }
}

/// The output of a join holds, in a row, the cells of the left row and of the right row
/// that were paired, or nulls where there is no right row; and, where it is asked for,
/// whether there is one.
pub proof fn output_cells_come_from_their_rows(
    schema: Arc<Schema>,
    left: RecordBatch,
    right: RecordBatch,
    left_rows: Vec<Option<usize>>,
    right_rows: Vec<Option<usize>>,
    columns: Vec<ColumnIndex>,
    made: Result<RecordBatch, JoinError>,
    c: int,
    k: int,
)
    requires
        left_rows@.len() == right_rows@.len(),
        call_ensures(
            build_batch_from_indices,
            (schema, &left, &right, &left_rows, &right_rows, &columns),
            made,
        ),
        made is Ok,
        0 <= c < schema.fields@.len(),
        0 <= k < left_rows@.len(),
    ensures
        made->Ok_0.schema == schema,
        made->Ok_0.num_rows == left_rows@.len(),
        schema.fields@.len() == columns@.len(),
        made->Ok_0.columns@[c]@[k] == match columns@[c].side {
            JoinSide::Left => match left_rows@[k] {
                Some(row) => left.columns@[columns@[c].index as int]@[row as int],
                None => None,
            },
            JoinSide::Right => match right_rows@[k] {
                Some(row) => right.columns@[columns@[c].index as int]@[row as int],
                None => None,
            },
            JoinSide::Neither => Some(Value::Boolean(right_rows@[k] is Some)),
        },
{
    let lr = join::some_rows(left_rows@);
    let rr = join::some_rows(right_rows@);
    assert(made->Ok_0.columns@[c]@ == join::output_cells(left, right, lr, rr, columns@[c]));
}

/// Whether integers compare as a search in a direction asks for.
pub open spec fn is_searched(
    left: int,
    right: int,
    direction: AsOfJoinDirection,
    strict: bool,
) -> bool {
    match direction {
        AsOfJoinDirection::Backward => right < left || (!strict && right == left),
        AsOfJoinDirection::Forward => right > left || (!strict && right == left),
    }
}

/// A right row qualifies for a left row exactly where every equality key is the same in
/// both rows, none of them null unless nulls equal nulls, and the as-of keys are there and
/// satisfy the inequality.
pub proof fn rows_qualify_where_every_predicate_holds(
    inputs: AsOfInputs,
    left_row: int,
    right_row: int,
    left_asof: int,
    right_asof: int,
)
    requires
        inputs.wf(),
        0 <= left_row < inputs.left.num_rows,
        0 <= right_row < inputs.right.num_rows,
    ensures
        ({
            let left = inputs.left_keys;
            let right = inputs.right_keys;
            let keys_agree = forall|k: int|
                0 <= k < left.on@.len() ==> (#[trigger] left.on@[k])@[left_row]
                    == right.on@[k]@[right_row] && (left.on@[k]@[left_row] is Some
                    || inputs.null_equality == NullEquality::NullEqualsNull);
            &&& inputs.qualifies(left_row, right_row) ==> keys_agree && left.asof@[left_row] is Some
                && right.asof@[right_row] is Some
            &&& left.asof@[left_row] == Some(Value::Int(left_asof)) && right.asof@[right_row]
                == Some(Value::Int(right_asof)) ==> (inputs.qualifies(left_row, right_row)
                <==> keys_agree && is_searched(
                left_asof,
                right_asof,
                inputs.direction,
                inputs.strict,
            ))
        }),
{
    let left = inputs.left_keys;
    let right = inputs.right_keys;
    let l = inputs.left_on(left_row);
    let r = inputs.right_on(right_row);
    assert forall|k: int| 0 <= k < left.on@.len() implies l[k] == (
    #[trigger] left.on@[k])@[left_row] && r[k] == right.on@[k]@[right_row] by {}
    let keys_agree = forall|k: int|
        0 <= k < left.on@.len() ==> (#[trigger] left.on@[k])@[left_row]
            == right.on@[k]@[right_row] && (left.on@[k]@[left_row] is Some || inputs.null_equality
            == NullEquality::NullEqualsNull);
    if asof::keys_match(l, r, inputs.null_equality) {
        assert forall|k: int| 0 <= k < left.on@.len() implies (
        #[trigger] left.on@[k])@[left_row] == right.on@[k]@[right_row] && (
        left.on@[k]@[left_row] is Some || inputs.null_equality == NullEquality::NullEqualsNull) by {
            assert(l[k] == r[k]);
        }
    }
    if keys_agree {
        assert forall|k: int| 0 <= k < l.len() implies l[k] == r[k] && (l[k] is Some
            || inputs.null_equality == NullEquality::NullEqualsNull) by {
            assert(left.on@[k]@[left_row] == right.on@[k]@[right_row]);
        }
        assert(l =~= r);
        assert(asof::keys_match(l, r, inputs.null_equality));
    }
}

/// The nearest right row is one that qualifies, and no other one that does is closer.
pub proof fn nearest_rows_are_closest(
    inputs: AsOfInputs,
    left_row: int,
    found: int,
    other: int,
    left_asof: int,
    found_asof: int,
    other_asof: int,
)
    requires
        inputs.is_nearest(left_row, Some(found)),
        0 <= other < inputs.right.num_rows,
        inputs.qualifies(left_row, other),
        inputs.left_keys.asof@[left_row] == Some(Value::Int(left_asof)),
        inputs.right_keys.asof@[found] == Some(Value::Int(found_asof)),
        inputs.right_keys.asof@[other] == Some(Value::Int(other_asof)),
    ensures
        0 <= found < inputs.right.num_rows,
        inputs.qualifies(left_row, found),
        inputs.direction == AsOfJoinDirection::Backward ==> other_asof <= found_asof <= left_asof,
        inputs.direction == AsOfJoinDirection::Forward ==> left_asof <= found_asof <= other_asof,
{
    assert(!asof::nearer(
        inputs.right_asof(other),
        inputs.right_asof(found),
        inputs.direction,
    ));
}

/// A left row has no match exactly where no right row qualifies.
pub proof fn unmatched_rows_have_no_candidate(
    inputs: AsOfInputs,
    left_row: int,
    found: Option<int>,
    other: int,
)
    requires
        inputs.is_nearest(left_row, found),
        0 <= other < inputs.right.num_rows,
        inputs.qualifies(left_row, other),
    ensures
        found is Some,
{
}

/// The key of a row in one of the key columns, the as-of key being the last.
pub open spec fn key_cell(keys: KeyColumns, row: int, c: int) -> Option<Value> {
    if c < keys.on@.len() {
        keys.on@[c]@[row]
    } else {
        keys.asof@[row]
    }
}

/// Whether a key comes strictly before another: integers in the given direction, nulls
/// last.
pub open spec fn comes_before(a: Option<Value>, b: Option<Value>, descending: bool) -> bool {
    match (a, b) {
        (Some(Value::Int(x)), Some(Value::Int(y))) => if descending {
            y < x
        } else {
            x < y
        },
        (Some(_), None) => true,
        _ => false,
    }
}

/// Whether rows never descend: where they agree on the first key columns, the next key of a
/// later row does not come before that of an earlier one. Only the as-of key of a forward
/// search descends.
pub open spec fn in_key_order(
    keys: KeyColumns,
    rows: Seq<(int, Option<int>)>,
    direction: AsOfJoinDirection,
) -> bool {
    forall|i: int, j: int, c: int|
        #![trigger key_cell(keys, rows[i].0, c), key_cell(keys, rows[j].0, c)]
        0 <= i < j < rows.len() && 0 <= c <= keys.on@.len() && (forall|d: int|
            0 <= d < c ==> key_cell(keys, rows[i].0, d) == #[trigger] key_cell(
                keys,
                rows[j].0,
                d,
            )) ==> !comes_before(
            key_cell(keys, rows[j].0, c),
            key_cell(keys, rows[i].0, c),
            c == keys.on@.len() && direction == AsOfJoinDirection::Forward,
        )
}

/// Whether pairs of rows are what an as-of join makes of its inputs: every left row at most
/// once, with a nearest right row, or alone where a left join finds none; and every left
/// row that a left join, or a right row that qualifies, asks for.
pub open spec fn pairs_nearest_rows(
    inputs: AsOfInputs,
    join_type: JoinType,
    pairs: Seq<(int, Option<int>)>,
) -> bool {
    &&& forall|k: int|
        0 <= k < pairs.len() ==> {
            &&& 0 <= (#[trigger] pairs[k]).0 < inputs.left.num_rows
            &&& inputs.is_nearest(pairs[k].0, pairs[k].1)
            &&& pairs[k].1 is None ==> join_type == JoinType::Left
        }
    &&& forall|j: int, k: int|
        0 <= j < k < pairs.len() ==> (#[trigger] pairs[j]).0 != (#[trigger] pairs[k]).0
    &&& forall|row: int|
        0 <= row < inputs.left.num_rows && (join_type == JoinType::Left || exists|r: int|
            0 <= r < inputs.right.num_rows && #[trigger] inputs.qualifies(row, r))
            ==> #[trigger] laws::has_left_row(pairs, row)
    &&& in_key_order(inputs.left_keys, pairs, inputs.direction)
}

/// Whether an output holds the rows of pairs, cell by cell.
pub open spec fn holds_pairs(
    output: RecordBatch,
    inputs: AsOfInputs,
    columns: Seq<ColumnIndex>,
    pairs: Seq<(int, Option<int>)>,
) -> bool {
    &&& output.num_rows == pairs.len()
    &&& forall|c: int, k: int|
        0 <= c < output.schema.fields@.len() && 0 <= k < pairs.len() ==> (
        #[trigger] output.columns@[c]@[k]) == repeated::pair_cell(
            inputs.left,
            inputs.right,
            pairs[k],
            columns[c],
        )
}

/// Whether every key has one type on both sides.
pub open spec fn same_key_types(left: KeyColumns, right: KeyColumns) -> bool {
    &&& left.on@.len() == right.on@.len()
    &&& forall|k: int|
        0 <= k < left.on@.len() ==> (#[trigger] left.on@[k]).data_type()
            == right.on@[k].data_type()
    &&& left.asof.data_type() == right.asof.data_type()
}

/// The rows that a join may return are those of nearest pairs.
proof fn returned_rows_are_nearest_pairs(
    inputs: AsOfInputs,
    schema: Arc<Schema>,
    columns: Seq<ColumnIndex>,
    join_type: JoinType,
    output: RecordBatch,
)
    requires
        inputs.wf(),
        same_key_types(inputs.left_keys, inputs.right_keys),
        join_type == JoinType::Inner || join_type == JoinType::Left,
        repeated::returned_by(inputs, schema, columns, join_type, output),
    ensures
        output.schema == schema,
        exists|pairs: Seq<(int, Option<int>)>| #[trigger]
            pairs_nearest_rows(inputs, join_type, pairs) && holds_pairs(
                output,
                inputs,
                columns,
                pairs,
            ),
{
    let (lo, ro) = choose|lo: Seq<u32>, ro: Seq<u32>| #[trigger]
        inputs.may_return(lo, ro, join_type, schema, columns, Ok(output));
    let pairs = inputs.merged_pairs(lo, ro, join_type);
    assert(inputs.left_keys.on_types() =~= inputs.right_keys.on_types()) by {
        assert forall|k: int| 0 <= k < inputs.left_keys.on@.len() implies (
        #[trigger] inputs.left_keys.on_types()[k]) == inputs.right_keys.on_types()[k] by {
            assert(inputs.left_keys.on@[k].data_type() == inputs.right_keys.on@[k].data_type());
        }
    }
    assert(inputs.types_agree());
    laws::every_pair_is_nearest(inputs, lo, join_type, pairs);
    assert forall|j: int, k: int| 0 <= j < k < pairs.len() implies (#[trigger] pairs[j]).0 != (
    #[trigger] pairs[k]).0 by {
        laws::no_left_row_comes_twice(inputs, lo, ro, join_type, j, k);
    }
    assert forall|row: int|
        0 <= row < inputs.left.num_rows && (join_type == JoinType::Left || exists|r: int|
            0 <= r < inputs.right.num_rows && #[trigger] inputs.qualifies(
                row,
                r,
            )) implies #[trigger] laws::has_left_row(pairs, row) by {
        if join_type == JoinType::Left {
            laws::left_join_keeps_every_left_row(inputs, lo, ro);
        } else {
            laws::inner_join_keeps_matched_left_rows(inputs, lo, pairs, row);
        }
    }
    assert(in_key_order(inputs.left_keys, pairs, inputs.direction)) by {
        assert forall|i: int, j: int, c: int|
            #![trigger key_cell(inputs.left_keys, pairs[i].0, c), key_cell(inputs.left_keys, pairs[j].0, c)]
            0 <= i < j < pairs.len() && 0 <= c <= inputs.left_keys.on@.len() && (forall|d: int|
                0 <= d < c ==> key_cell(inputs.left_keys, pairs[i].0, d) == #[trigger] key_cell(
                    inputs.left_keys,
                    pairs[j].0,
                    d,
                )) implies !comes_before(
            key_cell(inputs.left_keys, pairs[j].0, c),
            key_cell(inputs.left_keys, pairs[i].0, c),
            c == inputs.left_keys.on@.len() && inputs.direction == AsOfJoinDirection::Forward,
        ) by {
            laws::output_is_in_key_order(inputs, lo, ro, join_type, i, j);
            rows_in_order(inputs.left_keys, inputs.direction, pairs[i].0, pairs[j].0, c);
        }
    }
    repeated_rows(output, schema, inputs, columns, pairs);
    assert(pairs_nearest_rows(inputs, join_type, pairs));
}

/// The cells of an output, where it holds some pairs.
proof fn repeated_rows(
    output: RecordBatch,
    schema: Arc<Schema>,
    inputs: AsOfInputs,
    columns: Seq<ColumnIndex>,
    pairs: Seq<(int, Option<int>)>,
)
    requires
        join::is_output(
            output,
            schema,
            inputs.left,
            inputs.right,
            join::left_of(pairs),
            join::right_of(pairs),
            columns,
        ),
    ensures
        holds_pairs(output, inputs, columns, pairs),
{
    assert forall|c: int, k: int|
        0 <= c < output.schema.fields@.len() && 0 <= k < pairs.len() implies (
    #[trigger] output.columns@[c]@[k]) == repeated::pair_cell(
        inputs.left,
        inputs.right,
        pairs[k],
        columns[c],
    ) by {
        assert(output.columns@[c]@ == join::output_cells(
            inputs.left,
            inputs.right,
            join::left_of(pairs),
            join::right_of(pairs),
            columns[c],
        ));
    }
}

/// Rows that are in order by their keys are so key by key.
proof fn rows_in_order(
    keys: KeyColumns,
    direction: AsOfJoinDirection,
    earlier: int,
    later: int,
    c: int,
)
    requires
        !order::row_less(
            array::row_of(keys.all(), later),
            array::row_of(keys.all(), earlier),
            sort::key_options(keys.on@.len(), direction),
        ),
        0 <= c <= keys.on@.len(),
        forall|d: int|
            0 <= d < c ==> key_cell(keys, earlier, d) == #[trigger] key_cell(keys, later, d),
    ensures
        !comes_before(
            key_cell(keys, later, c),
            key_cell(keys, earlier, c),
            c == keys.on@.len() && direction == AsOfJoinDirection::Forward,
        ),
{
    let a = array::row_of(keys.all(), later);
    let b = array::row_of(keys.all(), earlier);
    let options = sort::key_options(keys.on@.len(), direction);
    assert forall|d: int| 0 <= d <= keys.on@.len() implies a[d] == #[trigger] key_cell(
        keys,
        later,
        d,
    ) && b[d] == key_cell(keys, earlier, d) by {
        if d < keys.on@.len() {
            assert(keys.all()[d] == keys.on@[d]);
        } else {
            assert(keys.all()[d] == keys.asof);
        }
    }
    assert(a.take(c) =~= b.take(c)) by {
        assert forall|d: int| 0 <= d < c implies a.take(c)[d] == b.take(c)[d] by {
            assert(key_cell(keys, earlier, d) == key_cell(keys, later, d));
            assert(a[d] == b[d]);
        }
    }
    assert(a[c] == key_cell(keys, later, c));
    assert(!order::cell_less(a[c], b[c], options[c]));
}

/// A join returns, for every left row at most once and in the order of the left keys, the
/// nearest right row that qualifies: a left join keeps the left rows that have none, an
/// inner join drops them. Each output row holds the cells of the rows that it pairs.
pub proof fn joins_pair_left_rows_with_the_nearest(
    left: RecordBatch,
    right: RecordBatch,
    left_keys: KeyColumns,
    right_keys: KeyColumns,
    schema: Arc<Schema>,
    columns: Vec<ColumnIndex>,
    condition: AsOfJoinCondition,
    join_type: JoinType,
    null_equality: NullEquality,
    output: RecordBatch,
)
    requires
        call_ensures(
            join_asof,
            (
                left,
                right,
                Ok::<KeyColumns, JoinError>(left_keys),
                Ok::<KeyColumns, JoinError>(right_keys),
                schema,
                columns,
                condition,
                join_type,
                null_equality,
            ),
            Ok::<RecordBatch, JoinError>(output),
        ),
        ({
            let inputs = AsOfInputs {
                left,
                right,
                left_keys,
                right_keys,
                direction: condition.direction,
                strict: condition.strict,
                null_equality,
            };
            inputs.wf()
        }),
        same_key_types(left_keys, right_keys),
        join_type == JoinType::Inner || join_type == JoinType::Left,
    ensures
        output.schema == schema,
        right.num_rows <= u32::MAX,
        ({
            let inputs = AsOfInputs {
                left,
                right,
                left_keys,
                right_keys,
                direction: condition.direction,
                strict: condition.strict,
                null_equality,
            };
            exists|pairs: Seq<(int, Option<int>)>| #[trigger]
                pairs_nearest_rows(inputs, join_type, pairs) && holds_pairs(
                    output,
                    inputs,
                    columns@,
                    pairs,
                )
        }),
{
    let inputs = AsOfInputs {
        left,
        right,
        left_keys,
        right_keys,
        direction: condition.direction,
        strict: condition.strict,
        null_equality,
    };
    repeated::outputs_are_returned(inputs, schema, columns@, join_type, output);
    returned_rows_are_nearest_pairs(inputs, schema, columns@, join_type, output);
}

/// A join by given key columns returns the same.
pub proof fn joins_on_keys_pair_left_rows_with_the_nearest(
    inputs: AsOfInputs,
    schema: Arc<Schema>,
    columns: Vec<ColumnIndex>,
    join_type: JoinType,
    output: RecordBatch,
)
    requires
        call_ensures(
            join_asof_on_keys,
            (
                inputs.left,
                inputs.right,
                inputs.left_keys.on,
                inputs.left_keys.asof,
                inputs.right_keys.on,
                inputs.right_keys.asof,
                schema,
                columns,
                inputs.direction,
                inputs.strict,
                join_type,
                inputs.null_equality,
            ),
            Ok::<RecordBatch, JoinError>(output),
        ),
        inputs.wf(),
        same_key_types(inputs.left_keys, inputs.right_keys),
        join_type == JoinType::Inner || join_type == JoinType::Left,
    ensures
        output.schema == schema,
        exists|pairs: Seq<(int, Option<int>)>| #[trigger]
            pairs_nearest_rows(inputs, join_type, pairs) && holds_pairs(
                output,
                inputs,
                columns@,
                pairs,
            ),
{
    assert(inputs.left_keys == (KeyColumns {
        on: inputs.left_keys.on,
        asof: inputs.left_keys.asof,
    }));
    assert(inputs.right_keys == (KeyColumns {
        on: inputs.right_keys.on,
        asof: inputs.right_keys.asof,
    }));
    repeated::outputs_are_returned(inputs, schema, columns@, join_type, output);
    returned_rows_are_nearest_pairs(inputs, schema, columns@, join_type, output);
}

/// A join refuses a right input whose rows cannot be numbered, then keys that could not be
/// evaluated, the left input's first. Otherwise it returns rows, or says that they do not
/// fit the asked schema.
pub proof fn joins_report_what_they_cannot_join(
    left: RecordBatch,
    right: RecordBatch,
    left_keys: Result<KeyColumns, JoinError>,
    right_keys: Result<KeyColumns, JoinError>,
    schema: Arc<Schema>,
    columns: Vec<ColumnIndex>,
    condition: AsOfJoinCondition,
    join_type: JoinType,
    null_equality: NullEquality,
    result: Result<RecordBatch, JoinError>,
)
    requires
        call_ensures(
            join_asof,
            (
                left,
                right,
                left_keys,
                right_keys,
                schema,
                columns,
                condition,
                join_type,
                null_equality,
            ),
            result,
        ),
    ensures
        right.num_rows > u32::MAX ==> result == Err::<RecordBatch, JoinError>(
            JoinError::TooManyRightRows,
        ),
        right.num_rows <= u32::MAX && left_keys is Err ==> result == Err::<RecordBatch, JoinError>(
            left_keys->Err_0,
        ),
        right.num_rows <= u32::MAX && left_keys is Ok && right_keys is Err ==> result == Err::<
            RecordBatch,
            JoinError,
        >(right_keys->Err_0),
        right.num_rows <= u32::MAX && left_keys is Ok && right_keys is Ok && result is Err
            ==> result->Err_0 == JoinError::InvalidRecordBatch,
{
}

/// A join whose result is there is emitted from its first row on, as many rows at a time as
/// were asked for; one without rows, or that failed, ends the stream.
pub proof fn results_are_emitted_in_batches(
    result: Result<RecordBatch, JoinError>,
    batch_size: usize,
    next: (Step, AsOfJoinStreamState),
)
    requires
        call_ensures(finish_loading, (result, batch_size), next),
    ensures
        result is Err ==> next.0 == Step::Fail(result->Err_0) && next.1
            == AsOfJoinStreamState::Done,
        result is Ok && result->Ok_0.num_rows == 0 ==> next.0 == Step::End && next.1
            == AsOfJoinStreamState::Done,
        result is Ok && result->Ok_0.num_rows > 0 ==> next.0 is Emit
            && next.0->Emit_0.num_rows == if result->Ok_0.num_rows < batch_size {
            result->Ok_0.num_rows
        } else {
            batch_size
        } && next.1 == (AsOfJoinStreamState::Draining {
            batch: result->Ok_0,
            offset: next.0->Emit_0.num_rows,
        }),
{
}

/// What a stream emits next are the rows behind those that it has emitted, each cell as it
/// was joined.
pub proof fn streams_emit_consecutive_rows(
    joined: RecordBatch,
    offset: usize,
    batch_size: usize,
    event: Event,
    step: Step,
    next: AsOfJoinStreamState,
    c: int,
    k: int,
)
    requires
        joined.wf(),
        stream::advances(
            AsOfJoinStreamState::Draining { batch: joined, offset },
            batch_size,
            event,
            step,
            next,
        ),
        0 <= c < joined.columns@.len(),
    ensures
        offset >= joined.num_rows ==> step == Step::End && next == AsOfJoinStreamState::Done,
        offset < joined.num_rows ==> step is Emit && {
            let emitted = step->Emit_0;
            &&& emitted.num_rows == if joined.num_rows - offset < batch_size {
                joined.num_rows - offset
            } else {
                batch_size as int
            }
            &&& emitted.schema == joined.schema
            &&& 0 <= k < emitted.num_rows ==> emitted.columns@[c]@[k] == joined.columns@[c]@[offset
                + k]
            &&& next == (AsOfJoinStreamState::Draining {
                batch: joined,
                offset: (offset + emitted.num_rows) as usize,
            })
        },
{
    assert(joined.columns@[c]@.len() == joined.num_rows);
    if offset < joined.num_rows {
        assert(step->Emit_0.columns@[c]@ == joined.columns@[c]@.subrange(
            offset as int,
            offset + step->Emit_0.num_rows,
        ));
    }
}

/// A stream waits for its left input, then for its right input, and fails with whatever
/// kept it from reading one. Once it has ended it stays so.
pub proof fn streams_wait_for_both_inputs(
    task: JoinTask,
    left: Option<JoinInput>,
    batch_size: usize,
    event: Event,
    step: Step,
    next: AsOfJoinStreamState,
)
    requires
        stream::advances(
            AsOfJoinStreamState::Loading { task, left },
            batch_size,
            event,
            step,
            next,
        ),
    ensures
        event is Pending ==> step == Step::Pending && next == (AsOfJoinStreamState::Loading {
            task,
            left,
        }),
        event is Collected && event->Collected_0 is Err ==> step == Step::Fail(
            event->Collected_0->Err_0,
        ) && next == AsOfJoinStreamState::Done,
        event is Collected && event->Collected_0 is Ok && left is None && (forall|b: int, c: int|
            0 <= b < event->Collected_0->Ok_0.batches@.len() && 0 <= c
                < task.left_schema.fields@.len() ==> fits_under(
                #[trigger] event->Collected_0->Ok_0.batches@[b].columns@[c],
                task.left_schema.fields@[c],
            )) ==> step == Step::CollectRight,
        event is Collected && event->Collected_0 is Ok && left is None ==> {
            ||| step == Step::Fail(JoinError::InvalidRecordBatch) && next
                == AsOfJoinStreamState::Done
            ||| {
                &&& step == Step::CollectRight
                &&& next is Loading
                &&& next->task == task
                &&& next->left is Some
                &&& next->left->0.keys == event->Collected_0->Ok_0.keys
                &&& batch::is_concatenation(
                    next->left->0.batch,
                    task.left_schema,
                    event->Collected_0->Ok_0.batches@,
                )
            }
        },
{
    if event is Collected && event->Collected_0 is Ok && left is None {
        let batches = event->Collected_0->Ok_0.batches@;
        if forall|b: int, c: int|
            0 <= b < batches.len() && 0 <= c < task.left_schema.fields@.len() ==> fits_under(
                #[trigger] batches[b].columns@[c],
                task.left_schema.fields@[c],
            ) {
            assert forall|b: int| 0 <= b < batches.len() implies batch::batch_conforms(
                #[trigger] batches[b],
                *task.left_schema,
            ) by {
                assert forall|c: int|
                    0 <= c < task.left_schema.fields@.len() implies batch::column_conforms(
                    #[trigger] batches[b].columns@[c],
                    task.left_schema.fields@[c],
                ) by {
                    assert(fits_under(batches[b].columns@[c], task.left_schema.fields@[c]));
                }
            }
        }
    }
}

/// Once both inputs are there, a stream joins them by its own task: with its keys, its
/// condition, its type and its null equality, into the columns of its output.
pub proof fn streams_join_by_their_task(
    task: JoinTask,
    left: JoinInput,
    batch_size: usize,
    collected: CollectedInput,
    step: Step,
    next: AsOfJoinStreamState,
)
    requires
        stream::advances(
            AsOfJoinStreamState::Loading { task, left: Some(left) },
            batch_size,
            Event::Collected(Ok(collected)),
            step,
            next,
        ),
        step != Step::Fail(JoinError::InvalidRecordBatch),
    ensures
        exists|right: RecordBatch, result: Result<RecordBatch, JoinError>|
            #![trigger joined_by(task, left, right, collected.keys, result)]
            {
                &&& batch::is_concatenation(right, task.right_schema, collected.batches@)
                &&& joined_by(task, left, right, collected.keys, result)
                &&& result is Err ==> step == Step::Fail(result->Err_0) && next
                    == AsOfJoinStreamState::Done
                &&& result is Ok && result->Ok_0.num_rows == 0 ==> step == Step::End && next
                    == AsOfJoinStreamState::Done
                &&& result is Ok && result->Ok_0.num_rows > 0 ==> step is Emit && next is Draining
                    && next->batch == result->Ok_0
            },
{
    let right = choose|right: RecordBatch| #[trigger]
        batch::is_concatenation(right, task.awaited(Some(left)), collected.batches@)
            && exists|result: Result<RecordBatch, JoinError>| #[trigger]
            task.may_return(
                left,
                (JoinInput { batch: right, keys: collected.keys }),
                result,
            ) && stream::finishes(result, batch_size, step, next);
    let result = choose|result: Result<RecordBatch, JoinError>| #[trigger]
        task.may_return(
            left,
            (JoinInput { batch: right, keys: collected.keys }),
            result,
        ) && stream::finishes(result, batch_size, step, next);
    assert(joined_by(task, left, right, collected.keys, result));
}

/// Whether a result is what joining two inputs by a task returns.
pub open spec fn joined_by(
    task: JoinTask,
    left: JoinInput,
    right: RecordBatch,
    right_keys: Result<KeyColumns, JoinError>,
    result: Result<RecordBatch, JoinError>,
) -> bool {
    join::join_returns(
        left.batch,
        right,
        left.keys,
        right_keys,
        task.schema,
        task.column_indices@,
        task.asof_condition.direction,
        task.asof_condition.strict,
        task.join_type,
        task.null_equality,
        result,
    )
}

/// A new stream waits for the left input of its task.
pub proof fn new_streams_wait_for_the_left_input(
    schema: Arc<Schema>,
    task: JoinTask,
    batch_size: usize,
    made: AsOfJoinStream,
)
    requires
        call_ensures(AsOfJoinStream::new, (schema, task, batch_size), made),
    ensures
        made.schema == schema,
        made.batch_size == batch_size,
        made.state is Loading,
        made.state->task == task,
        made.state->left is None,
{
}

/// A stream that has ended stays so.
pub proof fn ended_streams_stay_ended(
    batch_size: usize,
    event: Event,
    step: Step,
    next: AsOfJoinStreamState,
)
    requires
        stream::advances(AsOfJoinStreamState::Done, batch_size, event, step, next),
    ensures
        step == Step::End,
        next == AsOfJoinStreamState::Done,
{
}

/// A row's equality keys may match exactly where none of them is null, or where nulls equal
/// nulls; a single key, where it is not null.
pub proof fn null_keys_match_only_where_nulls_are_equal(
    columns: Vec<Array>,
    num_rows: usize,
    null_equality: NullEquality,
    valid: Vec<bool>,
    column: Array,
    column_valid: Vec<bool>,
    row: int,
)
    requires
        call_ensures(build_partition_validity, (&columns, num_rows, null_equality), valid),
        call_ensures(build_validity, (&column, num_rows), column_valid),
        0 <= row < num_rows,
    ensures
        valid@.len() == num_rows,
        column_valid@.len() == num_rows,
        valid@[row] <==> null_equality == NullEquality::NullEqualsNull || forall|k: int|
            0 <= k < columns@.len() ==> (#[trigger] columns@[k])@[row] is Some,
        column_valid@[row] <==> column@[row] is Some,
{
    let cells = array::row_of(columns@, row);
    assert forall|k: int| 0 <= k < columns@.len() implies cells[k] == (
    #[trigger] columns@[k])@[row] by {}
    if forall|k: int| 0 <= k < columns@.len() ==> (#[trigger] columns@[k])@[row] is Some {
        assert forall|k: int| 0 <= k < cells.len() implies (#[trigger] cells[k]) is Some by {
            assert(columns@[k]@[row] is Some);
        }
    }
    if forall|k: int| 0 <= k < cells.len() ==> (#[trigger] cells[k]) is Some {
        assert forall|k: int| 0 <= k < columns@.len() implies (
        #[trigger] columns@[k])@[row] is Some by {
            assert(cells[k] is Some);
        }
    }
}

/// A merge that keeps every left row gives each, in order, the last right row that is
/// allowed as its match, and none where none is.
pub proof fn merges_take_the_last_candidate(
    left: SortedKeyValues,
    right: SortedKeyValues,
    strict: bool,
    merged: (Vec<Option<u64>>, Vec<Option<u32>>),
    row: int,
    other: int,
)
    requires
        right@.len() <= u32::MAX,
        left@.len() <= u64::MAX,
        call_ensures(merge_sorted, (&left, &right, JoinType::Left, strict), merged),
        0 <= row < left@.len(),
        0 <= other < right@.len(),
    ensures
        merged.0@.len() == left@.len(),
        merged.1@.len() == left@.len(),
        merged.0@[row] == Some(row as u64),
        merged.1@[row] is Some ==> keys::candidate(
            left@,
            row,
            right@,
            merged.1@[row]->0 as int,
            strict,
        ),
        keys::candidate(left@, row, right@, other, strict) ==> merged.1@[row] is Some && other
            <= merged.1@[row]->0,
{
    kept_left_rows(left@, right@, left@.len(), strict, row);
    keys::last_candidate_is_last(left@, row, right@, right@.len(), strict);
}

/// What a left join keeps of the first left rows, one by one.
proof fn kept_left_rows(left: KeyView, right: KeyView, n: nat, strict: bool, row: int)
    requires
        0 <= row < n,
    ensures
        merge::join_pairs(left, right, n, JoinType::Left, strict).len() == n,
        merge::join_pairs(left, right, n, JoinType::Left, strict)[row] == (
            row,
            keys::last_candidate(left, row, right, right.len(), strict),
        ),
    decreases n,
{
    if n > 1 {
        kept_left_rows(
            left,
            right,
            (n - 1) as nat,
            strict,
            if row < n - 1 {
                row
            } else {
                0
            },
        );
    } else {
        reveal_with_fuel(merge::join_pairs, 2);
    }
}

/// A new column has no slots, and the asked type.
pub proof fn new_columns_are_empty(data_type: DataType, column: Array)
    requires
        call_ensures(Array::new_empty, (data_type,), column),
    ensures
        column@.len() == 0,
        column.data_type() == data_type,
{
}

/// Encoded keys say of two rows what the keys say: a row may match exactly where its keys
/// are there; rows are of one partition exactly where every equality key is the same; and a
/// right row passes for a left row exactly where their as-of keys satisfy the inequality.
pub proof fn encoded_keys_say_what_the_keys_say(
    left_keys: KeyColumns,
    left_rows: usize,
    right_keys: KeyColumns,
    right_rows: usize,
    direction: AsOfJoinDirection,
    null_equality: NullEquality,
    strict: bool,
    left: SortedKeyValues,
    right: SortedKeyValues,
    left_row: usize,
    right_row: usize,
    joinable: bool,
    partitions: KeyOrder,
    passes: bool,
    left_asof: int,
    right_asof: int,
)
    requires
        left_keys.wf(left_rows as nat),
        right_keys.wf(right_rows as nat),
        same_key_types(left_keys, right_keys),
        left_row < left_rows,
        right_row < right_rows,
        call_ensures(
            SortedKeyValues::try_new,
            (left_keys, left_rows, direction, null_equality),
            Ok::<SortedKeyValues, JoinError>(left),
        ),
        call_ensures(
            SortedKeyValues::try_new,
            (right_keys, right_rows, direction, null_equality),
            Ok::<SortedKeyValues, JoinError>(right),
        ),
        call_ensures(SortedKeyValues::is_joinable, (&left, left_row), joinable),
        call_ensures(
            SortedKeyValues::partition_order,
            (&left, left_row, &right, right_row),
            partitions,
        ),
        call_ensures(
            SortedKeyValues::passes_asof,
            (&right, right_row, &left, left_row, strict),
            passes,
        ),
    ensures
        joinable <==> left_keys.asof@[left_row as int] is Some && (null_equality
            == NullEquality::NullEqualsNull || forall|k: int|
            0 <= k < left_keys.on@.len() ==> (#[trigger] left_keys.on@[k])@[left_row as int] is Some),
        partitions == KeyOrder::Equal <==> forall|k: int|
            0 <= k < left_keys.on@.len() ==> (#[trigger] left_keys.on@[k])@[left_row as int]
                == right_keys.on@[k]@[right_row as int],
        left_keys.asof@[left_row as int] == Some(Value::Int(left_asof))
            && right_keys.asof@[right_row as int] == Some(Value::Int(right_asof)) ==> (passes
            <==> is_searched(left_asof, right_asof, direction, strict)),
{
    let (l, r) = (left_row as int, right_row as int);
    let (nl, nr) = (left_rows as nat, right_rows as nat);
    let lon = left_keys.on_row(l);
    let ron = right_keys.on_row(r);
    assert(left_keys.on_types() =~= right_keys.on_types()) by {
        assert forall|k: int| 0 <= k < left_keys.on@.len() implies (
        #[trigger] left_keys.on_types()[k]) == right_keys.on_types()[k] by {
            assert(left_keys.on@[k].data_type() == right_keys.on@[k].data_type());
        }
    }
    assert(keys::first_rows(nl)[l] == l);
    assert(keys::first_rows(nr)[r] == r);
    assert forall|k: int| 0 <= k < left_keys.on@.len() implies lon[k] == (
    #[trigger] left_keys.on@[k])@[l] && ron[k] == right_keys.on@[k]@[r] by {}
    if forall|k: int| 0 <= k < left_keys.on@.len() ==> (#[trigger] left_keys.on@[k])@[l] is Some {
        assert forall|k: int| 0 <= k < lon.len() implies (#[trigger] lon[k]) is Some by {
            assert(left_keys.on@[k]@[l] is Some);
        }
    }
    if forall|k: int| 0 <= k < lon.len() ==> (#[trigger] lon[k]) is Some {
        assert forall|k: int| 0 <= k < left_keys.on@.len() implies (
        #[trigger] left_keys.on@[k])@[l] is Some by {
            assert(lon[k] is Some);
        }
    }
    if forall|k: int|
        0 <= k < left_keys.on@.len() ==> (#[trigger] left_keys.on@[k])@[l]
            == right_keys.on@[k]@[r] {
        assert forall|k: int| 0 <= k < lon.len() implies lon[k] == ron[k] by {
            assert(left_keys.on@[k]@[l] == right_keys.on@[k]@[r]);
        }
        assert(lon =~= ron);
    }
    if lon == ron {
        assert forall|k: int| 0 <= k < left_keys.on@.len() implies (
        #[trigger] left_keys.on@[k])@[l] == right_keys.on@[k]@[r] by {
            assert(lon[k] == ron[k]);
        }
    }
    array::row_of_fits(right_keys.on@, nr, r);
    if left_keys.on@.len() > 0 {
        asof::on_keeps_order(left_keys, nl, direction, l, ron);
    } else {
        assert(lon =~= ron);
    }
    asof::asof_keeps_order(left_keys, nl, direction, l, right_keys.asof_cell(r));
}

/// A run of one partition holds the rows that agree with its first row on every equality
/// key, up to the first one that does not.
pub proof fn partitions_end_where_keys_change(
    own: KeyColumns,
    num_rows: usize,
    direction: AsOfJoinDirection,
    null_equality: NullEquality,
    sorted: SortedKeyValues,
    start: usize,
    end: usize,
    row: int,
)
    requires
        own.wf(num_rows as nat),
        call_ensures(
            SortedKeyValues::try_new,
            (own, num_rows, direction, null_equality),
            Ok::<SortedKeyValues, JoinError>(sorted),
        ),
        start < num_rows,
        call_ensures(SortedKeyValues::partition_end, (&sorted, start), end),
    ensures
        start < end <= num_rows,
        start <= row < end ==> own.on_row(row) == own.on_row(start as int),
        end < num_rows ==> own.on_row(end as int) != own.on_row(start as int),
{
    let n = num_rows as nat;
    let s = start as int;
    assert(keys::first_rows(n)[s] == s);
    array::row_of_fits(own.on@, n, s);
    if start <= row < end {
        assert(sorted@.same_partition(s, sorted@, row));
        assert(keys::first_rows(n)[row] == row);
        if own.on@.len() > 0 {
            asof::on_keeps_order(own, n, direction, row, own.on_row(s));
        } else {
            assert(own.on_row(row) =~= own.on_row(s));
        }
    }
    if end < num_rows {
        assert(keys::first_rows(n)[end as int] == end);
        if own.on@.len() > 0 {
            asof::on_keeps_order(own, n, direction, end as int, own.on_row(s));
        }
    }
}

/// Sorting an input puts its rows in the order of their keys and loses none: every row
/// comes, with its keys, exactly once.
pub proof fn sorted_inputs_keep_every_row(
    source: RecordBatch,
    own: KeyColumns,
    direction: AsOfJoinDirection,
    sorted: Result<(RecordBatch, KeyColumns), JoinError>,
)
    requires
        source.wf(),
        own.wf(source.num_rows as nat),
        call_ensures(sort_join_input, (&source, own, direction), sorted),
    ensures
        sorted is Ok,
        (sorted->Ok_0).0.num_rows == source.num_rows,
        exists|places: Seq<u32>| #[trigger]
            puts_in_order(source, own, direction, (sorted->Ok_0).0, (sorted->Ok_0).1, places),
{
    let places = choose|places: Seq<u32>| #[trigger]
        sort::sorts_side(places, own, source.num_rows as nat, direction) && batch::holds_rows(
            (sorted->Ok_0).0,
            source,
            places,
        ) && sort::keys_hold_rows((sorted->Ok_0).1, own, places);
    let after = (sorted->Ok_0).0;
    let keys_after = (sorted->Ok_0).1;
    assert forall|k: int, c: int|
        0 <= k < places.len() && 0 <= c < source.columns@.len() implies (
    #[trigger] after.columns@[c]@[k]) == source.columns@[c]@[places[k] as int] by {
        assert(after.columns@[c]@ == batch::taken(source.columns@[c]@, places));
    }
    assert forall|k: int, c: int|
        0 <= k < places.len() && 0 <= c <= own.on@.len() implies #[trigger] key_cell(
        keys_after,
        k,
        c,
    ) == key_cell(own, places[k] as int, c) by {
        if c < own.on@.len() {
            assert(sort::column_holds_rows(keys_after.on@[c], own.on@[c], places));
        }
    }
    let pairs = Seq::new(places.len(), |k: int| (places[k] as int, None::<int>));
    assert(in_key_order(own, pairs, direction)) by {
        assert forall|i: int, j: int, c: int|
            #![trigger key_cell(own, pairs[i].0, c), key_cell(own, pairs[j].0, c)]
            0 <= i < j < pairs.len() && 0 <= c <= own.on@.len() && (forall|d: int|
                0 <= d < c ==> key_cell(own, pairs[i].0, d) == #[trigger] key_cell(
                    own,
                    pairs[j].0,
                    d,
                )) implies !comes_before(
            key_cell(own, pairs[j].0, c),
            key_cell(own, pairs[i].0, c),
            c == own.on@.len() && direction == AsOfJoinDirection::Forward,
        ) by {
            assert(!order::row_less(
                array::row_of(own.all(), places[j] as int),
                array::row_of(own.all(), places[i] as int),
                sort::key_options(own.on@.len(), direction),
            ));
            rows_in_order(own, direction, pairs[i].0, pairs[j].0, c);
        }
    }
    assert(puts_in_order(source, own, direction, after, keys_after, places));
}

/// Whether rows and keys are those of a source, taken at the given places, each once, in the
/// order of the keys.
pub open spec fn puts_in_order(
    source: RecordBatch,
    own: KeyColumns,
    direction: AsOfJoinDirection,
    after: RecordBatch,
    keys_after: KeyColumns,
    places: Seq<u32>,
) -> bool {
    &&& places.len() == source.num_rows
    &&& forall|i: int, j: int|
        0 <= i < j < places.len() ==> #[trigger] places[i] != #[trigger] places[j]
    &&& forall|k: int| 0 <= k < places.len() ==> (#[trigger] places[k]) < source.num_rows
    &&& forall|k: int, c: int|
        0 <= k < places.len() && 0 <= c < source.columns@.len() ==> (
        #[trigger] after.columns@[c]@[k]) == source.columns@[c]@[places[k] as int]
    &&& forall|k: int, c: int|
        0 <= k < places.len() && 0 <= c <= own.on@.len() ==> #[trigger] key_cell(keys_after, k, c)
            == key_cell(own, places[k] as int, c)
    &&& in_key_order(
        own,
        Seq::new(places.len(), |k: int| (places[k] as int, None::<int>)),
        direction,
    )
}

/// Rows are matched only where every one of the join's equality predicates holds of them: of
/// inputs that are collected for a task, the operands of each predicate evaluate to values
/// that are the same in both rows.
pub proof fn matched_rows_satisfy_every_equality_predicate<F, G>(
    task: JoinTask,
    left_batches: Vec<RecordBatch>,
    right_batches: Vec<RecordBatch>,
    left_evaluate: F,
    right_evaluate: G,
    left_rows: usize,
    right_rows: usize,
    left_input: CollectedInput,
    right_input: CollectedInput,
    inputs: AsOfInputs,
    left_row: int,
    right_row: int,
    k: int,
) where
    F: Fn(PhysicalExprRef) -> Result<ColumnarValue, JoinError>,
    G: Fn(PhysicalExprRef) -> Result<ColumnarValue, JoinError>,

    requires
        call_ensures(
            JoinTask::collect_input::<F>,
            (&task, JoinSide::Left, left_batches, &left_evaluate),
            left_input,
        ),
        call_ensures(
            JoinTask::collect_input::<G>,
            (&task, JoinSide::Right, right_batches, &right_evaluate),
            right_input,
        ),
        left_rows == batch::total_rows(left_batches@),
        right_rows == batch::total_rows(right_batches@),
        left_input.keys == Ok::<KeyColumns, JoinError>(inputs.left_keys),
        right_input.keys == Ok::<KeyColumns, JoinError>(inputs.right_keys),
        inputs.wf(),
        inputs.left.num_rows == left_rows,
        inputs.right.num_rows == right_rows,
        0 <= left_row < left_rows,
        0 <= right_row < right_rows,
        inputs.qualifies(left_row, right_row),
        0 <= k < task.on@.len(),
    ensures
        exists|left: ColumnarValue, right: ColumnarValue|
            #![trigger evaluates(left_evaluate, task.on@[k].0, left), evaluates(right_evaluate, task.on@[k].1, right)]
            evaluates(left_evaluate, task.on@[k].0, left) && evaluates(
                right_evaluate,
                task.on@[k].1,
                right,
            ) && cell_in(left, left_row) == cell_in(right, right_row) && (cell_in(
                left,
                left_row,
            ) is Some || inputs.null_equality == NullEquality::NullEqualsNull),
{
    key_laws::collected_inputs_have_the_keys_of_the_task(
        task,
        JoinSide::Left,
        left_batches,
        left_evaluate,
        left_rows,
        left_input,
    );
    key_laws::collected_inputs_have_the_keys_of_the_task(
        task,
        JoinSide::Right,
        right_batches,
        right_evaluate,
        right_rows,
        right_input,
    );
    rows_qualify_where_every_predicate_holds(inputs, left_row, right_row, 0, 0);
    let left_column = inputs.left_keys.on@[k];
    let right_column = inputs.right_keys.on@[k];
    assert(key_laws::holds_evaluated(
        left_input.keys->Ok_0.on@[k],
        left_evaluate,
        key_laws::operand_of(task.on@, JoinSide::Left, k),
        left_rows as nat,
    ));
    assert(key_laws::holds_evaluated(
        right_input.keys->Ok_0.on@[k],
        right_evaluate,
        key_laws::operand_of(task.on@, JoinSide::Right, k),
        right_rows as nat,
    ));
    let left = choose|left: ColumnarValue| #[trigger]
        call_ensures(left_evaluate, (task.on@[k].0,), Ok::<ColumnarValue, JoinError>(left))
            && key_laws::is_value_of(left_column, left, left_rows as nat);
    let right = choose|right: ColumnarValue| #[trigger]
        call_ensures(right_evaluate, (task.on@[k].1,), Ok::<ColumnarValue, JoinError>(right))
            && key_laws::is_value_of(right_column, right, right_rows as nat);
    assert(left_column@[left_row] == cell_in(left, left_row));
    assert(right_column@[right_row] == cell_in(right, right_row));
    assert(evaluates(left_evaluate, task.on@[k].0, left));
    assert(evaluates(right_evaluate, task.on@[k].1, right));
}

/// Whether an expression evaluates to a value.
pub open spec fn evaluates<F>(evaluate: F, expr: PhysicalExprRef, value: ColumnarValue) -> bool where
    F: Fn(PhysicalExprRef) -> Result<ColumnarValue, JoinError>,
 {
    call_ensures(evaluate, (expr,), Ok::<ColumnarValue, JoinError>(value))
}

/// What a value is in a row.
pub open spec fn cell_in(value: ColumnarValue, row: int) -> Option<Value> {
    match value {
        ColumnarValue::Array(column) => column@[row],
        ColumnarValue::Scalar(scalar) => scalar@,
    }
}

} // verus!
