//! Sorting a join input by its keys.
use crate::array;
use crate::array::Array;
use crate::batch;
use crate::batch::{take, take_record_batch, RecordBatch};
use crate::condition;
use crate::condition::AsOfJoinDirection;
use crate::error::JoinError;
use crate::eval::KeyColumns;
use crate::order::SortOptions;
use crate::rows;
use crate::rows::lexsort_to_indices;
use vstd::prelude::*;

verus! {

/// The sort order of the keys: equality keys ascend, the as-of key follows the
/// search direction, nulls come last.
pub open spec fn key_options(n: nat, direction: AsOfJoinDirection) -> Seq<SortOptions> {
    rows::same_options(SortOptions { descending: false, nulls_first: false }, n).push(
        condition::sort_options_of(direction),
    )
}

/// Whether an order of the rows of one side sorts it by its join keys.
pub open spec fn sorts_side(
    row_order: Seq<u32>,
    keys: KeyColumns,
    num_rows: nat,
    direction: AsOfJoinDirection,
) -> bool {
    &&& rows::is_permutation(row_order, num_rows)
    &&& rows::sorts(row_order, keys.all(), key_options(keys.on@.len(), direction))
}

/// Whether one column holds the given rows of another, in that order.
pub open spec fn column_holds_rows(column: Array, source: Array, rows: Seq<u32>) -> bool {
    column@ == batch::taken(source@, rows) && column.data_type() == source.data_type()
}

/// Whether key columns hold the keys of the given rows of others, in that order.
pub open spec fn keys_hold_rows(keys: KeyColumns, source: KeyColumns, rows: Seq<u32>) -> bool {
    &&& keys.on@.len() == source.on@.len()
    &&& forall|k: int|
        0 <= k < source.on@.len() ==> column_holds_rows(
            #[trigger] keys.on@[k],
            source.on@[k],
            rows,
        )
    &&& column_holds_rows(keys.asof, source.asof, rows)
}

/// Sorts one side by its equality keys, then by its as-of key: the rows, and the keys
/// along with them.
pub fn sort_join_input(batch: &RecordBatch, keys: KeyColumns, direction: AsOfJoinDirection) -> (
result: Result<(RecordBatch, KeyColumns), JoinError>)
    requires
        batch.wf(),
        keys.wf(batch.num_rows as nat),
        batch.num_rows <= u32::MAX,
    ensures
        result is Ok,
        (result->Ok_0).0.wf(),
        (result->Ok_0).1.wf(batch.num_rows as nat),
        exists|row_order: Seq<u32>| #[trigger]
            sorts_side(row_order, keys, batch.num_rows as nat, direction) && batch::holds_rows(
                (result->Ok_0).0,
                *batch,
                row_order,
            ) && keys_hold_rows((result->Ok_0).1, keys, row_order),
{
    let ghost given = keys;
    let KeyColumns { on, asof } = keys;
    let mut columns = on;
    let mut options: Vec<SortOptions> = Vec::new();
    for k in 0..columns.len()
        invariant
            options@ == rows::same_options(
                SortOptions { descending: false, nulls_first: false },
                k as nat,
            ),
    {
        options.push(SortOptions::new(false, false));
        assert(options@ =~= rows::same_options(
            SortOptions { descending: false, nulls_first: false },
            (k + 1) as nat,
        ));
    }
    columns.push(asof);
    options.push(direction.sort_options());
    assert(columns@ == given.all());
    assert(options@ == key_options(given.on@.len(), direction));
    assert forall|c: int| 0 <= c < columns@.len() implies (#[trigger] columns@[c])@.len()
        == batch.num_rows by {
        if c < given.on@.len() {
            assert(columns@[c] == given.on@[c]);
        }
    }
    let row_order = match lexsort_to_indices(&columns, &options) {
        Ok(row_order) => row_order,
        Err(_) => return Err(JoinError::Arrow),
    };
    assert(sorts_side(row_order@, given, batch.num_rows as nat, direction));
    let mut sorted: Vec<Array> = Vec::new();
    for c in 0..columns.len() - 1
        invariant
            columns@.len() > 0,
            array::all_of_length(columns@, batch.num_rows as nat),
            forall|k: int| 0 <= k < row_order@.len() ==> (#[trigger] row_order@[k]) < batch.num_rows,
            sorted@.len() == c,
            forall|d: int|
                0 <= d < c ==> column_holds_rows(#[trigger] sorted@[d], columns@[d], row_order@),
    {
        assert(columns@[c as int]@.len() == batch.num_rows);
        sorted.push(take(&columns[c], &row_order));
    }
    let last: usize = columns.len() - 1;
    assert(columns@[last as int] == given.asof);
    let sorted_keys = KeyColumns { on: sorted, asof: take(&columns[last], &row_order) };
    assert forall|k: int| 0 <= k < given.on@.len() implies column_holds_rows(
        #[trigger] sorted_keys.on@[k],
        given.on@[k],
        row_order@,
    ) by {
        assert(columns@[k] == given.on@[k]);
    }
    Ok((take_record_batch(batch, &row_order), sorted_keys))
}

} // verus!
