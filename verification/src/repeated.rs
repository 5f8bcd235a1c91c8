//! What holds of two joins of the same rows.
use crate::array;
use crate::asof;
use crate::asof::AsOfInputs;
use crate::batch;
use crate::batch::{RecordBatch, Schema};
use crate::condition::AsOfJoinDirection;
use crate::eval::KeyColumns;
use crate::join;
use crate::keys;
use crate::laws;
use crate::merge;
use crate::order;
use crate::order::Value;
use crate::rows;
use crate::sort;
use crate::types::{ColumnIndex, JoinSide, JoinType};
use std::sync::Arc;
use vstd::multiset::Multiset;
use vstd::prelude::*;

verus! {

/// Whether two rows hold the same in every column of the output that comes from their
/// side.
pub open spec fn same_in_output(
    batch: RecordBatch,
    side: JoinSide,
    columns: Seq<ColumnIndex>,
    a: int,
    b: int,
) -> bool {
    forall|c: int|
        0 <= c < columns.len() && (#[trigger] columns[c]).side == side
            ==> batch.columns@[columns[c].index as int]@[a]
            == batch.columns@[columns[c].index as int]@[b]
}

/// Whether it does not matter which of equally near right rows is taken: right rows that
/// agree on all keys hold the same in the output, but for rows that match nothing.
pub open spec fn right_ties_agree(inputs: AsOfInputs, columns: Seq<ColumnIndex>) -> bool {
    forall|a: int, b: int|
        0 <= a < inputs.right.num_rows && 0 <= b < inputs.right.num_rows
            && #[trigger] inputs.right_keys.on_row(a) == #[trigger] inputs.right_keys.on_row(b)
            && inputs.right_keys.asof_cell(a) == inputs.right_keys.asof_cell(b)
            && inputs.right_keys.asof_cell(a) is Some && keys::partition_may_match(
            inputs.right_keys.on_row(a),
            inputs.null_equality,
        ) ==> same_in_output(inputs.right, JoinSide::Right, columns, a, b)
}

/// Whether it does not matter in which order left rows that agree on all keys come: they
/// hold the same in the output.
pub open spec fn left_ties_agree(inputs: AsOfInputs, columns: Seq<ColumnIndex>) -> bool {
    forall|a: int, b: int|
        0 <= a < inputs.left.num_rows && 0 <= b < inputs.left.num_rows
            && #[trigger] inputs.left_keys.on_row(a) == #[trigger] inputs.left_keys.on_row(b)
            && inputs.left_keys.asof_cell(a) == inputs.left_keys.asof_cell(b)
            ==> same_in_output(inputs.left, JoinSide::Left, columns, a, b)
}

/// The rows of a batch, in order.
pub open spec fn rows_of(batch: RecordBatch) -> Seq<Seq<Option<Value>>> {
    Seq::new(batch.num_rows as nat, |k: int| array::row_of(batch.columns@, k))
}

/// What a pair of rows holds in a column of the output.
pub open spec fn pair_cell(
    left: RecordBatch,
    right: RecordBatch,
    pair: (int, Option<int>),
    column: ColumnIndex,
) -> Option<Value> {
    match column.side {
        JoinSide::Left => left.columns@[column.index as int]@[pair.0],
        JoinSide::Right => match pair.1 {
            Some(row) => right.columns@[column.index as int]@[row],
            None => None,
        },
        JoinSide::Neither => Some(Value::Boolean(pair.1 is Some)),
    }
}

/// The row of the output that a pair of rows becomes.
pub open spec fn pair_row(
    left: RecordBatch,
    right: RecordBatch,
    columns: Seq<ColumnIndex>,
    width: nat,
    pair: (int, Option<int>),
) -> Seq<Option<Value>> {
    Seq::new(width, |c: int| pair_cell(left, right, pair, columns[c]))
}

/// The rows of the output that pairs of rows become, in order.
pub open spec fn pair_rows(
    left: RecordBatch,
    right: RecordBatch,
    columns: Seq<ColumnIndex>,
    width: nat,
    pairs: Seq<(int, Option<int>)>,
) -> Seq<Seq<Option<Value>>> {
    Seq::new(pairs.len(), |k: int| pair_row(left, right, columns, width, pairs[k]))
}

/// The rows of an output are what its pairs become.
proof fn output_rows(
    output: RecordBatch,
    schema: Arc<Schema>,
    left: RecordBatch,
    right: RecordBatch,
    pairs: Seq<(int, Option<int>)>,
    columns: Seq<ColumnIndex>,
)
    requires
        join::is_output(
            output,
            schema,
            left,
            right,
            join::left_of(pairs),
            join::right_of(pairs),
            columns,
        ),
    ensures
        rows_of(output) == pair_rows(left, right, columns, schema.fields@.len(), pairs),
{
    let width = schema.fields@.len();
    let expected = pair_rows(left, right, columns, width, pairs);
    assert forall|k: int| 0 <= k < pairs.len() implies rows_of(output)[k] == expected[k] by {
        let row = rows_of(output)[k];
        assert(row.len() == width);
        assert forall|c: int| 0 <= c < width implies row[c] == expected[k][c] by {
            assert(output.columns@[c]@ == join::output_cells(
                left,
                right,
                join::left_of(pairs),
                join::right_of(pairs),
                columns[c],
            ));
        }
        assert(row =~= expected[k]);
    }
    assert(rows_of(output) =~= expected);
}

/// All right rows that are nearest to a left row agree on all keys, and may match.
pub proof fn nearest_rows_agree(inputs: AsOfInputs, left_row: int, a: Option<int>, b: Option<int>)
    requires
        inputs.wf(),
        keys::keys_keep_order(
            inputs.right_keys,
            keys::first_rows(inputs.right.num_rows as nat),
            inputs.direction,
        ),
        inputs.encoded_nearest(left_row, a),
        inputs.encoded_nearest(left_row, b),
    ensures
        a is Some <==> b is Some,
        a is Some ==> {
            &&& inputs.right_keys.on_row(a->0) == inputs.right_keys.on_row(b->0)
            &&& inputs.right_keys.asof_cell(a->0) == inputs.right_keys.asof_cell(b->0)
            &&& inputs.right_keys.asof_cell(a->0) is Some
            &&& keys::partition_may_match(inputs.right_keys.on_row(a->0), inputs.null_equality)
        },
{
    let n = inputs.right.num_rows as nat;
    if a is Some {
        assert(inputs.encoded_qualifies(left_row, a->0));
    }
    if b is Some {
        assert(inputs.encoded_qualifies(left_row, b->0));
    }
    if a is Some && b is Some {
        let x = a->0;
        let y = b->0;
        let xb = keys::asof_bytes(inputs.right_keys, inputs.direction, x);
        let yb = keys::asof_bytes(inputs.right_keys, inputs.direction, y);
        order::bytes_order(xb, yb, xb);
        array::row_of_fits(inputs.right_keys.on@, n, y);
        asof::asof_keeps_order(
            inputs.right_keys,
            n,
            inputs.direction,
            x,
            inputs.right_keys.asof_cell(y),
        );
        if inputs.right_keys.on@.len() > 0 {
            asof::on_keeps_order(
                inputs.right_keys,
                n,
                inputs.direction,
                x,
                inputs.right_keys.on_row(y),
            );
        } else {
            assert(inputs.right_keys.on_row(x) =~= inputs.right_keys.on_row(y));
        }
    }
}

/// Where right ties agree, a left row becomes the same whichever nearest right row is
/// taken.
proof fn nearest_rows_become_the_same(
    inputs: AsOfInputs,
    columns: Seq<ColumnIndex>,
    width: nat,
    join_type: JoinType,
    left_row: int,
    a: Option<int>,
    b: Option<int>,
)
    requires
        inputs.wf(),
        keys::keys_keep_order(
            inputs.right_keys,
            keys::first_rows(inputs.right.num_rows as nat),
            inputs.direction,
        ),
        right_ties_agree(inputs, columns),
        width <= columns.len(),
        inputs.encoded_nearest(left_row, a),
        inputs.encoded_nearest(left_row, b),
    ensures
        becomes(inputs, columns, width, join_type, left_row, a) == becomes(
            inputs,
            columns,
            width,
            join_type,
            left_row,
            b,
        ),
{
    nearest_rows_agree(inputs, left_row, a, b);
    if a is Some {
        assert(same_in_output(inputs.right, JoinSide::Right, columns, a->0, b->0));
    }
    assert(pair_row(inputs.left, inputs.right, columns, width, (left_row, a)) =~= pair_row(
        inputs.left,
        inputs.right,
        columns,
        width,
        (left_row, b),
    ));
    assert(becomes(inputs, columns, width, join_type, left_row, a) =~= becomes(
        inputs,
        columns,
        width,
        join_type,
        left_row,
        b,
    ));
}

/// What the left rows in a given order become, one after the other, where each becomes
/// some rows of the output.
pub open spec fn joined<T>(left_rows: Seq<int>, outcome: spec_fn(int) -> Seq<T>) -> Seq<T>
    decreases left_rows.len(),
{
    if left_rows.len() == 0 {
        Seq::empty()
    } else {
        joined(left_rows.drop_last(), outcome) + outcome(left_rows.last())
    }
}

/// Taking out one left row takes out what it becomes.
proof fn joined_without<T>(left_rows: Seq<int>, outcome: spec_fn(int) -> Seq<T>, at: int)
    requires
        0 <= at < left_rows.len(),
    ensures
        joined(left_rows, outcome).to_multiset() == joined(
            left_rows.remove(at),
            outcome,
        ).to_multiset().add(outcome(left_rows[at]).to_multiset()),
    decreases left_rows.len(),
{
    let n = left_rows.len() - 1;
    let before = left_rows.drop_last();
    let last = outcome(left_rows.last());
    vstd::seq_lib::lemma_multiset_commutative(joined(before, outcome), last);
    if at == n {
        assert(left_rows.remove(at) =~= before);
    } else {
        joined_without(before, outcome, at);
        let rest = left_rows.remove(at);
        assert(rest.drop_last() =~= before.remove(at));
        assert(rest.last() == left_rows.last());
        vstd::seq_lib::lemma_multiset_commutative(joined(before.remove(at), outcome), last);
        assert(before[at] == left_rows[at]);
        assert(joined(left_rows, outcome).to_multiset() =~= joined(
            rest,
            outcome,
        ).to_multiset().add(outcome(left_rows[at]).to_multiset()));
    }
}

/// The order of the left rows does not matter to what they become together.
proof fn joined_in_any_order<T>(a: Seq<int>, b: Seq<int>, outcome: spec_fn(int) -> Seq<T>)
    requires
        a.no_duplicates(),
        b.no_duplicates(),
        forall|x: int| #[trigger] a.contains(x) <==> b.contains(x),
    ensures
        joined(a, outcome).to_multiset() == joined(b, outcome).to_multiset(),
    decreases a.len(),
{
    if a.len() == 0 {
        if b.len() > 0 {
            assert(b.contains(b[0]));
            assert(a.contains(b[0]));
        }
    } else {
        let x = a.last();
        assert(a[a.len() - 1] == x);
        assert(a.contains(x));
        assert(b.contains(x));
        let at = choose|at: int| 0 <= at < b.len() && b[at] == x;
        let rest_a = a.drop_last();
        let rest_b = b.remove(at);
        assert forall|y: int| #[trigger] rest_a.contains(y) <==> rest_b.contains(y) by {
            if rest_a.contains(y) {
                let i = choose|i: int| 0 <= i < rest_a.len() && rest_a[i] == y;
                assert(a[i] == y);
                assert(a.contains(y));
                assert(b.contains(y));
                let j = choose|j: int| 0 <= j < b.len() && b[j] == y;
                assert(j != at);
                if j < at {
                    assert(rest_b[j] == y);
                } else {
                    assert(rest_b[j - 1] == y);
                }
            }
            if rest_b.contains(y) {
                let j = choose|j: int| 0 <= j < rest_b.len() && rest_b[j] == y;
                let k = if j < at {
                    j
                } else {
                    j + 1
                };
                assert(b[k] == y);
                assert(b.contains(y));
                assert(a.contains(y));
                let i = choose|i: int| 0 <= i < a.len() && a[i] == y;
                assert(i != a.len() - 1);
                assert(rest_a[i] == y);
            }
        }
        assert(rest_b.no_duplicates()) by {
            assert forall|i: int, j: int|
                0 <= i < rest_b.len() && 0 <= j < rest_b.len() && i
                    != j implies rest_b[i] != rest_b[j] by {
                let i2 = if i < at {
                    i
                } else {
                    i + 1
                };
                let j2 = if j < at {
                    j
                } else {
                    j + 1
                };
                assert(b[i2] != b[j2]);
            }
        }
        joined_in_any_order(rest_a, rest_b, outcome);
        joined_without(a, outcome, a.len() - 1);
        assert(a.remove(a.len() - 1) =~= rest_a);
        joined_without(b, outcome, at);
    }
}

/// An order of rows holds the numbers of all rows, each once.
proof fn permutation_numbers(a: Seq<u32>, n: nat)
    requires
        rows::is_permutation(a, n),
    ensures
        asof::row_numbers(a).no_duplicates(),
        forall|x: int| #[trigger] asof::row_numbers(a).contains(x) <==> 0 <= x < n,
{
    let numbers = asof::row_numbers(a);
    assert forall|i: int, j: int|
        0 <= i < numbers.len() && 0 <= j < numbers.len() && i != j implies numbers[i]
        != numbers[j] by {
        assert(a[i] != a[j]);
    }
    assert forall|x: int| #[trigger] numbers.contains(x) <==> 0 <= x < n by {
        if numbers.contains(x) {
            let i = choose|i: int| 0 <= i < numbers.len() && numbers[i] == x;
            assert(a[i] < n);
        }
        if 0 <= x < n {
            asof::permutation_covers(a, n, x);
            let i = choose|i: int| 0 <= i < n && (#[trigger] a[i]) == x;
            assert(numbers[i] == x);
        }
    }
}

/// The rows of the output that a left row becomes, given its match.
pub open spec fn becomes(
    inputs: AsOfInputs,
    columns: Seq<ColumnIndex>,
    width: nat,
    join_type: JoinType,
    left_row: int,
    found: Option<int>,
) -> Seq<Seq<Option<Value>>> {
    pair_rows(
        inputs.left,
        inputs.right,
        columns,
        width,
        merge::contribution(left_row, found, join_type),
    )
}

/// A right row that is nearest to a left row by encoded keys, if any qualifies.
pub open spec fn the_match(inputs: AsOfInputs, left_row: int) -> Option<int> {
    choose|found: Option<int>| inputs.encoded_nearest(left_row, found)
}

/// What pairs become is what their left rows become, one after the other.
proof fn kept_rows(
    inputs: AsOfInputs,
    columns: Seq<ColumnIndex>,
    width: nat,
    join_type: JoinType,
    left_order: Seq<u32>,
    found: Seq<Option<int>>,
    left_rows: Seq<int>,
    outcome: spec_fn(int) -> Seq<Seq<Option<Value>>>,
)
    requires
        found.len() == left_order.len(),
        left_rows.len() == left_order.len(),
        forall|k: int|
            0 <= k < left_rows.len() ==> #[trigger] outcome(left_rows[k]) == becomes(
                inputs,
                columns,
                width,
                join_type,
                left_order[k] as int,
                found[k],
            ),
    ensures
        pair_rows(
            inputs.left,
            inputs.right,
            columns,
            width,
            asof::kept_pairs(left_order, found, join_type),
        ) == joined(left_rows, outcome),
    decreases left_order.len(),
{
    let pairs = asof::kept_pairs(left_order, found, join_type);
    let all = pair_rows(inputs.left, inputs.right, columns, width, pairs);
    if left_order.len() == 0 {
        assert(all =~= joined(left_rows, outcome));
    } else {
        let n = left_order.len() - 1;
        let before = asof::kept_pairs(left_order.drop_last(), found.drop_last(), join_type);
        let rest = left_rows.drop_last();
        assert forall|k: int| 0 <= k < rest.len() implies #[trigger] outcome(rest[k]) == becomes(
            inputs,
            columns,
            width,
            join_type,
            left_order.drop_last()[k] as int,
            found.drop_last()[k],
        ) by {
            assert(rest[k] == left_rows[k]);
            assert(outcome(left_rows[k]) == outcome(rest[k]));
        }
        kept_rows(
            inputs,
            columns,
            width,
            join_type,
            left_order.drop_last(),
            found.drop_last(),
            rest,
            outcome,
        );
        let last = merge::contribution(left_order.last() as int, found.last(), join_type);
        assert(outcome(left_rows[n]) == becomes(
            inputs,
            columns,
            width,
            join_type,
            left_order[n] as int,
            found[n],
        ));
        assert(all =~= pair_rows(inputs.left, inputs.right, columns, width, before) + pair_rows(
            inputs.left,
            inputs.right,
            columns,
            width,
            last,
        ));
    }
}

/// Where right ties agree, a left row becomes, with what the merge finds for it, what it
/// becomes with the match that it has.
proof fn merge_finds_the_match(
    inputs: AsOfInputs,
    left_order: Seq<u32>,
    right_order: Seq<u32>,
    columns: Seq<ColumnIndex>,
    width: nat,
    join_type: JoinType,
    i: int,
)
    requires
        inputs.wf(),
        inputs.ordered(left_order, right_order),
        right_ties_agree(inputs, columns),
        width <= columns.len(),
        0 <= i < left_order.len(),
    ensures
        ({
            let l = left_order[i] as int;
            let found = inputs.found(left_order, right_order, i);
            becomes(inputs, columns, width, join_type, l, found) == becomes(
                inputs,
                columns,
                width,
                join_type,
                l,
                the_match(inputs, l),
            )
        }),
{
    let l = left_order[i] as int;
    let found = inputs.found(left_order, right_order, i);
    inputs.found_is_encoded_nearest(left_order, right_order, i);
    assert(inputs.encoded_nearest(l, the_match(inputs, l)));
    nearest_rows_become_the_same(
        inputs,
        columns,
        width,
        join_type,
        l,
        found,
        the_match(inputs, l),
    );
}

/// Whether some inputs hold the given rows of others, with their keys, and are joined in
/// the same way.
pub open spec fn holds_inputs(
    other: AsOfInputs,
    inputs: AsOfInputs,
    left_rows: Seq<u32>,
    right_rows: Seq<u32>,
) -> bool {
    &&& forall|i: int|
        0 <= i < left_rows.len() ==> (#[trigger] left_rows[i]) < inputs.left.num_rows
    &&& forall|j: int|
        0 <= j < right_rows.len() ==> (#[trigger] right_rows[j]) < inputs.right.num_rows
    &&& batch::holds_rows(other.left, inputs.left, left_rows)
    &&& batch::holds_rows(other.right, inputs.right, right_rows)
    &&& sort::keys_hold_rows(other.left_keys, inputs.left_keys, left_rows)
    &&& sort::keys_hold_rows(other.right_keys, inputs.right_keys, right_rows)
    &&& other.direction == inputs.direction
    &&& other.strict == inputs.strict
    &&& other.null_equality == inputs.null_equality
}

/// Whether some inputs hold the same rows as others, in another order, with the same
/// keys, and are joined in the same way.
pub open spec fn reorders(
    other: AsOfInputs,
    inputs: AsOfInputs,
    left_rows: Seq<u32>,
    right_rows: Seq<u32>,
) -> bool {
    &&& rows::is_permutation(left_rows, inputs.left.num_rows as nat)
    &&& rows::is_permutation(right_rows, inputs.right.num_rows as nat)
    &&& holds_inputs(other, inputs, left_rows, right_rows)
}

/// Whether every right row that qualifies for one of the left rows is among the right
/// rows.
pub open spec fn holds_candidates(
    inputs: AsOfInputs,
    left_rows: Seq<u32>,
    right_rows: Seq<u32>,
) -> bool {
    forall|i: int, r: int|
        0 <= i < left_rows.len() && 0 <= r < inputs.right.num_rows
            && #[trigger] inputs.encoded_qualifies(left_rows[i] as int, r)
            ==> asof::row_numbers(right_rows).contains(r)
}

/// A right row of some of the rows of the inputs as one of the inputs.
pub open spec fn back(found: Option<int>, right_rows: Seq<u32>) -> Option<int> {
    match found {
        Some(row) => Some(right_rows[row] as int),
        None => None,
    }
}

/// What is nearest to a left row among some of the rows of the inputs is nearest to it in
/// the inputs, where no right row that qualifies is left out.
proof fn nearest_among_candidates(
    other: AsOfInputs,
    inputs: AsOfInputs,
    left_rows: Seq<u32>,
    right_rows: Seq<u32>,
    left_row: int,
    found: Option<int>,
)
    requires
        inputs.wf(),
        other.wf(),
        holds_inputs(other, inputs, left_rows, right_rows),
        holds_candidates(inputs, left_rows, right_rows),
        0 <= left_row < left_rows.len(),
        other.encoded_nearest(left_row, found),
    ensures
        inputs.encoded_nearest(left_rows[left_row] as int, back(found, right_rows)),
{
    let l = left_rows[left_row] as int;
    asof::reordered_keys(inputs.left_keys, other.left_keys, left_rows, inputs.direction);
    asof::reordered_keys(inputs.right_keys, other.right_keys, right_rows, inputs.direction);
    assert forall|j: int| 0 <= j < right_rows.len() implies #[trigger] other.encoded_qualifies(
        left_row,
        j,
    ) == inputs.encoded_qualifies(l, right_rows[j] as int) by {
        assert(other.left_keys.on_row(left_row) == inputs.left_keys.on_row(l));
        assert(other.right_keys.on_row(j) == inputs.right_keys.on_row(right_rows[j] as int));
        assert(other.left_keys.asof_cell(left_row) == inputs.left_keys.asof_cell(l));
        assert(other.right_keys.asof_cell(j) == inputs.right_keys.asof_cell(
            right_rows[j] as int,
        ));
        assert(keys::on_bytes(other.left_keys, left_row) == keys::on_bytes(inputs.left_keys, l));
        assert(keys::on_bytes(other.right_keys, j) == keys::on_bytes(
            inputs.right_keys,
            right_rows[j] as int,
        ));
        assert(keys::asof_bytes(other.left_keys, inputs.direction, left_row)
            == keys::asof_bytes(inputs.left_keys, inputs.direction, l));
        assert(keys::asof_bytes(other.right_keys, inputs.direction, j) == keys::asof_bytes(
            inputs.right_keys,
            inputs.direction,
            right_rows[j] as int,
        ));
    }
    if found is Some {
        assert(other.encoded_qualifies(left_row, found->0));
        assert(right_rows[found->0] < inputs.right.num_rows);
    }
    assert forall|r: int|
        0 <= r < inputs.right.num_rows && #[trigger] inputs.encoded_qualifies(
            l,
            r,
        ) implies found is Some && !order::bytes_less(
        keys::asof_bytes(inputs.right_keys, inputs.direction, right_rows[found->0] as int),
        keys::asof_bytes(inputs.right_keys, inputs.direction, r),
    ) by {
        let numbers = asof::row_numbers(right_rows);
        assert(inputs.encoded_qualifies(left_rows[left_row] as int, r));
        assert(numbers.contains(r));
        let j = choose|j: int| 0 <= j < numbers.len() && numbers[j] == r;
        assert(right_rows[j] == r);
        assert(other.encoded_qualifies(left_row, j));
        assert(keys::asof_bytes(other.right_keys, inputs.direction, j) == keys::asof_bytes(
            inputs.right_keys,
            inputs.direction,
            r,
        ));
        assert(keys::asof_bytes(other.right_keys, inputs.direction, found->0)
            == keys::asof_bytes(
            inputs.right_keys,
            inputs.direction,
            right_rows[found->0] as int,
        ));
    }
}

/// The rows of an output are what the left rows become, each with a match that it
/// has.
proof fn rows_of_join(
    inputs: AsOfInputs,
    left_order: Seq<u32>,
    right_order: Seq<u32>,
    join_type: JoinType,
    schema: Arc<Schema>,
    columns: Seq<ColumnIndex>,
    output: RecordBatch,
)
    requires
        inputs.wf(),
        right_ties_agree(inputs, columns),
        inputs.may_return(left_order, right_order, join_type, schema, columns, Ok(output)),
    ensures
        rows_of(output) == joined(
            asof::row_numbers(left_order),
            |l: int|
                becomes(
                    inputs,
                    columns,
                    schema.fields@.len(),
                    join_type,
                    l,
                    the_match(inputs, l),
                ),
        ),
{
    let width = schema.fields@.len();
    let outcome = |l: int|
        becomes(inputs, columns, width, join_type, l, the_match(inputs, l));
    let pairs = inputs.merged_pairs(left_order, right_order, join_type);
    let found = inputs.all_found(left_order, right_order);
    inputs.merge_keeps_what_it_finds(left_order, right_order, join_type);
    output_rows(output, schema, inputs.left, inputs.right, pairs, columns);
    let numbers = asof::row_numbers(left_order);
    assert forall|k: int| 0 <= k < numbers.len() implies #[trigger] outcome(numbers[k]) == becomes(
        inputs,
        columns,
        width,
        join_type,
        left_order[k] as int,
        found[k],
    ) by {
        merge_finds_the_match(inputs, left_order, right_order, columns, width, join_type, k);
    }
    kept_rows(inputs, columns, width, join_type, left_order, found, numbers, outcome);
}

/// The numbers that the rows of some of the rows of a side, taken in an order, have in
/// the side.
pub open spec fn numbers_of(rows: Seq<u32>, row_order: Seq<u32>) -> Seq<int> {
    Seq::new(row_order.len(), |k: int| rows[row_order[k] as int] as int)
}

/// The rows of an output of some of the rows of the inputs are what these left rows
/// become in the inputs.
proof fn rows_of_part(
    other: AsOfInputs,
    inputs: AsOfInputs,
    left_rows: Seq<u32>,
    right_rows: Seq<u32>,
    left_order: Seq<u32>,
    right_order: Seq<u32>,
    join_type: JoinType,
    schema: Arc<Schema>,
    columns: Seq<ColumnIndex>,
    output: RecordBatch,
)
    requires
        inputs.wf(),
        other.wf(),
        holds_inputs(other, inputs, left_rows, right_rows),
        holds_candidates(inputs, left_rows, right_rows),
        keys::keys_keep_order(
            inputs.right_keys,
            keys::first_rows(inputs.right.num_rows as nat),
            inputs.direction,
        ),
        right_ties_agree(inputs, columns),
        join::columns_exist(inputs.left.columns@.len(), inputs.right.columns@.len(), columns),
        other.may_return(left_order, right_order, join_type, schema, columns, Ok(output)),
    ensures
        rows_of(output) == joined(
            numbers_of(left_rows, left_order),
            |l: int|
                becomes(
                    inputs,
                    columns,
                    schema.fields@.len(),
                    join_type,
                    l,
                    the_match(inputs, l),
                ),
        ),
{
    let width = schema.fields@.len();
    let outcome = |l: int|
        becomes(inputs, columns, width, join_type, l, the_match(inputs, l));
    let found = other.all_found(left_order, right_order);
    let pairs = other.merged_pairs(left_order, right_order, join_type);
    other.merge_keeps_what_it_finds(left_order, right_order, join_type);
    output_rows(output, schema, other.left, other.right, pairs, columns);
    let numbers = numbers_of(left_rows, left_order);
    assert forall|k: int| 0 <= k < numbers.len() implies #[trigger] outcome(numbers[k])
        == becomes(other, columns, width, join_type, left_order[k] as int, found[k]) by {
        let i = left_order[k] as int;
        assert(i < other.left.num_rows);
        let l = left_rows[i] as int;
        assert(l < inputs.left.num_rows);
        other.found_is_encoded_nearest(left_order, right_order, k);
        nearest_among_candidates(other, inputs, left_rows, right_rows, i, found[k]);
        assert(inputs.encoded_nearest(l, the_match(inputs, l)));
        nearest_rows_become_the_same(
            inputs,
            columns,
            width,
            join_type,
            l,
            the_match(inputs, l),
            back(found[k], right_rows),
        );
        let pair = (l, back(found[k], right_rows));
        let other_pair = (i, found[k]);
        assert(pair_row(inputs.left, inputs.right, columns, width, pair) =~= pair_row(
            other.left,
            other.right,
            columns,
            width,
            other_pair,
        )) by {
            assert forall|c: int| 0 <= c < width implies pair_cell(
                inputs.left,
                inputs.right,
                pair,
                columns[c],
            ) == pair_cell(other.left, other.right, other_pair, columns[c]) by {
                let column = columns[c];
                let index = column.index as int;
                if column.side == JoinSide::Left {
                    assert(other.left.columns@[index]@ == batch::taken(
                        inputs.left.columns@[index]@,
                        left_rows,
                    ));
                } else if column.side == JoinSide::Right {
                    assert(other.right.columns@[index]@ == batch::taken(
                        inputs.right.columns@[index]@,
                        right_rows,
                    ));
                }
            }
        }
        assert(becomes(
            inputs,
            columns,
            width,
            join_type,
            l,
            back(found[k], right_rows),
        ) =~= becomes(other, columns, width, join_type, i, found[k]));
    }
    kept_rows(other, columns, width, join_type, left_order, found, numbers, outcome);
}

/// The numbers of distinct rows, in an order that takes each once, are the numbers of
/// these rows, each once.
proof fn numbers_in_order(rows: Seq<u32>, row_order: Seq<u32>)
    requires
        rows.no_duplicates(),
        rows::is_permutation(row_order, rows.len()),
    ensures
        numbers_of(rows, row_order).no_duplicates(),
        forall|x: int| #[trigger]
            numbers_of(rows, row_order).contains(x) <==> asof::row_numbers(rows).contains(x),
{
    let n = rows.len();
    let numbers = numbers_of(rows, row_order);
    let all = asof::row_numbers(rows);
    assert forall|i: int, j: int|
        0 <= i < numbers.len() && 0 <= j < numbers.len() && i != j implies numbers[i]
        != numbers[j] by {
        assert(row_order[i] != row_order[j]);
        assert(rows[row_order[i] as int] != rows[row_order[j] as int]);
    }
    assert forall|x: int| #[trigger] numbers.contains(x) <==> all.contains(x) by {
        if numbers.contains(x) {
            let k = choose|k: int| 0 <= k < numbers.len() && numbers[k] == x;
            assert(row_order[k] < n);
            assert(all[row_order[k] as int] == x);
        }
        if all.contains(x) {
            let i = choose|i: int| 0 <= i < all.len() && all[i] == x;
            asof::permutation_covers(row_order, n, i);
            let k = choose|k: int| 0 <= k < n && (#[trigger] row_order[k]) == i;
            assert(numbers[k] == x);
        }
    }
}

/// How the rows of the inputs arrive does not matter: where right rows that agree on
/// all keys hold the same in the output, joining the same rows in another order returns the same rows.
pub proof fn order_of_arrival_does_not_matter(
    inputs: AsOfInputs,
    other: AsOfInputs,
    left_rows: Seq<u32>,
    right_rows: Seq<u32>,
    schema: Arc<Schema>,
    columns: Seq<ColumnIndex>,
    join_type: JoinType,
    output: RecordBatch,
    other_output: RecordBatch,
)
    requires
        inputs.wf(),
        other.wf(),
        reorders(other, inputs, left_rows, right_rows),
        right_ties_agree(inputs, columns),
        join::columns_exist(inputs.left.columns@.len(), inputs.right.columns@.len(), columns),
        returned_by(inputs, schema, columns, join_type, output),
        returned_by(other, schema, columns, join_type, other_output),
    ensures
        rows_of(other_output).to_multiset() == rows_of(output).to_multiset(),
{
    let width = schema.fields@.len();
    let n = inputs.left.num_rows as nat;
    let (lo, ro) = choose|lo: Seq<u32>, ro: Seq<u32>| #[trigger]
        inputs.may_return(lo, ro, join_type, schema, columns, Ok(output));
    let (lo2, ro2) = choose|lo: Seq<u32>, ro: Seq<u32>| #[trigger]
        other.may_return(lo, ro, join_type, schema, columns, Ok(other_output));
    let outcome = |l: int|
        becomes(inputs, columns, width, join_type, l, the_match(inputs, l));
    rows_of_join(inputs, lo, ro, join_type, schema, columns, output);
    permutation_numbers(right_rows, inputs.right.num_rows as nat);
    rows_of_part(
        other,
        inputs,
        left_rows,
        right_rows,
        lo2,
        ro2,
        join_type,
        schema,
        columns,
        other_output,
    );
    permutation_numbers(lo, n);
    permutation_numbers(left_rows, n);
    numbers_in_order(left_rows, lo2);
    joined_in_any_order(asof::row_numbers(lo), numbers_of(left_rows, lo2), outcome);
}

/// Whether rows of a side are those that fall into a part, each once, where the equality
/// keys decide on the part.
pub open spec fn is_part(
    rows: Seq<u32>,
    keys: KeyColumns,
    num_rows: nat,
    part_of: spec_fn(Seq<Option<Value>>) -> int,
    part: int,
) -> bool {
    &&& rows.no_duplicates()
    &&& forall|x: int| #[trigger]
        asof::row_numbers(rows).contains(x) <==> 0 <= x < num_rows && part_of(keys.on_row(x))
            == part
}

/// Inputs that hold one part of the rows of others, and what their join returned.
pub struct PartJoin {
    pub inputs: AsOfInputs,
    pub left_rows: Seq<u32>,
    pub right_rows: Seq<u32>,
    pub output: RecordBatch,
}

impl PartJoin {
    /// Whether this is a join of one part of the rows of the inputs.
    pub open spec fn wf(
        self,
        inputs: AsOfInputs,
        part_of: spec_fn(Seq<Option<Value>>) -> int,
        part: int,
        schema: Arc<Schema>,
        columns: Seq<ColumnIndex>,
        join_type: JoinType,
    ) -> bool {
        &&& self.inputs.wf()
        &&& holds_inputs(self.inputs, inputs, self.left_rows, self.right_rows)
        &&& is_part(
            self.left_rows,
            inputs.left_keys,
            inputs.left.num_rows as nat,
            part_of,
            part,
        )
        &&& is_part(
            self.right_rows,
            inputs.right_keys,
            inputs.right.num_rows as nat,
            part_of,
            part,
        )
        &&& returned_by(self.inputs, schema, columns, join_type, self.output)
    }
}

/// The rows of the outputs of several joins together.
pub open spec fn all_rows(parts: Seq<PartJoin>) -> Multiset<Seq<Option<Value>>>
    decreases parts.len(),
{
    if parts.len() == 0 {
        Multiset::empty()
    } else {
        all_rows(parts.drop_last()).add(rows_of(parts.last().output).to_multiset())
    }
}

/// What left rows become, one after the other, where the last ones are set apart.
proof fn joined_in_two<T>(a: Seq<int>, b: Seq<int>, outcome: spec_fn(int) -> Seq<T>)
    ensures
        joined(a + b, outcome) == joined(a, outcome) + joined(b, outcome),
    decreases b.len(),
{
    if b.len() == 0 {
        assert(a + b =~= a);
    } else {
        joined_in_two(a, b.drop_last(), outcome);
        assert((a + b).drop_last() =~= a + b.drop_last());
        assert((a + b).last() == b.last());
    }
    assert(joined(a + b, outcome) =~= joined(a, outcome) + joined(b, outcome));
}

/// The left rows of the first parts, and that their joins return what these left rows
/// become in the inputs.
proof fn rows_of_parts(
    inputs: AsOfInputs,
    part_of: spec_fn(Seq<Option<Value>>) -> int,
    parts: Seq<PartJoin>,
    schema: Arc<Schema>,
    columns: Seq<ColumnIndex>,
    join_type: JoinType,
    outcome: spec_fn(int) -> Seq<Seq<Option<Value>>>,
) -> (numbers: Seq<int>)
    requires
        inputs.wf(),
        inputs.types_agree(),
        keys::keys_keep_order(
            inputs.left_keys,
            keys::first_rows(inputs.left.num_rows as nat),
            inputs.direction,
        ),
        keys::keys_keep_order(
            inputs.right_keys,
            keys::first_rows(inputs.right.num_rows as nat),
            inputs.direction,
        ),
        right_ties_agree(inputs, columns),
        join::columns_exist(inputs.left.columns@.len(), inputs.right.columns@.len(), columns),
        outcome == (|l: int|
            becomes(
                inputs,
                columns,
                schema.fields@.len(),
                join_type,
                l,
                the_match(inputs, l),
            )),
        forall|p: int|
            0 <= p < parts.len() ==> (#[trigger] parts[p]).wf(
                inputs,
                part_of,
                p,
                schema,
                columns,
                join_type,
            ),
    ensures
        numbers.no_duplicates(),
        forall|x: int| #[trigger]
            numbers.contains(x) <==> 0 <= x < inputs.left.num_rows && 0 <= part_of(
                inputs.left_keys.on_row(x),
            ) < parts.len(),
        joined(numbers, outcome).to_multiset() == all_rows(parts),
    decreases parts.len(),
{
    if parts.len() == 0 {
        let numbers = Seq::<int>::empty();
        broadcast use vstd::seq_lib::group_to_multiset_ensures;

        let none = joined(numbers, outcome);
        assert forall|row: Seq<Option<Value>>| none.to_multiset().count(row) == 0 by {
            assert(!none.contains(row));
        }
        assert(none.to_multiset() =~= Multiset::empty());
        numbers
    } else {
        let p = parts.len() - 1;
        let before = rows_of_parts(
            inputs,
            part_of,
            parts.drop_last(),
            schema,
            columns,
            join_type,
            outcome,
        );
        let last = parts[p];
        assert(last.wf(inputs, part_of, p, schema, columns, join_type));
        let (lo, ro) = choose|lo: Seq<u32>, ro: Seq<u32>| #[trigger]
            last.inputs.may_return(lo, ro, join_type, schema, columns, Ok(last.output));
        assert forall|i: int, r: int|
            0 <= i < last.left_rows.len() && 0 <= r < inputs.right.num_rows
                && #[trigger] inputs.encoded_qualifies(
                last.left_rows[i] as int,
                r,
            ) implies asof::row_numbers(last.right_rows).contains(r) by {
            let l = last.left_rows[i] as int;
            inputs.encoded_qualifies_by_value(l, r);
            assert(asof::row_numbers(last.left_rows)[i] == l);
            assert(asof::row_numbers(last.left_rows).contains(l));
            assert(inputs.left_keys.on_row(l) == inputs.right_keys.on_row(r));
        }
        rows_of_part(
            last.inputs,
            inputs,
            last.left_rows,
            last.right_rows,
            lo,
            ro,
            join_type,
            schema,
            columns,
            last.output,
        );
        let added = numbers_of(last.left_rows, lo);
        numbers_in_order(last.left_rows, lo);
        let numbers = before + added;
        assert forall|x: int| #[trigger] numbers.contains(x) <==> 0 <= x < inputs.left.num_rows
            && 0 <= part_of(inputs.left_keys.on_row(x)) < parts.len() by {
            if numbers.contains(x) {
                let i = choose|i: int| 0 <= i < numbers.len() && numbers[i] == x;
                if i < before.len() {
                    assert(before[i] == x);
                    assert(before.contains(x));
                } else {
                    assert(added[i - before.len()] == x);
                    assert(added.contains(x));
                    assert(asof::row_numbers(last.left_rows).contains(x));
                }
            }
            if before.contains(x) {
                let i = choose|i: int| 0 <= i < before.len() && before[i] == x;
                assert(numbers[i] == x);
            }
            assert(asof::row_numbers(last.left_rows).contains(x) ==> added.contains(x));
            if added.contains(x) {
                let i = choose|i: int| 0 <= i < added.len() && added[i] == x;
                assert(numbers[before.len() + i] == x);
            }
        }
        assert forall|i: int, j: int|
            0 <= i < numbers.len() && 0 <= j < numbers.len() && i != j implies numbers[i]
            != numbers[j] by {
            assert forall|k: int| 0 <= k < before.len() implies part_of(
                inputs.left_keys.on_row(#[trigger] before[k]),
            ) < p by {
                assert(before.contains(before[k]));
            }
            assert forall|k: int| 0 <= k < added.len() implies part_of(
                inputs.left_keys.on_row(#[trigger] added[k]),
            ) == p by {
                assert(added.contains(added[k]));
                assert(asof::row_numbers(last.left_rows).contains(added[k]));
            }
            if i < before.len() {
                assert(numbers[i] == before[i]);
            } else {
                assert(numbers[i] == added[i - before.len()]);
            }
            if j < before.len() {
                assert(numbers[j] == before[j]);
            } else {
                assert(numbers[j] == added[j - before.len()]);
            }
        }
        joined_in_two(before, added, outcome);
        vstd::seq_lib::lemma_multiset_commutative(
            joined(before, outcome),
            joined(added, outcome),
        );
        numbers
    }
}

/// The parts of the inputs can be joined one by one: where the equality keys, of the same
/// types on both sides, divide the rows into parts, and right rows that agree on all keys
/// hold the same in the output, the joins of the parts together return the rows of the join of the whole.
pub proof fn parts_together_are_the_whole(
    inputs: AsOfInputs,
    part_of: spec_fn(Seq<Option<Value>>) -> int,
    parts: Seq<PartJoin>,
    schema: Arc<Schema>,
    columns: Seq<ColumnIndex>,
    join_type: JoinType,
    output: RecordBatch,
)
    requires
        inputs.wf(),
        inputs.types_agree(),
        right_ties_agree(inputs, columns),
        join::columns_exist(inputs.left.columns@.len(), inputs.right.columns@.len(), columns),
        forall|l: int|
            0 <= l < inputs.left.num_rows ==> 0 <= part_of(
                #[trigger] inputs.left_keys.on_row(l),
            ) < parts.len(),
        forall|p: int|
            0 <= p < parts.len() ==> (#[trigger] parts[p]).wf(
                inputs,
                part_of,
                p,
                schema,
                columns,
                join_type,
            ),
        returned_by(inputs, schema, columns, join_type, output),
    ensures
        rows_of(output).to_multiset() == all_rows(parts),
{
    let width = schema.fields@.len();
    let outcome = |l: int|
        becomes(inputs, columns, width, join_type, l, the_match(inputs, l));
    let (lo, ro) = choose|lo: Seq<u32>, ro: Seq<u32>| #[trigger]
        inputs.may_return(lo, ro, join_type, schema, columns, Ok(output));
    rows_of_join(inputs, lo, ro, join_type, schema, columns, output);
    permutation_numbers(lo, inputs.left.num_rows as nat);
    let numbers = rows_of_parts(inputs, part_of, parts, schema, columns, join_type, outcome);
    joined_in_any_order(asof::row_numbers(lo), numbers, outcome);
}

/// The keys of a row: the equality keys, then the as-of key.
pub open spec fn key_row(keys: KeyColumns, row: int) -> Seq<Option<Value>> {
    array::row_of(keys.all(), row)
}

/// All orders that sort some rows have the same keys at the same place.
pub proof fn sorted_keys_are_unique(
    keys: KeyColumns,
    num_rows: nat,
    direction: AsOfJoinDirection,
    a: Seq<u32>,
    b: Seq<u32>,
    k: int,
)
    requires
        sort::sorts_side(a, keys, num_rows, direction),
        sort::sorts_side(b, keys, num_rows, direction),
        0 <= k < num_rows,
    ensures
        keys.on_row(a[k] as int) == keys.on_row(b[k] as int),
        keys.asof_cell(a[k] as int) == keys.asof_cell(b[k] as int),
{
    let x = key_row(keys, a[k] as int);
    let y = key_row(keys, b[k] as int);
    sorted_keys_do_not_descend(keys, num_rows, direction, a, b, k);
    sorted_keys_do_not_descend(keys, num_rows, direction, b, a, k);
    order::row_order(x, y, x, sort::key_options(keys.on@.len(), direction));
    let n = keys.on@.len() as int;
    assert(keys.all()[n] == keys.asof);
    assert(x[n] == keys.asof_cell(a[k] as int));
    assert(y[n] == keys.asof_cell(b[k] as int));
    assert(keys.on_row(a[k] as int) =~= x.take(n));
    assert(keys.on_row(b[k] as int) =~= y.take(n));
}

/// Of two orders that sort some rows, none has smaller keys at a place than the other:
/// the rows up to that place would all have to come before it in the other.
proof fn sorted_keys_do_not_descend(
    keys: KeyColumns,
    num_rows: nat,
    direction: AsOfJoinDirection,
    a: Seq<u32>,
    b: Seq<u32>,
    k: int,
)
    requires
        sort::sorts_side(a, keys, num_rows, direction),
        sort::sorts_side(b, keys, num_rows, direction),
        0 <= k < num_rows,
    ensures
        !order::row_less(
            key_row(keys, a[k] as int),
            key_row(keys, b[k] as int),
            sort::key_options(keys.on@.len(), direction),
        ),
{
    let options = sort::key_options(keys.on@.len(), direction);
    let x = key_row(keys, a[k] as int);
    let y = key_row(keys, b[k] as int);
    if order::row_less(x, y, options) {
        let places = Seq::new((k + 1) as nat, |i: int| place_of(b, a[i] as int));
        assert forall|i: int| 0 <= i <= k implies 0 <= #[trigger] places[i] < k && b[places[i]]
            == a[i] by {
            asof::permutation_covers(b, num_rows, a[i] as int);
            let p = places[i];
            assert(0 <= p < num_rows && b[p] == a[i]);
            let z = key_row(keys, a[i] as int);
            order::row_order(x, z, y, options);
            order::row_order(x, x, x, options);
            assert(!order::row_less(x, z, options)) by {
                if i < k {
                    assert(!order::row_less(
                        array::row_of(keys.all(), a[k] as int),
                        array::row_of(keys.all(), a[i] as int),
                        options,
                    ));
                }
            }
            if p > k {
                assert(!order::row_less(
                    array::row_of(keys.all(), b[p] as int),
                    array::row_of(keys.all(), b[k] as int),
                    options,
                ));
            }
        }
        assert(places.no_duplicates()) by {
            assert forall|i: int, j: int|
                0 <= i < places.len() && 0 <= j < places.len() && i != j implies places[i]
                != places[j] by {
                assert(a[i] != a[j]);
                assert(b[places[i]] == a[i]);
                assert(b[places[j]] == a[j]);
            }
        }
        places.unique_seq_to_set();
        vstd::set_lib::lemma_int_range(0, k);
        let range = vstd::set_lib::set_int_range(0, k);
        assert(places.to_set().subset_of(range)) by {
            assert forall|p: int| places.to_set().contains(p) implies range.contains(p) by {
                let i = choose|i: int| 0 <= i < places.len() && places[i] == p;
                assert(0 <= places[i] < k);
            }
        }
        vstd::set_lib::lemma_len_subset(places.to_set(), range);
    }
}

/// The place of a row in an order.
spec fn place_of(row_order: Seq<u32>, row: int) -> int {
    choose|p: int| 0 <= p < row_order.len() && (#[trigger] row_order[p]) == row
}

/// What left rows become, one after the other, where each becomes what another one does.
proof fn joined_alike<T>(a: Seq<int>, b: Seq<int>, outcome: spec_fn(int) -> Seq<T>)
    requires
        a.len() == b.len(),
        forall|k: int| 0 <= k < a.len() ==> outcome(#[trigger] a[k]) == outcome(b[k]),
    ensures
        joined(a, outcome) == joined(b, outcome),
    decreases a.len(),
{
    if a.len() > 0 {
        let n = a.len() - 1;
        assert(outcome(a[n]) == outcome(b[n]));
        assert forall|k: int| 0 <= k < a.drop_last().len() implies outcome(
            #[trigger] a.drop_last()[k],
        ) == outcome(b.drop_last()[k]) by {
            assert(a.drop_last()[k] == a[k]);
        }
        joined_alike(a.drop_last(), b.drop_last(), outcome);
    }
}

/// Left rows that agree on all keys become the same, where ties agree.
proof fn tied_left_rows_become_the_same(
    inputs: AsOfInputs,
    columns: Seq<ColumnIndex>,
    width: nat,
    join_type: JoinType,
    a: int,
    b: int,
)
    requires
        inputs.wf(),
        keys::keys_keep_order(
            inputs.right_keys,
            keys::first_rows(inputs.right.num_rows as nat),
            inputs.direction,
        ),
        right_ties_agree(inputs, columns),
        left_ties_agree(inputs, columns),
        width <= columns.len(),
        0 <= a < inputs.left.num_rows,
        0 <= b < inputs.left.num_rows,
        inputs.left_keys.on_row(a) == inputs.left_keys.on_row(b),
        inputs.left_keys.asof_cell(a) == inputs.left_keys.asof_cell(b),
        inputs.encoded_nearest(a, the_match(inputs, a)),
        inputs.encoded_nearest(b, the_match(inputs, b)),
    ensures
        becomes(inputs, columns, width, join_type, a, the_match(inputs, a)) == becomes(
            inputs,
            columns,
            width,
            join_type,
            b,
            the_match(inputs, b),
        ),
{
    let found = the_match(inputs, a);
    assert forall|r: int| #[trigger] inputs.encoded_qualifies(a, r) == inputs.encoded_qualifies(
        b,
        r,
    ) by {}
    assert(inputs.encoded_nearest(b, found)) by {
        if found is Some {
            assert(inputs.encoded_qualifies(a, found->0));
            assert forall|other: int|
                0 <= other < inputs.right.num_rows && #[trigger] inputs.encoded_qualifies(
                    b,
                    other,
                ) implies !order::bytes_less(
                keys::asof_bytes(inputs.right_keys, inputs.direction, found->0),
                keys::asof_bytes(inputs.right_keys, inputs.direction, other),
            ) by {
                assert(inputs.encoded_qualifies(a, other));
            }
        } else {
            assert forall|other: int| 0 <= other < inputs.right.num_rows implies
                !#[trigger] inputs.encoded_qualifies(b, other) by {
                assert(!inputs.encoded_qualifies(a, other));
            }
        }
    }
    nearest_rows_become_the_same(
        inputs,
        columns,
        width,
        join_type,
        b,
        found,
        the_match(inputs, b),
    );
    assert(same_in_output(inputs.left, JoinSide::Left, columns, a, b));
    assert(pair_row(inputs.left, inputs.right, columns, width, (a, found)) =~= pair_row(
        inputs.left,
        inputs.right,
        columns,
        width,
        (b, found),
    ));
    assert(becomes(inputs, columns, width, join_type, a, found) =~= becomes(
        inputs,
        columns,
        width,
        join_type,
        b,
        found,
    ));
}

/// The matched pairs of a left join become what its left rows become in an inner join.
proof fn matched_rows(
    inputs: AsOfInputs,
    left_order: Seq<u32>,
    right_order: Seq<u32>,
    columns: Seq<ColumnIndex>,
    width: nat,
)
    requires
        inputs.wf(),
        inputs.ordered(left_order, right_order),
        right_ties_agree(inputs, columns),
        width <= columns.len(),
    ensures
        pair_rows(
            inputs.left,
            inputs.right,
            columns,
            width,
            inputs.merged_pairs(left_order, right_order, JoinType::Left).filter(
                |pair: (int, Option<int>)| pair.1 is Some,
            ),
        ) == joined(
            asof::row_numbers(left_order),
            |l: int|
                becomes(inputs, columns, width, JoinType::Inner, l, the_match(inputs, l)),
        ),
{
    let outcome = |l: int|
        becomes(inputs, columns, width, JoinType::Inner, l, the_match(inputs, l));
    let found = inputs.all_found(left_order, right_order);
    inputs.merge_keeps_what_it_finds(left_order, right_order, JoinType::Left);
    laws::inner_join_is_left_join_without_unmatched(left_order, found);
    let numbers = asof::row_numbers(left_order);
    assert forall|k: int| 0 <= k < numbers.len() implies #[trigger] outcome(numbers[k])
        == becomes(inputs, columns, width, JoinType::Inner, left_order[k] as int, found[k]) by {
        merge_finds_the_match(
            inputs,
            left_order,
            right_order,
            columns,
            width,
            JoinType::Inner,
            k,
        );
    }
    kept_rows(inputs, columns, width, JoinType::Inner, left_order, found, numbers, outcome);
}

/// An inner join returns the rows of the left join, in the same order, without the left
/// rows that no right row matches, where both joins take the rows of each side in the same
/// order.
pub proof fn inner_join_is_left_join_in_the_same_orders(
    inputs: AsOfInputs,
    left_order: Seq<u32>,
    right_order: Seq<u32>,
    columns: Seq<ColumnIndex>,
    left_schema: Arc<Schema>,
    left_output: RecordBatch,
    inner_schema: Arc<Schema>,
    inner_output: RecordBatch,
)
    requires
        inputs.wf(),
        inputs.may_return(
            left_order,
            right_order,
            JoinType::Left,
            left_schema,
            columns,
            Ok(left_output),
        ),
        inputs.may_return(
            left_order,
            right_order,
            JoinType::Inner,
            inner_schema,
            columns,
            Ok(inner_output),
        ),
    ensures
        ({
            let pairs = inputs.merged_pairs(left_order, right_order, JoinType::Left);
            &&& rows_of(left_output) == pair_rows(
                inputs.left,
                inputs.right,
                columns,
                left_schema.fields@.len(),
                pairs,
            )
            &&& rows_of(inner_output) == pair_rows(
                inputs.left,
                inputs.right,
                columns,
                inner_schema.fields@.len(),
                pairs.filter(|pair: (int, Option<int>)| pair.1 is Some),
            )
        }),
{
    let pairs = inputs.merged_pairs(left_order, right_order, JoinType::Left);
    let inner_pairs = inputs.merged_pairs(left_order, right_order, JoinType::Inner);
    let found = inputs.all_found(left_order, right_order);
    inputs.merge_keeps_what_it_finds(left_order, right_order, JoinType::Left);
    inputs.merge_keeps_what_it_finds(left_order, right_order, JoinType::Inner);
    laws::inner_join_is_left_join_without_unmatched(left_order, found);
    output_rows(left_output, left_schema, inputs.left, inputs.right, pairs, columns);
    output_rows(inner_output, inner_schema, inputs.left, inputs.right, inner_pairs, columns);
}

/// An inner join returns the rows of the left join, in the same order, without the left
/// rows that no right row matches, where on each side rows that agree on all keys hold the
/// same in the output.
pub proof fn inner_join_is_left_join_without_unmatched_rows(
    inputs: AsOfInputs,
    columns: Seq<ColumnIndex>,
    left_schema: Arc<Schema>,
    left_output: RecordBatch,
    inner_schema: Arc<Schema>,
    inner_output: RecordBatch,
)
    requires
        inputs.wf(),
        left_ties_agree(inputs, columns),
        right_ties_agree(inputs, columns),
        returned_by(inputs, left_schema, columns, JoinType::Left, left_output),
        returned_by(inputs, inner_schema, columns, JoinType::Inner, inner_output),
    ensures
        exists|left_order: Seq<u32>, right_order: Seq<u32>|
            #![trigger inputs.merged_pairs(left_order, right_order, JoinType::Left)]
            {
                let pairs = inputs.merged_pairs(left_order, right_order, JoinType::Left);
                &&& inputs.ordered(left_order, right_order)
                &&& rows_of(left_output) == pair_rows(
                    inputs.left,
                    inputs.right,
                    columns,
                    left_schema.fields@.len(),
                    pairs,
                )
                &&& rows_of(inner_output) == pair_rows(
                    inputs.left,
                    inputs.right,
                    columns,
                    inner_schema.fields@.len(),
                    pairs.filter(|pair: (int, Option<int>)| pair.1 is Some),
                )
            },
{
    let (lo, ro) = choose|lo: Seq<u32>, ro: Seq<u32>| #[trigger]
        inputs.may_return(lo, ro, JoinType::Left, left_schema, columns, Ok(left_output));
    let (lo2, ro2) = choose|lo: Seq<u32>, ro: Seq<u32>| #[trigger]
        inputs.may_return(lo, ro, JoinType::Inner, inner_schema, columns, Ok(inner_output));
    let width = inner_schema.fields@.len();
    let outcome = |l: int|
        becomes(inputs, columns, width, JoinType::Inner, l, the_match(inputs, l));
    let pairs = inputs.merged_pairs(lo, ro, JoinType::Left);
    output_rows(left_output, left_schema, inputs.left, inputs.right, pairs, columns);
    matched_rows(inputs, lo, ro, columns, width);
    rows_of_join(inputs, lo2, ro2, JoinType::Inner, inner_schema, columns, inner_output);
    let numbers = asof::row_numbers(lo);
    let numbers2 = asof::row_numbers(lo2);
    assert forall|k: int| 0 <= k < numbers.len() implies outcome(#[trigger] numbers[k])
        == outcome(numbers2[k]) by {
        sorted_keys_are_unique(
            inputs.left_keys,
            inputs.left.num_rows as nat,
            inputs.direction,
            lo,
            lo2,
            k,
        );
        inputs.found_is_encoded_nearest(lo, ro, k);
        inputs.found_is_encoded_nearest(lo2, ro2, k);
        tied_left_rows_become_the_same(
            inputs,
            columns,
            width,
            JoinType::Inner,
            lo[k] as int,
            lo2[k] as int,
        );
    }
    joined_alike(numbers, numbers2, outcome);
}

/// An inner join returns the rows of the left join without the left rows that no right
/// row matches, in some order, where right rows that agree on all keys hold the same in
/// the output.
pub proof fn inner_join_holds_the_matched_rows(
    inputs: AsOfInputs,
    columns: Seq<ColumnIndex>,
    left_schema: Arc<Schema>,
    left_output: RecordBatch,
    inner_schema: Arc<Schema>,
    inner_output: RecordBatch,
)
    requires
        inputs.wf(),
        right_ties_agree(inputs, columns),
        returned_by(inputs, left_schema, columns, JoinType::Left, left_output),
        returned_by(inputs, inner_schema, columns, JoinType::Inner, inner_output),
    ensures
        exists|left_order: Seq<u32>, right_order: Seq<u32>|
            #![trigger inputs.merged_pairs(left_order, right_order, JoinType::Left)]
            {
                let pairs = inputs.merged_pairs(left_order, right_order, JoinType::Left);
                &&& inputs.ordered(left_order, right_order)
                &&& rows_of(left_output) == pair_rows(
                    inputs.left,
                    inputs.right,
                    columns,
                    left_schema.fields@.len(),
                    pairs,
                )
                &&& rows_of(inner_output).to_multiset() == pair_rows(
                    inputs.left,
                    inputs.right,
                    columns,
                    inner_schema.fields@.len(),
                    pairs.filter(|pair: (int, Option<int>)| pair.1 is Some),
                ).to_multiset()
            },
{
    let (lo, ro) = choose|lo: Seq<u32>, ro: Seq<u32>| #[trigger]
        inputs.may_return(lo, ro, JoinType::Left, left_schema, columns, Ok(left_output));
    let (lo2, ro2) = choose|lo: Seq<u32>, ro: Seq<u32>| #[trigger]
        inputs.may_return(lo, ro, JoinType::Inner, inner_schema, columns, Ok(inner_output));
    let width = inner_schema.fields@.len();
    let pairs = inputs.merged_pairs(lo, ro, JoinType::Left);
    output_rows(left_output, left_schema, inputs.left, inputs.right, pairs, columns);
    matched_rows(inputs, lo, ro, columns, width);
    rows_of_join(inputs, lo2, ro2, JoinType::Inner, inner_schema, columns, inner_output);
    permutation_numbers(lo, inputs.left.num_rows as nat);
    permutation_numbers(lo2, inputs.left.num_rows as nat);
    let outcome = |l: int|
        becomes(inputs, columns, width, JoinType::Inner, l, the_match(inputs, l));
    joined_in_any_order(asof::row_numbers(lo), asof::row_numbers(lo2), outcome);
}

/// Whether a join of the inputs may return an output.
pub open spec fn returned_by(
    inputs: AsOfInputs,
    schema: Arc<Schema>,
    columns: Seq<ColumnIndex>,
    join_type: JoinType,
    output: RecordBatch,
) -> bool {
    exists|left_order: Seq<u32>, right_order: Seq<u32>| #[trigger]
        inputs.may_return(left_order, right_order, join_type, schema, columns, Ok(output))
}

/// What a join of evaluated keys returns is what a join of the inputs may return.
pub proof fn outputs_are_returned(
    inputs: AsOfInputs,
    schema: Arc<Schema>,
    columns: Seq<ColumnIndex>,
    join_type: JoinType,
    output: RecordBatch,
)
    requires
        join::join_returns(
            inputs.left,
            inputs.right,
            Ok(inputs.left_keys),
            Ok(inputs.right_keys),
            schema,
            columns,
            inputs.direction,
            inputs.strict,
            join_type,
            inputs.null_equality,
            Ok(output),
        ),
    ensures
        returned_by(inputs, schema, columns, join_type, output),
{
    assert(inputs == (AsOfInputs {
        left: inputs.left,
        right: inputs.right,
        left_keys: inputs.left_keys,
        right_keys: inputs.right_keys,
        direction: inputs.direction,
        strict: inputs.strict,
        null_equality: inputs.null_equality,
    }));
}

} // verus!
