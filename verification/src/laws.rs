//! What holds of every as-of join.
use crate::array;
use crate::asof;
use crate::asof::AsOfInputs;
use crate::batch;
use crate::batch::RecordBatch;
use crate::condition;
use crate::condition::{AsOfJoinCondition, AsOfJoinDirection};
use crate::error::JoinError;
use crate::exec;
use crate::exec::AsOfJoinExec;
use crate::expr;
use crate::expr::Operator;
use crate::join;
use crate::keys;
use crate::merge;
use crate::order;
use crate::order::Value;
use crate::plan;
use crate::rows;
use crate::sort;
use crate::stream::{JoinInput, JoinTask};
use crate::types::{JoinType, NullEquality};
use vstd::prelude::*;

verus! {

/// A left join has one pair for each left row, in the order of the left rows.
proof fn left_pairs(left_order: Seq<u32>, found: Seq<Option<int>>)
    requires
        found.len() == left_order.len(),
    ensures
        asof::kept_pairs(left_order, found, JoinType::Left) == Seq::new(
            left_order.len(),
            |k: int| (left_order[k] as int, found[k]),
        ),
    decreases left_order.len(),
{
    let all = Seq::new(left_order.len(), |k: int| (left_order[k] as int, found[k]));
    if left_order.len() > 0 {
        let rest = left_order.drop_last();
        left_pairs(rest, found.drop_last());
        assert(asof::kept_pairs(left_order, found, JoinType::Left) =~= all);
    } else {
        assert(asof::kept_pairs(left_order, found, JoinType::Left) =~= all);
    }
}

/// Whether a left row is in the output.
pub open spec fn has_left_row(pairs: Seq<(int, Option<int>)>, left_row: int) -> bool {
    exists|k: int| 0 <= k < pairs.len() && (#[trigger] pairs[k]).0 == left_row
}

/// A left join keeps every left row exactly once, in the order of the left rows,
/// whatever it finds for them.
pub proof fn left_join_keeps_every_left_row(
    inputs: AsOfInputs,
    left_order: Seq<u32>,
    right_order: Seq<u32>,
)
    requires
        rows::is_permutation(left_order, inputs.left.num_rows as nat),
    ensures
        ({
            let pairs = inputs.merged_pairs(left_order, right_order, JoinType::Left);
            &&& pairs.len() == inputs.left.num_rows
            &&& forall|k: int| 0 <= k < pairs.len() ==> (#[trigger] pairs[k]).0 == left_order[k]
            &&& forall|row: int|
                0 <= row < inputs.left.num_rows ==> #[trigger] has_left_row(pairs, row)
        }),
{
    let pairs = inputs.merged_pairs(left_order, right_order, JoinType::Left);
    inputs.merge_keeps_what_it_finds(left_order, right_order, JoinType::Left);
    left_pairs(left_order, inputs.all_found(left_order, right_order));
    assert forall|row: int| 0 <= row < inputs.left.num_rows implies #[trigger] has_left_row(
        pairs,
        row,
    ) by {
        asof::permutation_covers(left_order, inputs.left.num_rows as nat, row);
        let k = choose|k: int| 0 <= k < left_order.len() && (#[trigger] left_order[k]) == row;
        assert(pairs[k].0 == row);
    }
}

/// No left row comes twice: a left row has at most one match.
pub proof fn no_left_row_comes_twice(
    inputs: AsOfInputs,
    left_order: Seq<u32>,
    right_order: Seq<u32>,
    join_type: JoinType,
    j: int,
    k: int,
)
    requires
        rows::is_permutation(left_order, inputs.left.num_rows as nat),
        0 <= j < k < inputs.merged_pairs(left_order, right_order, join_type).len(),
    ensures
        inputs.merged_pairs(left_order, right_order, join_type)[j].0 != inputs.merged_pairs(
            left_order,
            right_order,
            join_type,
        )[k].0,
{
    let found = inputs.all_found(left_order, right_order);
    inputs.merge_keeps_what_it_finds(left_order, right_order, join_type);
    let at = kept_at(left_order, found, join_type);
    kept_from(left_order, found, join_type, at);
    assert(at[j] < at[k]);
    assert(left_order[at[j]] != left_order[at[k]]);
}

/// Every pair that is kept is one of the left rows with its match, and the left
/// rows come in their order.
proof fn kept_from(left_order: Seq<u32>, found: Seq<Option<int>>, join_type: JoinType, at: Seq<int>)
    requires
        found.len() == left_order.len(),
        at == kept_at(left_order, found, join_type),
    ensures
        at.len() == asof::kept_pairs(left_order, found, join_type).len(),
        forall|k: int|
            0 <= k < at.len() ==> 0 <= #[trigger] at[k] < left_order.len() && asof::kept_pairs(
                left_order,
                found,
                join_type,
            )[k] == (left_order[at[k]] as int, found[at[k]]) && (found[at[k]] is Some || join_type
                == JoinType::Left),
        forall|j: int, k: int| 0 <= j < k < at.len() ==> #[trigger] at[j] < #[trigger] at[k],
        forall|i: int|
            0 <= i < left_order.len() && (found[i] is Some || join_type == JoinType::Left)
                ==> #[trigger] at.contains(i),
    decreases left_order.len(),
{
    if left_order.len() > 0 {
        let n = left_order.len() - 1;
        let rest = kept_at(left_order.drop_last(), found.drop_last(), join_type);
        kept_from(left_order.drop_last(), found.drop_last(), join_type, rest);
        assert forall|i: int|
            0 <= i < left_order.len() && (found[i] is Some || join_type
                == JoinType::Left) implies #[trigger] at.contains(i) by {
            if i < n {
                assert(found.drop_last()[i] == found[i]);
                assert(rest.contains(i));
                let k = choose|k: int| 0 <= k < rest.len() && rest[k] == i;
                assert(at[k] == i);
            } else {
                assert(at.last() == i);
            }
        }
    }
}

/// The positions of the left rows that are kept.
spec fn kept_at(left_order: Seq<u32>, found: Seq<Option<int>>, join_type: JoinType) -> Seq<int>
    decreases left_order.len(),
{
    if left_order.len() == 0 {
        Seq::empty()
    } else {
        let rest = kept_at(left_order.drop_last(), found.drop_last(), join_type);
        if found.last() is Some || join_type == JoinType::Left {
            rest.push(left_order.len() - 1)
        } else {
            rest
        }
    }
}

/// Every pair in the output is a left row with its nearest right row, or, in a left
/// join, a left row for which no right row qualifies.
pub proof fn every_pair_is_nearest(
    inputs: AsOfInputs,
    left_order: Seq<u32>,
    join_type: JoinType,
    pairs: Seq<(int, Option<int>)>,
)
    requires
        rows::is_permutation(left_order, inputs.left.num_rows as nat),
        inputs.is_asof_join(left_order, join_type, pairs),
    ensures
        forall|k: int|
            0 <= k < pairs.len() ==> 0 <= (#[trigger] pairs[k]).0 < inputs.left.num_rows
                && inputs.is_nearest(pairs[k].0, pairs[k].1),
        forall|k: int|
            0 <= k < pairs.len() && (#[trigger] pairs[k]).1 is None ==> join_type
                == JoinType::Left,
{
    let found = choose|found: Seq<Option<int>>|
        {
            &&& found.len() == left_order.len()
            &&& forall|k: int|
                0 <= k < left_order.len() ==> inputs.is_nearest(
                    left_order[k] as int,
                    #[trigger] found[k],
                )
            &&& pairs == asof::kept_pairs(left_order, found, join_type)
        };
    let at = kept_at(left_order, found, join_type);
    kept_from(left_order, found, join_type, at);
    assert forall|k: int| 0 <= k < pairs.len() implies 0 <= (#[trigger] pairs[k]).0
        < inputs.left.num_rows && inputs.is_nearest(pairs[k].0, pairs[k].1) && (
    pairs[k].1 is Some || join_type == JoinType::Left) by {
        let i = at[k];
        assert(left_order[i] < inputs.left.num_rows);
        assert(inputs.is_nearest(left_order[i] as int, found[i]));
    }
}

/// An inner join keeps exactly the left rows for which some right row qualifies.
pub proof fn inner_join_keeps_matched_left_rows(
    inputs: AsOfInputs,
    left_order: Seq<u32>,
    pairs: Seq<(int, Option<int>)>,
    left_row: int,
)
    requires
        rows::is_permutation(left_order, inputs.left.num_rows as nat),
        inputs.is_asof_join(left_order, JoinType::Inner, pairs),
        0 <= left_row < inputs.left.num_rows,
    ensures
        has_left_row(pairs, left_row) <==> (exists|right_row: int|
            0 <= right_row < inputs.right.num_rows && #[trigger] inputs.qualifies(
                left_row,
                right_row,
            )),
{
    let found = choose|found: Seq<Option<int>>|
        {
            &&& found.len() == left_order.len()
            &&& forall|k: int|
                0 <= k < left_order.len() ==> inputs.is_nearest(
                    left_order[k] as int,
                    #[trigger] found[k],
                )
            &&& pairs == asof::kept_pairs(left_order, found, JoinType::Inner)
        };
    let at = kept_at(left_order, found, JoinType::Inner);
    kept_from(left_order, found, JoinType::Inner, at);
    if has_left_row(pairs, left_row) {
        let k = choose|k: int| 0 <= k < pairs.len() && (#[trigger] pairs[k]).0 == left_row;
        let i = at[k];
        assert(inputs.is_nearest(left_order[i] as int, found[i]));
        assert(inputs.qualifies(left_row, found[i]->0));
    }
    if exists|right_row: int|
        0 <= right_row < inputs.right.num_rows && #[trigger] inputs.qualifies(
            left_row,
            right_row,
        ) {
        asof::permutation_covers(left_order, inputs.left.num_rows as nat, left_row);
        let i = choose|i: int| 0 <= i < left_order.len() && (#[trigger] left_order[i]) == left_row;
        assert(inputs.is_nearest(left_order[i] as int, found[i]));
        assert(found[i] is Some);
        assert(at.contains(i));
        let k = choose|k: int| 0 <= k < at.len() && at[k] == i;
        assert(pairs[k].0 == left_row);
    }
}

/// The output keeps the order in which the left rows were sorted: no left row comes
/// after one that its keys precede.
pub proof fn output_is_in_key_order(
    inputs: AsOfInputs,
    left_order: Seq<u32>,
    right_order: Seq<u32>,
    join_type: JoinType,
    i: int,
    j: int,
)
    requires
        sort::sorts_side(
            left_order,
            inputs.left_keys,
            inputs.left.num_rows as nat,
            inputs.direction,
        ),
        0 <= i < j < inputs.merged_pairs(left_order, right_order, join_type).len(),
    ensures
        ({
            let pairs = inputs.merged_pairs(left_order, right_order, join_type);
            !order::row_less(
                array::row_of(inputs.left_keys.all(), pairs[j].0),
                array::row_of(inputs.left_keys.all(), pairs[i].0),
                sort::key_options(inputs.left_keys.on@.len(), inputs.direction),
            )
        }),
{
    let found = inputs.all_found(left_order, right_order);
    inputs.merge_keeps_what_it_finds(left_order, right_order, join_type);
    let at = kept_at(left_order, found, join_type);
    kept_from(left_order, found, join_type, at);
    assert(at[i] < at[j]);
    let a = left_order[at[i]];
    let b = left_order[at[j]];
}

/// No row with a null key is matched, on either side: a matched row has an as-of key,
/// and, where nulls equal nothing, all its equality keys.
pub proof fn matched_rows_have_keys(
    inputs: AsOfInputs,
    left_order: Seq<u32>,
    right_order: Seq<u32>,
    join_type: JoinType,
    k: int,
)
    requires
        0 <= k < inputs.merged_pairs(left_order, right_order, join_type).len(),
        inputs.merged_pairs(left_order, right_order, join_type)[k].1 is Some,
    ensures
        ({
            let pair = inputs.merged_pairs(left_order, right_order, join_type)[k];
            &&& inputs.left_asof(pair.0) is Some
            &&& inputs.right_asof(pair.1->0) is Some
            &&& keys::partition_may_match(inputs.left_on(pair.0), inputs.null_equality)
            &&& keys::partition_may_match(inputs.right_on(pair.1->0), inputs.null_equality)
        }),
{
    let found = inputs.all_found(left_order, right_order);
    inputs.merge_keeps_what_it_finds(left_order, right_order, join_type);
    let at = kept_at(left_order, found, join_type);
    kept_from(left_order, found, join_type, at);
    let i = at[k];
    keys::last_candidate_is_last(
        inputs.left_view(left_order),
        i,
        inputs.right_view(right_order),
        right_order.len(),
        inputs.strict,
    );
}

/// A row with a null as-of key never qualifies, on either side.
pub proof fn null_asof_key_never_qualifies(inputs: AsOfInputs, left_row: int, right_row: int)
    requires
        inputs.left_asof(left_row) is None || inputs.right_asof(right_row) is None,
    ensures
        !inputs.qualifies(left_row, right_row),
{
}

/// Where nulls equal nothing, a row with a null among its equality keys never
/// qualifies, on either side.
pub proof fn null_equality_key_never_qualifies(
    inputs: AsOfInputs,
    left_row: int,
    right_row: int,
    k: int,
)
    requires
        inputs.null_equality == NullEquality::NullEqualsNothing,
        0 <= k < inputs.left_keys.on@.len(),
        inputs.left_keys.on@.len() == inputs.right_keys.on@.len(),
        inputs.left_on(left_row)[k] is None || inputs.right_on(right_row)[k] is None,
    ensures
        !inputs.qualifies(left_row, right_row),
{
}

/// Where nulls equal nulls, equality keys match exactly where they are the same,
/// nulls among them or not.
pub proof fn null_equality_keys_match_where_nulls_are_equal(
    inputs: AsOfInputs,
    left_row: int,
    right_row: int,
)
    requires
        inputs.null_equality == NullEquality::NullEqualsNull,
    ensures
        asof::keys_match(
            inputs.left_on(left_row),
            inputs.right_on(right_row),
            inputs.null_equality,
        ) <==> inputs.left_on(left_row) == inputs.right_on(right_row),
{
}

/// Whether `found` is what the join would look for if the right side had only the
/// rows that fall into the same part as the left row.
pub open spec fn is_nearest_within_part(
    inputs: AsOfInputs,
    part_of: spec_fn(Seq<Option<Value>>) -> int,
    left_row: int,
    found: Option<int>,
) -> bool {
    let part = part_of(inputs.left_on(left_row));
    match found {
        Some(right_row) => {
            &&& 0 <= right_row < inputs.right.num_rows
            &&& part_of(inputs.right_on(right_row)) == part
            &&& inputs.qualifies(left_row, right_row)
            &&& forall|other: int|
                0 <= other < inputs.right.num_rows && part_of(inputs.right_on(other)) == part
                    && #[trigger] inputs.qualifies(left_row, other) ==> !asof::nearer(
                    inputs.right_asof(other),
                    inputs.right_asof(right_row),
                    inputs.direction,
                )
        },
        None => forall|other: int|
            0 <= other < inputs.right.num_rows && part_of(inputs.right_on(other)) == part
                ==> !#[trigger] inputs.qualifies(left_row, other),
    }
}

/// Joining each part of the inputs by itself changes nothing, however the equality
/// keys are divided into parts.
pub proof fn parts_can_be_joined_independently(
    inputs: AsOfInputs,
    part_of: spec_fn(Seq<Option<Value>>) -> int,
    left_row: int,
    found: Option<int>,
)
    ensures
        inputs.is_nearest(left_row, found) <==> is_nearest_within_part(
            inputs,
            part_of,
            left_row,
            found,
        ),
{
    assert forall|other: int| #[trigger] inputs.qualifies(left_row, other) implies part_of(
        inputs.right_on(other),
    ) == part_of(inputs.left_on(left_row)) by {}
}

/// What a left row is joined to is settled but for ties: of two right rows that are
/// both nearest, the as-of keys are the same; and there is a nearest right row or
/// there is none.
pub proof fn nearest_is_unique_but_for_ties(
    inputs: AsOfInputs,
    left_row: int,
    one: Option<int>,
    other: Option<int>,
)
    requires
        inputs.is_nearest(left_row, one),
        inputs.is_nearest(left_row, other),
    ensures
        one is Some <==> other is Some,
        one is Some && other is Some ==> inputs.right_asof(one->0) == inputs.right_asof(
            other->0,
        ),
{
    if one is Some {
        assert(inputs.qualifies(left_row, one->0));
    }
    if other is Some {
        assert(inputs.qualifies(left_row, other->0));
    }
    if one is Some && other is Some {
        let a = inputs.right_asof(one->0)->0;
        let b = inputs.right_asof(other->0)->0;
        order::value_order(a, b, a);
    }
}

/// Right rows that qualify for a left row also qualify for the left rows with the same
/// equality keys that lie farther in the search direction: one pass over both sides
/// is enough.
pub proof fn candidates_stay_candidates(
    inputs: AsOfInputs,
    left_row: int,
    farther_left_row: int,
    right_row: int,
)
    requires
        inputs.qualifies(left_row, right_row),
        inputs.left_on(farther_left_row) == inputs.left_on(left_row),
        inputs.left_asof(farther_left_row) is Some,
        match inputs.direction {
            AsOfJoinDirection::Backward => !order::value_less(
                inputs.left_asof(farther_left_row)->0,
                inputs.left_asof(left_row)->0,
            ),
            AsOfJoinDirection::Forward => !order::value_less(
                inputs.left_asof(left_row)->0,
                inputs.left_asof(farther_left_row)->0,
            ),
        },
    ensures
        inputs.qualifies(farther_left_row, right_row),
{
    let a = inputs.left_asof(left_row)->0;
    let b = inputs.left_asof(farther_left_row)->0;
    let r = inputs.right_asof(right_row)->0;
    order::value_order(a, b, r);
    order::value_order(b, a, r);
    order::value_order(r, a, b);
    order::value_order(a, r, b);
    order::value_order(b, r, a);
    order::value_order(r, b, a);
}

/// Whether `left op right` holds of two values.
pub open spec fn holds(left: Value, op: Operator, right: Value) -> bool {
    match op {
        Operator::Lt => order::value_less(left, right),
        Operator::LtEq => !order::value_less(right, left),
        Operator::Gt => order::value_less(right, left),
        Operator::GtEq => !order::value_less(left, right),
        _ => false,
    }
}

/// A condition made from `left op right` asks for exactly that.
pub proof fn condition_means_its_operator(
    condition: AsOfJoinCondition,
    op: Operator,
    left: Value,
    right: Value,
)
    requires
        expr::is_inequality(op),
        condition.direction == condition::direction_of(op),
        condition.strict == condition::is_strict(op),
    ensures
        asof::satisfies(Some(left), Some(right), condition.direction, condition.strict) <==> holds(
            left,
            op,
            right,
        ),
{
}

/// Flipping an inequality and exchanging its operands changes nothing, and flipping
/// twice gives the inequality back.
pub proof fn flipping_keeps_meaning(op: Operator, left: Value, right: Value)
    requires
        expr::is_inequality(op),
    ensures
        expr::is_inequality(condition::flipped(op)),
        condition::flipped(condition::flipped(op)) == op,
        holds(left, op, right) <==> holds(right, condition::flipped(op), left),
        condition::is_strict(condition::flipped(op)) == condition::is_strict(op),
        condition::direction_of(condition::flipped(op)) != condition::direction_of(op),
{
}

/// What a strict inequality admits, the inequality that also admits equal keys
/// admits too, in either direction.
pub proof fn strict_matches_are_matches(
    left: Option<Value>,
    right: Option<Value>,
    direction: AsOfJoinDirection,
)
    requires
        asof::satisfies(left, right, direction, true),
    ensures
        asof::satisfies(left, right, direction, false),
{
    order::value_order(left->0, right->0, left->0);
}

/// Equal keys satisfy an inequality exactly where it is not strict.
pub proof fn equal_keys_match_unless_strict(
    key: Value,
    direction: AsOfJoinDirection,
    strict: bool,
)
    ensures
        asof::satisfies(Some(key), Some(key), direction, strict) <==> !strict,
{
    order::value_order(key, key, key);
}

/// An inner join is the left join without the left rows that no right row matches.
pub proof fn inner_join_is_left_join_without_unmatched(
    left_order: Seq<u32>,
    found: Seq<Option<int>>,
)
    requires
        found.len() == left_order.len(),
    ensures
        asof::kept_pairs(left_order, found, JoinType::Inner) == asof::kept_pairs(
            left_order,
            found,
            JoinType::Left,
        ).filter(|pair: (int, Option<int>)| pair.1 is Some),
    decreases left_order.len(),
{
    let matched = |pair: (int, Option<int>)| pair.1 is Some;
    let left = asof::kept_pairs(left_order, found, JoinType::Left);
    if left_order.len() > 0 {
        inner_join_is_left_join_without_unmatched(left_order.drop_last(), found.drop_last());
        let rest = asof::kept_pairs(left_order.drop_last(), found.drop_last(), JoinType::Left);
        let last = (left_order.last() as int, found.last());
        assert(left =~= rest.push(last));
        assert(left.drop_last() =~= rest);
        assert(left.last() == last);
        reveal(Seq::filter);
        assert(left.filter(matched) == if matched(last) {
            rest.filter(matched).push(last)
        } else {
            rest.filter(matched)
        });
        assert(asof::kept_pairs(left_order, found, JoinType::Inner) =~= left.filter(matched));
    } else {
        reveal(Seq::filter);
        assert(asof::kept_pairs(left_order, found, JoinType::Inner) =~= left.filter(matched));
    }
}

/// Applying one projection after another is applying their composition.
pub proof fn projections_compose<T>(
    all: Seq<T>,
    first: Option<Vec<usize>>,
    second: Vec<usize>,
    both: Vec<usize>,
)
    requires
        plan::projects(first, all.len()),
        plan::projects(Some(second), plan::projected(all, first).len()),
        both@ == exec::composed(first, second@),
    ensures
        plan::projected(plan::projected(all, first), Some(second)) == plan::projected(
            all,
            Some(both),
        ),
{
    let a = plan::projected(plan::projected(all, first), Some(second));
    let b = plan::projected(all, Some(both));
    assert forall|k: int| 0 <= k < a.len() implies a[k] == b[k] by {
        assert(Some(second)->0@[k] < plan::projected(all, first).len());
    }
    assert(a =~= b);
}

/// Rows of inputs with the planned columns always fit the planned output, with or
/// without a projection: running a planned join on such inputs gives rows, or why a
/// key has no value, and no other error.
pub proof fn planned_output_always_fits(
    join: AsOfJoinExec,
    task: JoinTask,
    left_input: JoinInput,
    right_input: JoinInput,
    result: Result<RecordBatch, JoinError>,
)
    requires
        join.wf(),
        join.is_task(task),
        left_input.wf(task.on@.len()),
        right_input.wf(task.on@.len()),
        left_input.batch.schema == task.left_schema,
        right_input.batch.schema == task.right_schema,
        task.may_return(left_input, right_input, result),
    ensures
        result is Ok <==> join::join_refusal(
            right_input.batch.num_rows as nat,
            left_input.keys,
            right_input.keys,
        ) is None,
{
    let inputs = task.inputs(left_input, right_input);
    let left = left_input.batch;
    let right = right_input.batch;
    if join::join_refusal(right.num_rows as nat, left_input.keys, right_input.keys) is None {
        let (left_order, right_order) = choose|left_order: Seq<u32>, right_order: Seq<u32>|
            #[trigger] inputs.may_return(
                left_order,
                right_order,
                task.join_type,
                task.schema,
                task.column_indices@,
                result,
            );
        let pairs = inputs.merged_pairs(left_order, right_order, task.join_type);
        let lefts = join::left_of(pairs);
        let rights = join::right_of(pairs);
        join::pairs_in_range(
            inputs.left_view(left_order),
            inputs.right_view(right_order),
            left_order.len(),
            task.join_type,
            inputs.strict,
        );
        let positions = merge::join_pairs(
            inputs.left_view(left_order),
            inputs.right_view(right_order),
            left_order.len(),
            task.join_type,
            inputs.strict,
        );
        assert forall|k: int| 0 <= k < pairs.len() implies 0 <= (#[trigger] pairs[k]).0
            < left.num_rows && (pairs[k].1 is Some ==> 0 <= pairs[k].1->0 < right.num_rows) && (
        pairs[k].1 is None ==> task.join_type == JoinType::Left) by {
            let position = positions[k];
            assert(left_order[position.0] < left.num_rows);
            if position.1 is Some {
                assert(right_order[position.1->0] < right.num_rows);
            }
        }
        let columns = task.column_indices@;
        let width = left.columns@.len() as int;
        assert(left.columns.len() == left.columns@.len());
        assert(right.columns.len() == right.columns@.len());
        assert forall|c: int| 0 <= c < columns.len() implies batch::cells_conform(
            join::output_type(left, right, #[trigger] columns[c]),
            join::output_cells(left, right, lefts, rights, columns[c]),
            task.schema.fields@[c],
        ) by {
            let j = match join.projection {
                Some(projection) => projection@[c] as int,
                None => c,
            };
            if join.projection is Some {
                assert(join.projection->0@[c] < exec::joined_width(join.left, join.right));
            }
            assert(columns[c] == join.column_indices@[j]);
            assert(task.schema.fields@[c] == join.join_schema.fields@[j]);
            let cells = join::output_cells(left, right, lefts, rights, columns[c]);
            if j < width {
                assert(batch::column_conforms(left.columns@[j], left.schema.fields@[j]));
                assert(left.columns@[j]@.len() == left.num_rows);
                assert forall|k: int| 0 <= k < cells.len() implies #[trigger] cells[k]
                    == left.columns@[j]@[pairs[k].0] by {}
            } else {
                let r = j - width;
                assert(batch::column_conforms(right.columns@[r], right.schema.fields@[r]));
                assert(right.columns@[r]@.len() == right.num_rows);
                assert forall|k: int|
                    0 <= k < cells.len() && pairs[k].1 is Some implies #[trigger] cells[k]
                    == right.columns@[r]@[pairs[k].1->0] by {}
                if task.join_type == JoinType::Inner {
                    assert forall|k: int|
                        0 <= k < cells.len()
                            && !task.schema.fields@[c].nullable implies (
                    #[trigger] cells[k]) is Some by {
                        assert(pairs[k].1 is Some);
                    }
                }
            }
        }
        assert(join::output_conforms(task.schema, left, right, lefts, rights, columns));
    }
}

} // verus!
