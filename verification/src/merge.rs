//! The linear merge of two sorted sides into pairs of matching row indices.
use crate::keys;
use crate::keys::{KeyOrder, KeyView, SortedKeyValues};
use crate::order;
use crate::rows;
use crate::rows::{LeftIndices, RightIndices};
use crate::types::JoinType;
use vstd::prelude::*;

verus! {

/// What a left row contributes to the output: itself with its match, itself alone
/// where a left join keeps it without one, or nothing.
pub open spec fn contribution(
    left_row: int,
    found: Option<int>,
    join_type: JoinType,
) -> Seq<(int, Option<int>)> {
    if found is Some || join_type == JoinType::Left {
        seq![(left_row, found)]
    } else {
        Seq::empty()
    }
}

/// What the first `n` left rows contribute to the output.
pub open spec fn join_pairs(
    left: KeyView,
    right: KeyView,
    n: nat,
    join_type: JoinType,
    strict: bool,
) -> Seq<(int, Option<int>)>
    decreases n,
{
    if n == 0 {
        Seq::empty()
    } else {
        join_pairs(left, right, (n - 1) as nat, join_type, strict) + contribution(
            n - 1,
            keys::last_candidate(left, n - 1, right, right.len(), strict),
            join_type,
        )
    }
}

/// The left indices of some pairs.
pub open spec fn left_slots(pairs: Seq<(int, Option<int>)>) -> Seq<Option<u64>> {
    Seq::new(pairs.len(), |k: int| Some(pairs[k].0 as u64))
}

/// The right indices of some pairs, null where there is no match.
pub open spec fn right_slots(pairs: Seq<(int, Option<int>)>) -> Seq<Option<u32>> {
    Seq::new(
        pairs.len(),
        |k: int|
            match pairs[k].1 {
                Some(row) => Some(row as u32),
                None => None,
            },
    )
}

/// Whether the builders hold exactly the given pairs.
pub open spec fn holds(
    left_indices: LeftIndices,
    right_indices: RightIndices,
    pairs: Seq<(int, Option<int>)>,
) -> bool {
    &&& rows::left_indices_view(left_indices) == left_slots(pairs)
    &&& rows::right_indices_view(right_indices) == right_slots(pairs)
}

/// Whether the given pairs, and nothing else, have been appended to the builders.
pub open spec fn appended(
    left_before: LeftIndices,
    right_before: RightIndices,
    left_after: LeftIndices,
    right_after: RightIndices,
    pairs: Seq<(int, Option<int>)>,
) -> bool {
    &&& rows::left_indices_view(left_after) == rows::left_indices_view(left_before) + left_slots(
        pairs,
    )
    &&& rows::right_indices_view(right_after) == rows::right_indices_view(right_before)
        + right_slots(pairs)
}

/// What is appended to builders stands behind what they held.
proof fn holds_appended(
    left_before: LeftIndices,
    right_before: RightIndices,
    left_after: LeftIndices,
    right_after: RightIndices,
    before: Seq<(int, Option<int>)>,
    pairs: Seq<(int, Option<int>)>,
)
    requires
        holds(left_before, right_before, before),
        appended(left_before, right_before, left_after, right_after, pairs),
    ensures
        holds(left_after, right_after, before + pairs),
{
    assert(left_slots(before) + left_slots(pairs) =~= left_slots(before + pairs));
    assert(right_slots(before) + right_slots(pairs) =~= right_slots(before + pairs));
}

/// What the left rows from `start` to `end` contribute without any match.
pub open spec fn unmatched_pairs(start: int, end: int, join_type: JoinType) -> Seq<
    (int, Option<int>),
> {
    if join_type == JoinType::Left && start < end {
        Seq::new((end - start) as nat, |k: int| (start + k, None))
    } else {
        Seq::empty()
    }
}

/// Appends a left row without a match, where the join keeps it.
pub(crate) fn append_unmatched_left(
    left_row: usize,
    join_type: JoinType,
    left_indices: &mut LeftIndices,
    right_indices: &mut RightIndices,
)
    ensures
        appended(
            *old(left_indices),
            *old(right_indices),
            *final(left_indices),
            *final(right_indices),
            contribution(left_row as int, None, join_type),
        ),
{
    if join_type == JoinType::Left {
        left_indices.append_value(left_row as u64);
        right_indices.append_null();
    }
    let ghost pairs = contribution(left_row as int, None, join_type);
    assert(rows::left_indices_view(*left_indices) =~= rows::left_indices_view(*old(left_indices))
        + left_slots(pairs));
    assert(rows::right_indices_view(*right_indices) =~= rows::right_indices_view(
        *old(right_indices),
    ) + right_slots(pairs));
}

/// Appends a left row with its match.
fn append_matched(
    left_row: usize,
    right_row: usize,
    join_type: JoinType,
    left_indices: &mut LeftIndices,
    right_indices: &mut RightIndices,
)
    requires
        right_row <= u32::MAX,
    ensures
        appended(
            *old(left_indices),
            *old(right_indices),
            *final(left_indices),
            *final(right_indices),
            contribution(left_row as int, Some(right_row as int), join_type),
        ),
{
    left_indices.append_value(left_row as u64);
    right_indices.append_value(right_row as u32);
    let ghost pairs = contribution(left_row as int, Some(right_row as int), join_type);
    assert(rows::left_indices_view(*left_indices) =~= rows::left_indices_view(*old(left_indices))
        + left_slots(pairs));
    assert(rows::right_indices_view(*right_indices) =~= rows::right_indices_view(
        *old(right_indices),
    ) + right_slots(pairs));
}

/// Appends left rows none of which has a match, where the join keeps them.
pub(crate) fn append_unmatched_left_partition(
    left_start: usize,
    left_end: usize,
    join_type: JoinType,
    left_indices: &mut LeftIndices,
    right_indices: &mut RightIndices,
)
    ensures
        appended(
            *old(left_indices),
            *old(right_indices),
            *final(left_indices),
            *final(right_indices),
            unmatched_pairs(left_start as int, left_end as int, join_type),
        ),
{
    if join_type != JoinType::Left {
        assert(rows::left_indices_view(*left_indices) =~= rows::left_indices_view(
            *old(left_indices),
        ) + left_slots(unmatched_pairs(left_start as int, left_end as int, join_type)));
        assert(rows::right_indices_view(*right_indices) =~= rows::right_indices_view(
            *old(right_indices),
        ) + right_slots(unmatched_pairs(left_start as int, left_end as int, join_type)));
        return ;
    }
    let mut left_row = left_start;
    assert(rows::left_indices_view(*left_indices) =~= rows::left_indices_view(*old(left_indices))
        + left_slots(unmatched_pairs(left_start as int, left_row as int, join_type)));
    assert(rows::right_indices_view(*right_indices) =~= rows::right_indices_view(
        *old(right_indices),
    ) + right_slots(unmatched_pairs(left_start as int, left_row as int, join_type)));
    while left_row < left_end
        invariant
            join_type == JoinType::Left,
            left_start <= left_row,
            left_start <= left_end ==> left_row <= left_end,
            left_end < left_start ==> left_row == left_start,
            appended(
                *old(left_indices),
                *old(right_indices),
                *left_indices,
                *right_indices,
                unmatched_pairs(left_start as int, left_row as int, join_type),
            ),
        decreases left_end - left_row,
    {
        left_indices.append_value(left_row as u64);
        right_indices.append_null();
        left_row = left_row + 1;
        let ghost pairs = unmatched_pairs(left_start as int, left_row as int, join_type);
        assert(rows::left_indices_view(*left_indices) =~= rows::left_indices_view(
            *old(left_indices),
        ) + left_slots(pairs));
        assert(rows::right_indices_view(*right_indices) =~= rows::right_indices_view(
            *old(right_indices),
        ) + right_slots(pairs));
    }
}

/// Whether a right row in the same partition is allowed as the match of a left row.
pub open spec fn allowed(
    left: KeyView,
    left_row: int,
    right: KeyView,
    right_row: int,
    strict: bool,
) -> bool {
    &&& left.joinable(left_row)
    &&& right.joinable(right_row)
    &&& keys::passes(right, right_row, left, left_row, strict)
}

/// The last right row from `start` to `end` that is allowed as the match of a left row of
/// the same partition.
pub open spec fn last_allowed(
    left: KeyView,
    left_row: int,
    right: KeyView,
    start: int,
    end: int,
    strict: bool,
) -> Option<int>
    decreases end - start,
{
    if end <= start {
        None
    } else if allowed(left, left_row, right, end - 1, strict) {
        Some(end - 1)
    } else {
        last_allowed(left, left_row, right, start, end - 1, strict)
    }
}

/// What the left rows from `left_start` to `left_end` contribute, where the right rows
/// from `right_start` to `right_end` are those of the same partition.
pub open spec fn partition_pairs(
    left: KeyView,
    right: KeyView,
    left_start: int,
    left_end: int,
    right_start: int,
    right_end: int,
    join_type: JoinType,
    strict: bool,
) -> Seq<(int, Option<int>)>
    decreases left_end - left_start,
{
    if left_end <= left_start {
        Seq::empty()
    } else {
        partition_pairs(
            left,
            right,
            left_start,
            left_end - 1,
            right_start,
            right_end,
            join_type,
            strict,
        ) + contribution(
            left_end - 1,
            last_allowed(left, left_end - 1, right, right_start, right_end, strict),
            join_type,
        )
    }
}

/// Whether the as-of keys of the rows from `start` to `end` that may match at all never
/// descend.
pub open spec fn asof_sorted(keys: KeyView, start: int, end: int) -> bool {
    forall|i: int, j: int|
        start <= i < j < end && #[trigger] keys.joinable(i) && #[trigger] keys.joinable(j)
            ==> !order::bytes_less(keys.asof[j], keys.asof[i])
}

/// The last allowed row is the greatest row in the range that is allowed, if there is
/// one.
pub proof fn last_allowed_is_last(
    left: KeyView,
    left_row: int,
    right: KeyView,
    start: int,
    end: int,
    strict: bool,
)
    ensures
        match last_allowed(left, left_row, right, start, end, strict) {
            Some(j) => {
                &&& start <= j < end
                &&& allowed(left, left_row, right, j, strict)
                &&& forall|k: int| j < k < end ==> !allowed(left, left_row, right, k, strict)
            },
            None => forall|k: int|
                start <= k < end ==> !allowed(left, left_row, right, k, strict),
        },
    decreases end - start,
{
    if start < end {
        last_allowed_is_last(left, left_row, right, start, end - 1, strict);
    }
}

/// A row that is allowed with none after it in the range is the last one.
proof fn last_allowed_from(
    left: KeyView,
    left_row: int,
    right: KeyView,
    start: int,
    end: int,
    strict: bool,
    found: Option<int>,
)
    requires
        match found {
            Some(j) => {
                &&& start <= j < end
                &&& allowed(left, left_row, right, j, strict)
                &&& forall|k: int| j < k < end ==> !allowed(left, left_row, right, k, strict)
            },
            None => forall|k: int|
                start <= k < end ==> !allowed(left, left_row, right, k, strict),
        },
    ensures
        last_allowed(left, left_row, right, start, end, strict) == found,
{
    last_allowed_is_last(left, left_row, right, start, end, strict);
    let l = last_allowed(left, left_row, right, start, end, strict);
    if let Some(j) = l {
        assert(allowed(left, left_row, right, j, strict));
    }
    if let Some(j) = found {
        assert(allowed(left, left_row, right, j, strict));
    }
}

/// A right row that passes for a left row passes for every left row whose as-of key does
/// not come before.
proof fn passes_later(
    left: KeyView,
    right: KeyView,
    right_row: int,
    earlier: int,
    later: int,
    strict: bool,
)
    requires
        !order::bytes_less(left.asof[later], left.asof[earlier]),
        keys::passes(right, right_row, left, earlier, strict),
    ensures
        keys::passes(right, right_row, left, later, strict),
{
    let r = right.asof[right_row];
    let e = left.asof[earlier];
    let l = left.asof[later];
    order::bytes_order(r, e, l);
    order::bytes_order(e, l, r);
    order::bytes_order(l, r, e);
    order::bytes_order(l, e, r);
}

/// Where a right row does not pass for a left row, none does whose as-of key does not
/// come before.
proof fn fails_later(
    left: KeyView,
    right: KeyView,
    left_row: int,
    earlier: int,
    later: int,
    strict: bool,
)
    requires
        !order::bytes_less(right.asof[later], right.asof[earlier]),
        !keys::passes(right, earlier, left, left_row, strict),
    ensures
        !keys::passes(right, later, left, left_row, strict),
{
    let l = left.asof[left_row];
    let e = right.asof[earlier];
    let r = right.asof[later];
    order::bytes_order(e, r, l);
    order::bytes_order(l, e, r);
    order::bytes_order(r, l, e);
    order::bytes_order(r, e, l);
}

/// What is appended to builders stands behind what was appended before.
proof fn appended_twice(
    left_before: LeftIndices,
    right_before: RightIndices,
    left_between: LeftIndices,
    right_between: RightIndices,
    left_after: LeftIndices,
    right_after: RightIndices,
    first: Seq<(int, Option<int>)>,
    second: Seq<(int, Option<int>)>,
)
    requires
        appended(left_before, right_before, left_between, right_between, first),
        appended(left_between, right_between, left_after, right_after, second),
    ensures
        appended(left_before, right_before, left_after, right_after, first + second),
{
    assert(left_slots(first) + left_slots(second) =~= left_slots(first + second));
    assert(right_slots(first) + right_slots(second) =~= right_slots(first + second));
    assert(rows::left_indices_view(left_after) =~= rows::left_indices_view(left_before)
        + left_slots(first + second));
    assert(rows::right_indices_view(right_after) =~= rows::right_indices_view(right_before)
        + right_slots(first + second));
}

/// Appends the left rows of one partition, each with the last row of the right
/// partition that is allowed as its match.
pub(crate) fn append_asof_partition(
    left_keys: &SortedKeyValues,
    right_keys: &SortedKeyValues,
    left_start: usize,
    left_end: usize,
    right_start: usize,
    right_end: usize,
    join_type: JoinType,
    strict: bool,
    left_indices: &mut LeftIndices,
    right_indices: &mut RightIndices,
)
    requires
        left_keys.wf(),
        right_keys.wf(),
        left_end <= left_keys@.len(),
        right_end <= right_keys@.len(),
        right_end <= u32::MAX,
        asof_sorted(left_keys@, left_start as int, left_end as int),
        asof_sorted(right_keys@, right_start as int, right_end as int),
    ensures
        appended(
            *old(left_indices),
            *old(right_indices),
            *final(left_indices),
            *final(right_indices),
            partition_pairs(
                left_keys@,
                right_keys@,
                left_start as int,
                left_end as int,
                right_start as int,
                right_end as int,
                join_type,
                strict,
            ),
        ),
{
    let mut right_pos = right_start;
    let mut last_match: Option<usize> = None;
    let mut left_row = left_start;
    let ghost lk = left_keys@;
    let ghost rk = right_keys@;
    proof {
        let none = Seq::<(int, Option<int>)>::empty();
        assert(left_slots(none) =~= Seq::empty());
        assert(right_slots(none) =~= Seq::empty());
        assert(rows::left_indices_view(*left_indices) =~= rows::left_indices_view(
            *old(left_indices),
        ) + left_slots(none));
        assert(rows::right_indices_view(*right_indices) =~= rows::right_indices_view(
            *old(right_indices),
        ) + right_slots(none));
    }
    while left_row < left_end
        invariant
            left_keys.wf(),
            right_keys.wf(),
            lk == left_keys@,
            rk == right_keys@,
            left_start <= left_row,
            left_start <= left_end ==> left_row <= left_end,
            left_end < left_start ==> left_row == left_start,
            left_end <= lk.len(),
            right_start <= right_pos,
            right_start <= right_end ==> right_pos <= right_end,
            right_end < right_start ==> right_pos == right_start,
            right_end <= rk.len(),
            right_end <= u32::MAX,
            asof_sorted(lk, left_start as int, left_end as int),
            asof_sorted(rk, right_start as int, right_end as int),
            match last_match {
                Some(j) => right_start <= j < right_pos <= right_end && rk.joinable(j as int)
                    && forall|k: int| j < k < right_pos ==> !#[trigger] rk.joinable(k),
                None => forall|k: int| right_start <= k < right_pos ==> !#[trigger] rk.joinable(k),
            },
            forall|k: int, i: int|
                right_start <= k < right_pos && rk.joinable(k) && left_row <= i < left_end
                    && lk.joinable(i) ==> #[trigger] keys::passes(rk, k, lk, i, strict),
            appended(
                *old(left_indices),
                *old(right_indices),
                *left_indices,
                *right_indices,
                partition_pairs(
                    lk,
                    rk,
                    left_start as int,
                    left_row as int,
                    right_start as int,
                    right_end as int,
                    join_type,
                    strict,
                ),
            ),
        decreases left_end - left_row,
    {
        let ghost before = partition_pairs(
            lk,
            rk,
            left_start as int,
            left_row as int,
            right_start as int,
            right_end as int,
            join_type,
            strict,
        );
        let ghost left_before = *left_indices;
        let ghost right_before = *right_indices;
        let ghost found = last_allowed(
            lk,
            left_row as int,
            rk,
            right_start as int,
            right_end as int,
            strict,
        );
        if !left_keys.is_joinable(left_row) {
            append_unmatched_left(left_row, join_type, left_indices, right_indices);
            proof {
                last_allowed_from(
                    lk,
                    left_row as int,
                    rk,
                    right_start as int,
                    right_end as int,
                    strict,
                    None,
                );
            }
        } else {
            while right_pos < right_end && (!right_keys.is_joinable(right_pos)
                || right_keys.passes_asof(right_pos, left_keys, left_row, strict))
                invariant
                    left_keys.wf(),
                    right_keys.wf(),
                    lk == left_keys@,
                    rk == right_keys@,
                    left_start <= left_row < left_end <= lk.len(),
                    lk.joinable(left_row as int),
                    right_start <= right_pos,
                    right_start <= right_end ==> right_pos <= right_end,
                    right_end < right_start ==> right_pos == right_start,
                    right_end <= rk.len(),
                    asof_sorted(lk, left_start as int, left_end as int),
                    match last_match {
                        Some(j) => right_start <= j < right_pos <= right_end && rk.joinable(
                            j as int,
                        ) && forall|k: int| j < k < right_pos ==> !#[trigger] rk.joinable(k),
                        None => forall|k: int|
                            right_start <= k < right_pos ==> !#[trigger] rk.joinable(k),
                    },
                    forall|k: int, i: int|
                        right_start <= k < right_pos && rk.joinable(k) && left_row <= i < left_end
                            && lk.joinable(i) ==> #[trigger] keys::passes(rk, k, lk, i, strict),
                decreases right_end - right_pos,
            {
                if right_keys.is_joinable(right_pos) {
                    last_match = Some(right_pos);
                    proof {
                        assert forall|i: int|
                            left_row <= i < left_end && lk.joinable(i) implies #[trigger] keys::passes(
                            rk,
                            right_pos as int,
                            lk,
                            i,
                            strict,
                        ) by {
                            if left_row < i {
                                assert(lk.joinable(left_row as int));
                                passes_later(
                                    lk,
                                    rk,
                                    right_pos as int,
                                    left_row as int,
                                    i,
                                    strict,
                                );
                            }
                        }
                    }
                }
                right_pos = right_pos + 1;
            }
            proof {
                assert forall|k: int| right_pos <= k < right_end implies !allowed(
                    lk,
                    left_row as int,
                    rk,
                    k,
                    strict,
                ) by {
                    if right_pos < k && rk.joinable(k) {
                        assert(rk.joinable(right_pos as int));
                        fails_later(lk, rk, left_row as int, right_pos as int, k, strict);
                    }
                }
                let m = match last_match {
                    Some(j) => Some(j as int),
                    None => None,
                };
                last_allowed_from(
                    lk,
                    left_row as int,
                    rk,
                    right_start as int,
                    right_end as int,
                    strict,
                    m,
                );
            }
            match last_match {
                Some(right_row) => append_matched(
                    left_row,
                    right_row,
                    join_type,
                    left_indices,
                    right_indices,
                ),
                None => append_unmatched_left(left_row, join_type, left_indices, right_indices),
            }
        }
        proof {
            appended_twice(
                *old(left_indices),
                *old(right_indices),
                left_before,
                right_before,
                *left_indices,
                *right_indices,
                before,
                contribution(left_row as int, found, join_type),
            );
        }
        left_row = left_row + 1;
    }
}

/// Where the right rows of a range are those of the partition of the left rows of a
/// range, what the left rows contribute is settled by these right rows.
proof fn partition_rows(
    left: KeyView,
    right: KeyView,
    left_start: nat,
    left_end: nat,
    right_start: int,
    right_end: int,
    join_type: JoinType,
    strict: bool,
)
    requires
        left_start <= left_end <= left.len(),
        0 <= right_start <= right_end <= right.len(),
        forall|i: int, j: int|
            left_start <= i < left_end && 0 <= j < right.len() ==> (
            #[trigger] left.same_partition(i, right, j) <==> right_start <= j < right_end),
    ensures
        join_pairs(left, right, left_end, join_type, strict) == join_pairs(
            left,
            right,
            left_start,
            join_type,
            strict,
        ) + partition_pairs(
            left,
            right,
            left_start as int,
            left_end as int,
            right_start,
            right_end,
            join_type,
            strict,
        ),
    decreases left_end,
{
    let before = join_pairs(left, right, left_start, join_type, strict);
    let pairs = |end: int|
        partition_pairs(
            left,
            right,
            left_start as int,
            end,
            right_start,
            right_end,
            join_type,
            strict,
        );
    if left_start == left_end {
        assert(before + pairs(left_end as int) =~= before);
    } else {
        let last = (left_end - 1) as nat;
        partition_rows(
            left,
            right,
            left_start,
            last,
            right_start,
            right_end,
            join_type,
            strict,
        );
        let found = last_allowed(left, last as int, right, right_start, right_end, strict);
        last_allowed_is_last(left, last as int, right, right_start, right_end, strict);
        assert forall|k: int| 0 <= k < right.len() implies keys::candidate(
            left,
            last as int,
            right,
            k,
            strict,
        ) == (right_start <= k < right_end && allowed(left, last as int, right, k, strict)) by {
            assert(left.same_partition(last as int, right, k) <==> right_start <= k < right_end);
        }
        keys::last_candidate_from(left, last as int, right, right.len(), strict, found);
        let added = contribution(last as int, found, join_type);
        assert((before + pairs(last as int)) + added =~= before + (pairs(last as int) + added));
    }
}

/// Left rows without candidates contribute themselves alone, where the join keeps
/// them.
proof fn unmatched_rows(
    left: KeyView,
    right: KeyView,
    start: nat,
    end: nat,
    join_type: JoinType,
    strict: bool,
)
    requires
        start <= end <= left.len(),
        forall|i: int, j: int|
            start <= i < end && 0 <= j < right.len() ==> !#[trigger] left.same_partition(i, right, j),
    ensures
        join_pairs(left, right, end, join_type, strict) == join_pairs(
            left,
            right,
            start,
            join_type,
            strict,
        ) + unmatched_pairs(start as int, end as int, join_type),
    decreases end,
{
    let before = join_pairs(left, right, start, join_type, strict);
    if start == end {
        assert(before + unmatched_pairs(start as int, end as int, join_type) =~= before);
    } else {
        let last = (end - 1) as nat;
        unmatched_rows(left, right, start, last, join_type, strict);
        keys::last_candidate_from(left, last as int, right, right.len(), strict, None);
        assert(unmatched_pairs(start as int, last as int, join_type) + contribution(
            last as int,
            None,
            join_type,
        ) =~= unmatched_pairs(start as int, end as int, join_type));
        assert((before + unmatched_pairs(start as int, last as int, join_type)) + contribution(
            last as int,
            None,
            join_type,
        ) =~= before + unmatched_pairs(start as int, end as int, join_type));
    }
}

/// Where a run of one partition ends, the next partition is strictly greater.
proof fn partition_after_run(keys: KeyView, start: int, end: int, row: int)
    requires
        keys.wf(),
        keys.sorted(),
        0 <= start < end <= row < keys.len(),
        !keys.same_partition(start, keys, end),
    ensures
        keys.partition_less(start, keys, row),
        !keys.same_partition(start, keys, row),
{
    let p = keys.partition->0;
    assert(!keys.partition_less(end, keys, start));
    order::bytes_order(p[start], p[end], p[row]);
    if end < row {
        assert(!keys.partition_less(row, keys, end));
        order::bytes_order(p[end], p[row], p[start]);
    }
    order::bytes_order(p[start], p[row], p[end]);
    order::bytes_order(p[row], p[end], p[start]);
}

/// In a run of one partition of sorted keys, the as-of keys never descend.
proof fn run_is_sorted(keys: KeyView, start: int, end: int)
    requires
        keys.sorted(),
        0 <= start < end <= keys.len(),
        forall|k: int| start <= k < end ==> #[trigger] keys.same_partition(start, keys, k),
    ensures
        asof_sorted(keys, start, end),
{
    assert forall|i: int, j: int|
        start <= i < j < end && #[trigger] keys.joinable(i) && #[trigger] keys.joinable(
            j,
        ) implies !order::bytes_less(keys.asof[j], keys.asof[i]) by {
        assert(keys.same_partition(start, keys, i));
        assert(keys.same_partition(start, keys, j));
        assert(keys.same_partition(i, keys, j));
    }
}

/// Merges the sorted keys of both sides: for every left row, in order, the last
/// right row that is allowed as its match.
pub fn merge_sorted(
    left_keys: &SortedKeyValues,
    right_keys: &SortedKeyValues,
    join_type: JoinType,
    strict: bool,
) -> (indices: (Vec<Option<u64>>, Vec<Option<u32>>))
    requires
        left_keys.wf(),
        right_keys.wf(),
        left_keys@.sorted(),
        right_keys@.sorted(),
        left_keys@.partition is Some <==> right_keys@.partition is Some,
        right_keys@.len() <= u32::MAX,
    ensures
        indices.0@ == left_slots(
            join_pairs(left_keys@, right_keys@, left_keys@.len(), join_type, strict),
        ),
        indices.1@ == right_slots(
            join_pairs(left_keys@, right_keys@, left_keys@.len(), join_type, strict),
        ),
{
    let mut left_indices = LeftIndices::new();
    let mut right_indices = RightIndices::new();
    let left_rows = left_keys.num_rows();
    let right_rows = right_keys.num_rows();
    let mut left_pos: usize = 0;
    let mut right_pos: usize = 0;
    let ghost lk = left_keys@;
    let ghost rk = right_keys@;
    proof {
        left_keys.wf_view();
        right_keys.wf_view();
        let none = join_pairs(lk, rk, 0, join_type, strict);
        assert(rows::left_indices_view(left_indices) =~= left_slots(none));
        assert(rows::right_indices_view(right_indices) =~= right_slots(none));
    }
    while left_pos < left_rows
        invariant
            left_keys.wf(),
            right_keys.wf(),
            lk == left_keys@,
            rk == right_keys@,
            lk.wf(),
            rk.wf(),
            lk.sorted(),
            rk.sorted(),
            lk.partition is Some <==> rk.partition is Some,
            left_rows == lk.len(),
            right_rows == rk.len(),
            right_rows <= u32::MAX,
            left_pos <= left_rows,
            right_pos <= right_rows,
            forall|i: int, j: int|
                left_pos <= i < left_rows && 0 <= j < right_pos ==> !#[trigger] lk.same_partition(i, rk, j),
            holds(left_indices, right_indices, join_pairs(lk, rk, left_pos as nat, join_type, strict)),
        decreases (left_rows - left_pos) + (right_rows - right_pos),
    {
        let ghost left_before = left_indices;
        let ghost right_before = right_indices;
        let ghost before = join_pairs(lk, rk, left_pos as nat, join_type, strict);
        if right_pos >= right_rows {
            append_unmatched_left_partition(
                left_pos,
                left_rows,
                join_type,
                &mut left_indices,
                &mut right_indices,
            );
            proof {
                unmatched_rows(lk, rk, left_pos as nat, left_rows as nat, join_type, strict);
                holds_appended(
                    left_before,
                    right_before,
                    left_indices,
                    right_indices,
                    before,
                    unmatched_pairs(left_pos as int, left_rows as int, join_type),
                );
            }
            left_pos = left_rows;
        } else {
            match left_keys.partition_order(left_pos, right_keys, right_pos) {
                KeyOrder::Less => {
                    let left_end = left_keys.partition_end(left_pos);
                    append_unmatched_left_partition(
                        left_pos,
                        left_end,
                        join_type,
                        &mut left_indices,
                        &mut right_indices,
                    );
                    proof {
                        assert forall|i: int, j: int|
                            left_pos <= i < left_end && 0 <= j < rk.len() implies
                            !#[trigger] lk.same_partition(i, rk, j) by {
                            assert(lk.same_partition(left_pos as int, lk, i));
                            if j >= right_pos {
                                let p = lk.partition->0;
                                let q = rk.partition->0;
                                if j > right_pos {
                                    assert(!rk.partition_less(j, rk, right_pos as int));
                                }
                                order::bytes_order(p[i], q[right_pos as int], q[j]);
                                order::bytes_order(q[right_pos as int], q[j], p[i]);
                                order::bytes_order(q[j], q[right_pos as int], p[i]);
                            }
                        }
                        unmatched_rows(lk, rk, left_pos as nat, left_end as nat, join_type, strict);
                        holds_appended(
                            left_before,
                            right_before,
                            left_indices,
                            right_indices,
                            before,
                            unmatched_pairs(left_pos as int, left_end as int, join_type),
                        );
                    }
                    left_pos = left_end;
                },
                KeyOrder::Greater => {
                    let right_end = right_keys.partition_end(right_pos);
                    proof {
                        assert forall|i: int, j: int|
                            left_pos <= i < left_rows && 0 <= j < right_end implies
                            !#[trigger] lk.same_partition(i, rk, j) by {
                            if j >= right_pos {
                                assert(rk.same_partition(right_pos as int, rk, j));
                                let p = lk.partition->0;
                                let q = rk.partition->0;
                                if i > left_pos {
                                    assert(!lk.partition_less(i, lk, left_pos as int));
                                }
                                order::bytes_order(q[j], p[left_pos as int], p[i]);
                                order::bytes_order(p[left_pos as int], p[i], q[j]);
                                order::bytes_order(p[i], p[left_pos as int], q[j]);
                            }
                        }
                    }
                    right_pos = right_end;
                },
                KeyOrder::Equal => {
                    let left_end = left_keys.partition_end(left_pos);
                    let right_end = right_keys.partition_end(right_pos);
                    proof {
                        run_is_sorted(lk, left_pos as int, left_end as int);
                        run_is_sorted(rk, right_pos as int, right_end as int);
                        assert forall|i: int, j: int|
                            left_pos <= i < left_end && 0 <= j < rk.len() implies (
                            #[trigger] lk.same_partition(i, rk, j) <==> right_pos <= j < right_end) by {
                            assert(lk.same_partition(left_pos as int, lk, i));
                            if right_pos <= j < right_end {
                                assert(rk.same_partition(right_pos as int, rk, j));
                            } else if j >= right_end {
                                partition_after_run(rk, right_pos as int, right_end as int, j);
                            }
                        }
                    }
                    append_asof_partition(
                        left_keys,
                        right_keys,
                        left_pos,
                        left_end,
                        right_pos,
                        right_end,
                        join_type,
                        strict,
                        &mut left_indices,
                        &mut right_indices,
                    );
                    proof {
                        partition_rows(
                            lk,
                            rk,
                            left_pos as nat,
                            left_end as nat,
                            right_pos as int,
                            right_end as int,
                            join_type,
                            strict,
                        );
                        holds_appended(
                            left_before,
                            right_before,
                            left_indices,
                            right_indices,
                            before,
                            partition_pairs(
                                lk,
                                rk,
                                left_pos as int,
                                left_end as int,
                                right_pos as int,
                                right_end as int,
                                join_type,
                                strict,
                            ),
                        );
                        assert forall|i: int, j: int|
                            left_end <= i < left_rows && 0 <= j < right_end implies
                            !#[trigger] lk.same_partition(i, rk, j) by {
                            partition_after_run(lk, left_pos as int, left_end as int, i);
                            if j >= right_pos {
                                assert(rk.same_partition(right_pos as int, rk, j));
                            }
                        }
                    }
                    left_pos = left_end;
                    right_pos = right_end;
                },
            }
        }
    }
    (left_indices.finish(), right_indices.finish())
}

} // verus!
