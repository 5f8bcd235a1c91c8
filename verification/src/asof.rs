//! What an as-of join is: for each left row, the nearest right row that has equal
//! equality keys and satisfies the inequality.
use crate::array;
use crate::batch::RecordBatch;
use crate::condition;
use crate::condition::AsOfJoinDirection;
use crate::eval::KeyColumns;
use crate::keys;
use crate::keys::KeyView;
use crate::merge;
use crate::order;
use crate::order::{SortOptions, Value};
use crate::rows;
use crate::sort;
use crate::types::{JoinType, NullEquality};
use vstd::prelude::*;

verus! {

/// Whether the equality keys of a left and a right row match.
pub open spec fn keys_match(
    left: Seq<Option<Value>>,
    right: Seq<Option<Value>>,
    null_equality: NullEquality,
) -> bool {
    left == right && keys::partition_may_match(left, null_equality)
}

/// Whether the as-of keys of a left and a right row satisfy the inequality; a null
/// never does.
pub open spec fn satisfies(
    left: Option<Value>,
    right: Option<Value>,
    direction: AsOfJoinDirection,
    strict: bool,
) -> bool {
    match (left, right) {
        (Some(l), Some(r)) => match (direction, strict) {
            (AsOfJoinDirection::Backward, true) => order::value_less(r, l),
            (AsOfJoinDirection::Backward, false) => !order::value_less(l, r),
            (AsOfJoinDirection::Forward, true) => order::value_less(l, r),
            (AsOfJoinDirection::Forward, false) => !order::value_less(r, l),
        },
        _ => false,
    }
}

/// Whether, of two right as-of keys on the searched side of a left key, the first
/// is nearer.
pub open spec fn nearer(
    first: Option<Value>,
    second: Option<Value>,
    direction: AsOfJoinDirection,
) -> bool {
    match (first, second) {
        (Some(a), Some(b)) => match direction {
            AsOfJoinDirection::Backward => order::value_less(b, a),
            AsOfJoinDirection::Forward => order::value_less(a, b),
        },
        _ => false,
    }
}

/// The inputs of an as-of join: both sides with the columns that they are keyed by.
pub struct AsOfInputs {
    pub left: RecordBatch,
    pub right: RecordBatch,
    pub left_keys: KeyColumns,
    pub right_keys: KeyColumns,
    pub direction: AsOfJoinDirection,
    pub strict: bool,
    pub null_equality: NullEquality,
}

impl AsOfInputs {
    /// Whether both batches are well-formed and every row has every key.
    pub open spec fn wf(self) -> bool {
        &&& self.left.wf()
        &&& self.right.wf()
        &&& self.left_keys.wf(self.left.num_rows as nat)
        &&& self.right_keys.wf(self.right.num_rows as nat)
        &&& self.left_keys.on@.len() == self.right_keys.on@.len()
    }

    /// The equality keys of a left row.
    pub open spec fn left_on(self, row: int) -> Seq<Option<Value>> {
        self.left_keys.on_row(row)
    }

    /// The equality keys of a right row.
    pub open spec fn right_on(self, row: int) -> Seq<Option<Value>> {
        self.right_keys.on_row(row)
    }

    /// The as-of key of a left row.
    pub open spec fn left_asof(self, row: int) -> Option<Value> {
        self.left_keys.asof_cell(row)
    }

    /// The as-of key of a right row.
    pub open spec fn right_asof(self, row: int) -> Option<Value> {
        self.right_keys.asof_cell(row)
    }

    /// Whether every key has one type on both sides.
    pub open spec fn types_agree(self) -> bool {
        &&& self.left_keys.on_types() == self.right_keys.on_types()
        &&& self.left_keys.asof_type() == self.right_keys.asof_type()
    }

    /// Whether a right row may be joined to a left row.
    pub open spec fn qualifies(self, left_row: int, right_row: int) -> bool {
        &&& keys_match(self.left_on(left_row), self.right_on(right_row), self.null_equality)
        &&& satisfies(
            self.left_asof(left_row),
            self.right_asof(right_row),
            self.direction,
            self.strict,
        )
    }

    /// Whether `found` is what the join looks for: a right row that qualifies, with
    /// none nearer that does; or nothing, where no right row qualifies.
    pub open spec fn is_nearest(self, left_row: int, found: Option<int>) -> bool {
        match found {
            Some(right_row) => {
                &&& 0 <= right_row < self.right.num_rows
                &&& self.qualifies(left_row, right_row)
                &&& forall|other: int|
                    0 <= other < self.right.num_rows && #[trigger] self.qualifies(left_row, other)
                        ==> !nearer(
                        self.right_asof(other),
                        self.right_asof(right_row),
                        self.direction,
                    )
            },
            None => forall|other: int|
                0 <= other < self.right.num_rows ==> !#[trigger] self.qualifies(left_row, other),
        }
    }

    /// Whether a right row may be joined to a left row, by their encoded keys.
    pub open spec fn encoded_qualifies(self, left_row: int, right_row: int) -> bool {
        let left = keys::asof_bytes(self.left_keys, self.direction, left_row);
        let right = keys::asof_bytes(self.right_keys, self.direction, right_row);
        &&& keys::partition_may_match(self.left_on(left_row), self.null_equality)
        &&& keys::partition_may_match(self.right_on(right_row), self.null_equality)
        &&& self.left_asof(left_row) is Some
        &&& self.right_asof(right_row) is Some
        &&& self.right_keys.on@.len() > 0 ==> keys::on_bytes(self.left_keys, left_row)
            == keys::on_bytes(self.right_keys, right_row)
        &&& if self.strict {
            order::bytes_less(right, left)
        } else {
            !order::bytes_less(left, right)
        }
    }

    /// Whether `found` is what the join looks for, by encoded keys: encoded as-of keys
    /// grow toward the left row in both directions.
    pub open spec fn encoded_nearest(self, left_row: int, found: Option<int>) -> bool {
        match found {
            Some(right_row) => {
                &&& 0 <= right_row < self.right.num_rows
                &&& self.encoded_qualifies(left_row, right_row)
                &&& forall|other: int|
                    0 <= other < self.right.num_rows && #[trigger] self.encoded_qualifies(
                        left_row,
                        other,
                    ) ==> !order::bytes_less(
                        keys::asof_bytes(self.right_keys, self.direction, right_row),
                        keys::asof_bytes(self.right_keys, self.direction, other),
                    )
            },
            None => forall|other: int|
                0 <= other < self.right.num_rows ==> !#[trigger] self.encoded_qualifies(
                    left_row,
                    other,
                ),
        }
    }

    /// The sorted keys of the left side, for a given order of its rows.
    pub open spec fn left_view(self, left_order: Seq<u32>) -> KeyView {
        keys::keys_in_order(
            self.left_keys,
            row_numbers(left_order),
            self.direction,
            self.null_equality,
        )
    }

    /// The sorted keys of the right side, for a given order of its rows.
    pub open spec fn right_view(self, right_order: Seq<u32>) -> KeyView {
        keys::keys_in_order(
            self.right_keys,
            row_numbers(right_order),
            self.direction,
            self.null_equality,
        )
    }

    /// The pairs of row numbers that the merge of both sides gives, for given
    /// orders of the rows of each side.
    pub open spec fn merged_pairs(
        self,
        left_order: Seq<u32>,
        right_order: Seq<u32>,
        join_type: JoinType,
    ) -> Seq<(int, Option<int>)> {
        numbered(
            merge::join_pairs(
                self.left_view(left_order),
                self.right_view(right_order),
                left_order.len(),
                join_type,
                self.strict,
            ),
            left_order,
            right_order,
        )
    }

    /// Whether the pairs are those of an as-of join: every left row, in the given
    /// order, with its nearest right row; left rows without one only in a left
    /// join.
    pub open spec fn is_asof_join(
        self,
        left_order: Seq<u32>,
        join_type: JoinType,
        pairs: Seq<(int, Option<int>)>,
    ) -> bool {
        exists|found: Seq<Option<int>>|
            {
                &&& found.len() == left_order.len()
                &&& forall|k: int|
                    0 <= k < left_order.len() ==> self.is_nearest(
                        left_order[k] as int,
                        #[trigger] found[k],
                    )
                &&& pairs == kept_pairs(left_order, found, join_type)
            }
    }

    /// Whether orders of the rows of each side sort it by its join keys, and
    /// encoded keys compare as the keys do.
    pub open spec fn ordered(self, left_order: Seq<u32>, right_order: Seq<u32>) -> bool {
        &&& sort::sorts_side(
            left_order,
            self.left_keys,
            self.left.num_rows as nat,
            self.direction,
        )
        &&& sort::sorts_side(
            right_order,
            self.right_keys,
            self.right.num_rows as nat,
            self.direction,
        )
        &&& keys::keys_keep_order(
            self.left_keys,
            keys::first_rows(self.left.num_rows as nat),
            self.direction,
        )
        &&& keys::keys_keep_order(
            self.right_keys,
            keys::first_rows(self.right.num_rows as nat),
            self.direction,
        )
    }
}

/// Row numbers as integers.
pub open spec fn row_numbers(row_order: Seq<u32>) -> Seq<int> {
    Seq::new(row_order.len(), |i: int| row_order[i] as int)
}

/// Pairs of positions in two orders as pairs of row numbers.
pub open spec fn numbered(
    pairs: Seq<(int, Option<int>)>,
    left_order: Seq<u32>,
    right_order: Seq<u32>,
) -> Seq<(int, Option<int>)> {
    Seq::new(
        pairs.len(),
        |k: int|
            (
                left_order[pairs[k].0] as int,
                match pairs[k].1 {
                    Some(j) => Some(right_order[j] as int),
                    None => None,
                },
            ),
    )
}

/// What left rows with the given matches contribute to the output, in order.
pub open spec fn kept_pairs(
    left_order: Seq<u32>,
    found: Seq<Option<int>>,
    join_type: JoinType,
) -> Seq<(int, Option<int>)>
    decreases left_order.len(),
{
    if left_order.len() == 0 {
        Seq::empty()
    } else {
        kept_pairs(left_order.drop_last(), found.drop_last(), join_type) + merge::contribution(
            left_order.last() as int,
            found.last(),
            join_type,
        )
    }
}

/// A permutation of row numbers contains every row number.
pub proof fn permutation_covers(indices: Seq<u32>, n: nat, row: int)
    requires
        rows::is_permutation(indices, n),
        0 <= row < n,
    ensures
        exists|i: int| 0 <= i < n && (#[trigger] indices[i]) == row,
{
    let ints = row_numbers(indices);
    assert(ints.no_duplicates()) by {
        assert forall|i: int, j: int| 0 <= i < j < ints.len() implies ints[i] != ints[j] by {
            assert(indices[i] != indices[j]);
        }
    }
    ints.unique_seq_to_set();
    vstd::set_lib::lemma_int_range(0, n as int);
    let range = vstd::set_lib::set_int_range(0, n as int);
    assert(ints.to_set().subset_of(range)) by {
        assert forall|x: int| ints.to_set().contains(x) implies range.contains(x) by {
            let i = choose|i: int| 0 <= i < ints.len() && ints[i] == x;
            assert(indices[i] < n);
        }
    }
    vstd::set_lib::lemma_subset_equality(ints.to_set(), range);
    assert(ints.to_set().contains(row));
    let i = choose|i: int| 0 <= i < ints.len() && ints[i] == row;
    assert(indices[i] == row);
}

/// Reordered keys are the keys of the rows that they were made of.
pub proof fn reordered_keys(
    keys: KeyColumns,
    reordered: KeyColumns,
    row_order: Seq<u32>,
    direction: AsOfJoinDirection,
)
    requires
        sort::keys_hold_rows(reordered, keys, row_order),
    ensures
        reordered.on_types() == keys.on_types(),
        reordered.asof_type() == keys.asof_type(),
        forall|i: int|
            0 <= i < row_order.len() ==> #[trigger] reordered.on_row(i) == keys.on_row(
                row_order[i] as int,
            ),
        forall|i: int|
            0 <= i < row_order.len() ==> #[trigger] reordered.asof_cell(i) == keys.asof_cell(
                row_order[i] as int,
            ),
        forall|i: int|
            0 <= i < row_order.len() ==> #[trigger] keys::on_bytes(reordered, i)
                == keys::on_bytes(keys, row_order[i] as int),
        forall|i: int|
            0 <= i < row_order.len() ==> #[trigger] keys::asof_bytes(reordered, direction, i)
                == keys::asof_bytes(keys, direction, row_order[i] as int),
{
    assert(reordered.on_types() =~= keys.on_types()) by {
        assert forall|k: int| 0 <= k < keys.on@.len() implies reordered.on_types()[k]
            == keys.on_types()[k] by {
            assert(sort::column_holds_rows(reordered.on@[k], keys.on@[k], row_order));
        }
    }
    assert forall|i: int| 0 <= i < row_order.len() implies #[trigger] reordered.on_row(i)
        == keys.on_row(row_order[i] as int) by {
        assert forall|k: int| 0 <= k < keys.on@.len() implies reordered.on_row(i)[k]
            == keys.on_row(row_order[i] as int)[k] by {
            assert(sort::column_holds_rows(reordered.on@[k], keys.on@[k], row_order));
        }
        assert(reordered.on_row(i) =~= keys.on_row(row_order[i] as int));
    }
}

/// The sorted keys of one side are its keys in the new order, and they compare as
/// the keys do.
pub proof fn sorted_keys_in_order(
    keys: KeyColumns,
    sorted: KeyColumns,
    row_order: Seq<u32>,
    num_rows: nat,
    direction: AsOfJoinDirection,
    null_equality: NullEquality,
)
    requires
        sort::keys_hold_rows(sorted, keys, row_order),
        rows::is_permutation(row_order, num_rows),
        keys::keys_keep_order(sorted, keys::first_rows(num_rows), direction),
    ensures
        keys::keys_in_order(sorted, keys::first_rows(num_rows), direction, null_equality)
            == keys::keys_in_order(keys, row_numbers(row_order), direction, null_equality),
        keys::keys_keep_order(keys, keys::first_rows(num_rows), direction),
{
    reordered_keys(keys, sorted, row_order, direction);
    let a = keys::keys_in_order(sorted, keys::first_rows(num_rows), direction, null_equality);
    let b = keys::keys_in_order(keys, row_numbers(row_order), direction, null_equality);
    if keys.on@.len() > 0 {
        assert(a.partition->0 =~= b.partition->0);
    }
    assert(a.asof =~= b.asof);
    assert(a.partition_valid =~= b.partition_valid);
    assert(a.asof_valid =~= b.asof_valid);
    let all = keys::first_rows(num_rows);
    assert forall|i: int, other: Seq<Option<Value>>|
        #![trigger all[i], array::row_fits(other, keys.on_types())]
        keys.on@.len() > 0 && 0 <= i < num_rows && array::row_fits(
            other,
            keys.on_types(),
        ) implies rows::encoding_keeps_order(
        keys::on_bytes(keys, all[i]),
        keys.on_row(all[i]),
        rows::row_bytes(keys.on_types(), other, false, false),
        other,
        SortOptions { descending: false, nulls_first: false },
    ) by {
        permutation_covers(row_order, num_rows, i);
        let p = choose|p: int| 0 <= p < num_rows && (#[trigger] row_order[p]) == i;
        assert(all[p] == p);
        assert(keys::on_bytes(sorted, p) == keys::on_bytes(keys, i));
        assert(sorted.on_row(p) == keys.on_row(i));
    }
    assert forall|i: int, other: Option<Value>|
        #![trigger all[i], array::cell_fits(other, keys.asof_type())]
        0 <= i < num_rows && array::cell_fits(
            other,
            keys.asof_type(),
        ) implies rows::encoding_keeps_order(
        keys::asof_bytes(keys, direction, all[i]),
        seq![keys.asof_cell(all[i])],
        rows::row_bytes(
            seq![keys.asof_type()],
            seq![other],
            condition::sort_options_of(direction).descending,
            false,
        ),
        seq![other],
        condition::sort_options_of(direction),
    ) by {
        permutation_covers(row_order, num_rows, i);
        let p = choose|p: int| 0 <= p < num_rows && (#[trigger] row_order[p]) == i;
        assert(all[p] == p);
        assert(keys::asof_bytes(sorted, direction, p) == keys::asof_bytes(keys, direction, i));
        assert(sorted.asof_cell(p) == keys.asof_cell(i));
    }
}

/// The encoded equality keys of a row compare to those of keys of the same types as
/// the keys do.
pub proof fn on_keeps_order(
    keys: KeyColumns,
    num_rows: nat,
    direction: AsOfJoinDirection,
    row: int,
    other: Seq<Option<Value>>,
)
    requires
        keys::keys_keep_order(keys, keys::first_rows(num_rows), direction),
        keys.on@.len() > 0,
        0 <= row < num_rows,
        array::row_fits(other, keys.on_types()),
    ensures
        rows::encoding_keeps_order(
            keys::on_bytes(keys, row),
            keys.on_row(row),
            rows::row_bytes(keys.on_types(), other, false, false),
            other,
            SortOptions { descending: false, nulls_first: false },
        ),
{
    assert(keys::first_rows(num_rows)[row] == row);
}

/// The encoded as-of key of a row compares to that of a key of the same type as the
/// keys do.
pub proof fn asof_keeps_order(
    keys: KeyColumns,
    num_rows: nat,
    direction: AsOfJoinDirection,
    row: int,
    other: Option<Value>,
)
    requires
        keys::keys_keep_order(keys, keys::first_rows(num_rows), direction),
        0 <= row < num_rows,
        array::cell_fits(other, keys.asof_type()),
    ensures
        ({
            let options = condition::sort_options_of(direction);
            let encoded = rows::row_bytes(
                seq![keys.asof_type()],
                seq![other],
                options.descending,
                false,
            );
            let own = keys::asof_bytes(keys, direction, row);
            &&& own == encoded <==> keys.asof_cell(row) == other
            &&& order::bytes_less(own, encoded) <==> order::cell_less(
                keys.asof_cell(row),
                other,
                options,
            )
            &&& order::bytes_less(encoded, own) <==> order::cell_less(
                other,
                keys.asof_cell(row),
                options,
            )
        }),
{
    let options = condition::sort_options_of(direction);
    let a = keys.asof_cell(row);
    assert(keys::first_rows(num_rows)[row] == row);
    assert(rows::same_options(options, 1) =~= seq![options]);
    order::row_less_single(a, other, options);
    order::row_less_single(other, a, options);
    assert(seq![a][0] == a);
    assert(seq![other][0] == other);
}

/// The keys of rows in an order that sorts them are sorted.
pub proof fn keys_are_sorted(
    keys: KeyColumns,
    row_order: Seq<u32>,
    num_rows: nat,
    direction: AsOfJoinDirection,
    null_equality: NullEquality,
)
    requires
        keys.wf(num_rows),
        sort::sorts_side(row_order, keys, num_rows, direction),
        keys::keys_keep_order(keys, keys::first_rows(num_rows), direction),
    ensures
        keys::keys_in_order(keys, row_numbers(row_order), direction, null_equality).sorted(),
{
    let k = keys::keys_in_order(keys, row_numbers(row_order), direction, null_equality);
    let plain = SortOptions { descending: false, nulls_first: false };
    let by_asof = condition::sort_options_of(direction);
    assert forall|i: int, j: int|
        #![trigger k.partition_less(j, k, i)]
        #![trigger k.same_partition(i, k, j)]
        0 <= i < j < k.len() implies !k.partition_less(j, k, i) && (k.same_partition(i, k, j)
        ==> !order::bytes_less(k.asof[j], k.asof[i])) by {
        let ri = row_order[i] as int;
        let rj = row_order[j] as int;
        assert(ri < num_rows && rj < num_rows);
        let on_i = keys.on_row(ri);
        let on_j = keys.on_row(rj);
        let asof_i = keys.asof_cell(ri);
        let asof_j = keys.asof_cell(rj);
        array::row_of_fits(keys.on@, num_rows, ri);
        assert(array::row_of(keys.all(), ri) =~= on_i.push(asof_i));
        assert(array::row_of(keys.all(), rj) =~= on_j.push(asof_j));
        order::row_less_push(
            on_j,
            on_i,
            rows::same_options(plain, keys.on@.len()),
            asof_j,
            asof_i,
            by_asof,
        );
        if keys.on@.len() > 0 {
            on_keeps_order(keys, num_rows, direction, rj, on_i);
        } else {
            assert(on_i =~= on_j);
        }
        asof_keeps_order(keys, num_rows, direction, rj, asof_i);
    }
}

impl AsOfInputs {
    /// A right row is a candidate in sorted keys exactly where it qualifies by its
    /// encoded keys.
    proof fn candidate_is_encoded(
        self,
        left_order: Seq<u32>,
        right_order: Seq<u32>,
        i: int,
        j: int,
    )
        requires
            self.wf(),
            0 <= i < left_order.len(),
            0 <= j < right_order.len(),
        ensures
            keys::candidate(
                self.left_view(left_order),
                i,
                self.right_view(right_order),
                j,
                self.strict,
            ) <==> self.encoded_qualifies(left_order[i] as int, right_order[j] as int),
    {
    }

    /// The right row that the merge finds for the left row at a position.
    pub open spec fn found(self, left_order: Seq<u32>, right_order: Seq<u32>, i: int) -> Option<
        int,
    > {
        match keys::last_candidate(
            self.left_view(left_order),
            i,
            self.right_view(right_order),
            right_order.len(),
            self.strict,
        ) {
            Some(j) => Some(right_order[j] as int),
            None => None,
        }
    }

    /// The right row that the merge finds for a left row is the nearest one by encoded
    /// keys.
    pub proof fn found_is_encoded_nearest(
        self,
        left_order: Seq<u32>,
        right_order: Seq<u32>,
        i: int,
    )
        requires
            self.wf(),
            self.ordered(left_order, right_order),
            0 <= i < left_order.len(),
        ensures
            self.encoded_nearest(left_order[i] as int, self.found(left_order, right_order, i)),
    {
        let lk = self.left_view(left_order);
        let rk = self.right_view(right_order);
        let l = left_order[i] as int;
        let at = keys::last_candidate(lk, i, rk, rk.len(), self.strict);
        keys::last_candidate_is_last(lk, i, rk, rk.len(), self.strict);
        keys_are_sorted(
            self.right_keys,
            right_order,
            self.right.num_rows as nat,
            self.direction,
            self.null_equality,
        );
        if let Some(j) = at {
            self.candidate_is_encoded(left_order, right_order, i, j);
        }
        assert forall|other: int|
            0 <= other < self.right.num_rows && #[trigger] self.encoded_qualifies(
                l,
                other,
            ) implies at is Some && !order::bytes_less(
            keys::asof_bytes(self.right_keys, self.direction, right_order[at->0] as int),
            keys::asof_bytes(self.right_keys, self.direction, other),
        ) by {
            permutation_covers(right_order, self.right.num_rows as nat, other);
            let m = choose|m: int|
                0 <= m < right_order.len() && (#[trigger] right_order[m]) == other;
            self.candidate_is_encoded(left_order, right_order, i, m);
            assert(keys::candidate(lk, i, rk, m, self.strict));
            let j = at->0;
            assert(m <= j);
            order::bytes_order(rk.asof[j], rk.asof[j], rk.asof[j]);
            if m < j {
                assert(rk.same_partition(m, rk, j));
                assert(!order::bytes_less(rk.asof[j], rk.asof[m]));
            }
        }
    }

    /// Where every key has one type on both sides, a right row qualifies by its encoded
    /// keys exactly where it qualifies by its values.
    pub proof fn encoded_qualifies_by_value(self, left_row: int, right_row: int)
        requires
            self.wf(),
            self.types_agree(),
            keys::keys_keep_order(
                self.left_keys,
                keys::first_rows(self.left.num_rows as nat),
                self.direction,
            ),
            0 <= left_row < self.left.num_rows,
            0 <= right_row < self.right.num_rows,
        ensures
            self.encoded_qualifies(left_row, right_row) <==> self.qualifies(left_row, right_row),
    {
        let n = self.left.num_rows as nat;
        array::row_of_fits(self.right_keys.on@, self.right.num_rows as nat, right_row);
        if self.right_keys.on@.len() > 0 {
            on_keeps_order(
                self.left_keys,
                n,
                self.direction,
                left_row,
                self.right_on(right_row),
            );
        } else {
            assert(self.left_on(left_row) =~= self.right_on(right_row));
        }
        asof_keeps_order(
            self.left_keys,
            n,
            self.direction,
            left_row,
            self.right_asof(right_row),
        );
    }

    /// Where every key has one type on both sides, what is nearest by encoded keys is
    /// nearest by value.
    proof fn encoded_nearest_is_nearest(self, left_row: int, found: Option<int>)
        requires
            self.wf(),
            self.types_agree(),
            keys::keys_keep_order(
                self.left_keys,
                keys::first_rows(self.left.num_rows as nat),
                self.direction,
            ),
            keys::keys_keep_order(
                self.right_keys,
                keys::first_rows(self.right.num_rows as nat),
                self.direction,
            ),
            0 <= left_row < self.left.num_rows,
            self.encoded_nearest(left_row, found),
        ensures
            self.is_nearest(left_row, found),
    {
        if let Some(right_row) = found {
            self.encoded_qualifies_by_value(left_row, right_row);
        }
        assert forall|other: int|
            0 <= other < self.right.num_rows && #[trigger] self.qualifies(
                left_row,
                other,
            ) implies found is Some && !nearer(
            self.right_asof(other),
            self.right_asof(found->0),
            self.direction,
        ) by {
            self.encoded_qualifies_by_value(left_row, other);
            assert(self.encoded_qualifies(left_row, other));
            asof_keeps_order(
                self.right_keys,
                self.right.num_rows as nat,
                self.direction,
                found->0,
                self.right_asof(other),
            );
        }
    }

    /// The first `n` left rows contribute what their matches say.
    proof fn merged_prefix(
        self,
        left_order: Seq<u32>,
        right_order: Seq<u32>,
        join_type: JoinType,
        n: nat,
    )
        requires
            n <= left_order.len(),
        ensures
            numbered(
                merge::join_pairs(
                    self.left_view(left_order),
                    self.right_view(right_order),
                    n,
                    join_type,
                    self.strict,
                ),
                left_order,
                right_order,
            ) == kept_pairs(
                left_order.take(n as int),
                Seq::new(n, |i: int| self.found(left_order, right_order, i)),
                join_type,
            ),
        decreases n,
    {
        let lk = self.left_view(left_order);
        let rk = self.right_view(right_order);
        let strict = self.strict;
        let found = Seq::new(n, |i: int| self.found(left_order, right_order, i));
        let pairs = merge::join_pairs(lk, rk, n, join_type, strict);
        if n == 0 {
            assert(numbered(pairs, left_order, right_order) =~= Seq::empty());
        } else {
            let m = (n - 1) as nat;
            self.merged_prefix(left_order, right_order, join_type, m);
            assert(left_order.take(n as int).drop_last() =~= left_order.take(m as int));
            assert(found.drop_last() =~= Seq::new(
                m,
                |i: int| self.found(left_order, right_order, i),
            ));
            let before = merge::join_pairs(lk, rk, m, join_type, strict);
            assert(numbered(pairs, left_order, right_order) =~= numbered(
                before,
                left_order,
                right_order,
            ) + merge::contribution(left_order[m as int] as int, found[m as int], join_type));
        }
    }

    /// The right rows that the merge finds for the left rows, in order.
    pub open spec fn all_found(self, left_order: Seq<u32>, right_order: Seq<u32>) -> Seq<
        Option<int>,
    > {
        Seq::new(left_order.len(), |i: int| self.found(left_order, right_order, i))
    }

    /// The merge pairs every left row with what it finds for it, where the join keeps
    /// it.
    pub proof fn merge_keeps_what_it_finds(
        self,
        left_order: Seq<u32>,
        right_order: Seq<u32>,
        join_type: JoinType,
    )
        ensures
            self.merged_pairs(left_order, right_order, join_type) == kept_pairs(
                left_order,
                self.all_found(left_order, right_order),
                join_type,
            ),
    {
        self.merged_prefix(left_order, right_order, join_type, left_order.len());
        assert(left_order.take(left_order.len() as int) =~= left_order);
    }

    /// The merge of two sorted sides is an as-of join, where every key has one type
    /// on both sides.
    pub proof fn merge_is_asof_join(
        self,
        left_order: Seq<u32>,
        right_order: Seq<u32>,
        join_type: JoinType,
    )
        requires
            self.wf(),
            self.types_agree(),
            self.ordered(left_order, right_order),
        ensures
            self.is_asof_join(
                left_order,
                join_type,
                self.merged_pairs(left_order, right_order, join_type),
            ),
    {
        let found = self.all_found(left_order, right_order);
        assert forall|k: int| 0 <= k < left_order.len() implies self.is_nearest(
            left_order[k] as int,
            #[trigger] found[k],
        ) by {
            self.found_is_encoded_nearest(left_order, right_order, k);
            assert(left_order[k] < self.left.num_rows);
            self.encoded_nearest_is_nearest(left_order[k] as int, found[k]);
        }
        self.merge_keeps_what_it_finds(left_order, right_order, join_type);
    }
}

} // verus!
