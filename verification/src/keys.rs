//! Sorted join keys and what it means for two rows to match.
use crate::array;
use crate::array::Array;
use crate::condition;
use crate::condition::AsOfJoinDirection;
use crate::error::JoinError;
use crate::eval::KeyColumns;
use crate::order;
use crate::order::{SortOptions, Value};
use crate::rows;
use crate::rows::{compare_rows, convert_to_rows, rows_equal};
use crate::types::NullEquality;
use arrow::row::Rows;
use std::cmp::Ordering;
use vstd::prelude::*;

verus! {

/// How one encoded key compares to another.
#[derive(Debug, Clone, Copy, PartialEq, Eq, Structural)]
pub enum KeyOrder {
    Less,
    Equal,
    Greater,
}

/// The keys of the rows of one side, in order.
pub struct KeyView {
    /// The encoded equality keys, where there are any.
    pub partition: Option<Seq<Seq<u8>>>,
    /// The encoded as-of keys.
    pub asof: Seq<Seq<u8>>,
    /// Whether the equality keys of a row may match at all.
    pub partition_valid: Seq<bool>,
    /// Whether the as-of key of a row may match at all.
    pub asof_valid: Seq<bool>,
}

impl KeyView {
    /// How many rows there are.
    pub open spec fn len(self) -> nat {
        self.asof.len()
    }

    /// Whether every row has every key.
    pub open spec fn wf(self) -> bool {
        &&& self.partition_valid.len() == self.len()
        &&& self.asof_valid.len() == self.len()
        &&& self.partition is Some ==> self.partition->0.len() == self.len()
    }

    /// Whether a row may match at all.
    pub open spec fn joinable(self, row: int) -> bool {
        self.partition_valid[row] && self.asof_valid[row]
    }

    /// Whether the equality keys of a row equal those of a row of the other side.
    pub open spec fn same_partition(self, row: int, other: KeyView, other_row: int) -> bool {
        match (self.partition, other.partition) {
            (Some(keys), Some(other_keys)) => keys[row] == other_keys[other_row],
            (None, None) => true,
            _ => false,
        }
    }

    /// Whether the equality keys of a row come before those of a row of the
    /// other side.
    pub open spec fn partition_less(self, row: int, other: KeyView, other_row: int) -> bool {
        match (self.partition, other.partition) {
            (Some(keys), Some(other_keys)) => order::bytes_less(keys[row], other_keys[other_row]),
            _ => false,
        }
    }

    /// Whether the rows ascend by their equality keys and, where those are equal,
    /// by their as-of keys.
    pub open spec fn sorted(self) -> bool {
        &&& forall|i: int, j: int|
            0 <= i < j < self.len() ==> !(#[trigger] self.partition_less(j, self, i))
        &&& forall|i: int, j: int|
            0 <= i < j < self.len() && #[trigger] self.same_partition(i, self, j)
                ==> !order::bytes_less(self.asof[j], self.asof[i])
    }
}

/// Whether the as-of key of a right row has come far enough toward that of a left
/// row.
pub open spec fn passes(
    right: KeyView,
    right_row: int,
    left: KeyView,
    left_row: int,
    strict: bool,
) -> bool {
    if strict {
        order::bytes_less(right.asof[right_row], left.asof[left_row])
    } else {
        !order::bytes_less(left.asof[left_row], right.asof[right_row])
    }
}

/// Whether a right row is allowed as the match of a left row.
pub open spec fn candidate(
    left: KeyView,
    left_row: int,
    right: KeyView,
    right_row: int,
    strict: bool,
) -> bool {
    &&& left.joinable(left_row)
    &&& right.joinable(right_row)
    &&& left.same_partition(left_row, right, right_row)
    &&& passes(right, right_row, left, left_row, strict)
}

/// The last of the first `n` right rows that is allowed as the match of a left
/// row.
pub open spec fn last_candidate(
    left: KeyView,
    left_row: int,
    right: KeyView,
    n: nat,
    strict: bool,
) -> Option<int>
    decreases n,
{
    if n == 0 {
        None
    } else if candidate(left, left_row, right, n - 1, strict) {
        Some(n - 1)
    } else {
        last_candidate(left, left_row, right, (n - 1) as nat, strict)
    }
}

/// The last candidate is the greatest row that is a candidate, if there is one.
pub proof fn last_candidate_is_last(
    left: KeyView,
    left_row: int,
    right: KeyView,
    n: nat,
    strict: bool,
)
    ensures
        match last_candidate(left, left_row, right, n, strict) {
            Some(j) => {
                &&& 0 <= j < n
                &&& candidate(left, left_row, right, j, strict)
                &&& forall|k: int| j < k < n ==> !candidate(left, left_row, right, k, strict)
            },
            None => forall|k: int| 0 <= k < n ==> !candidate(left, left_row, right, k, strict),
        },
    decreases n,
{
    if n > 0 {
        last_candidate_is_last(left, left_row, right, (n - 1) as nat, strict);
    }
}

/// A row that is a candidate with none after it is the last candidate.
pub proof fn last_candidate_from(
    left: KeyView,
    left_row: int,
    right: KeyView,
    n: nat,
    strict: bool,
    found: Option<int>,
)
    requires
        match found {
            Some(j) => {
                &&& 0 <= j < n
                &&& candidate(left, left_row, right, j, strict)
                &&& forall|k: int| j < k < n ==> !candidate(left, left_row, right, k, strict)
            },
            None => forall|k: int| 0 <= k < n ==> !candidate(left, left_row, right, k, strict),
        },
    ensures
        last_candidate(left, left_row, right, n, strict) == found,
{
    last_candidate_is_last(left, left_row, right, n, strict);
    let l = last_candidate(left, left_row, right, n, strict);
    if let Some(j) = l {
        assert(candidate(left, left_row, right, j, strict));
    }
    if let Some(j) = found {
        assert(candidate(left, left_row, right, j, strict));
    }
}

/// Whether equality keys may match at all: where nulls equal nothing, none of them
/// may be null.
pub open spec fn partition_may_match(row: Seq<Option<Value>>, null_equality: NullEquality) -> bool {
    null_equality == NullEquality::NullEqualsNull || forall|k: int|
        0 <= k < row.len() ==> (#[trigger] row[k]) is Some
}

/// The encoded equality keys of one row.
pub open spec fn on_bytes(keys: KeyColumns, row: int) -> Seq<u8> {
    rows::row_bytes(keys.on_types(), keys.on_row(row), false, false)
}

/// The encoded as-of key of one row.
pub open spec fn asof_bytes(
    keys: KeyColumns,
    direction: AsOfJoinDirection,
    row: int,
) -> Seq<u8> {
    rows::row_bytes(
        seq![keys.asof_type()],
        seq![keys.asof_cell(row)],
        condition::sort_options_of(direction).descending,
        false,
    )
}

/// The keys of the given rows of one side, in the given order.
pub open spec fn keys_in_order(
    keys: KeyColumns,
    row_numbers: Seq<int>,
    direction: AsOfJoinDirection,
    null_equality: NullEquality,
) -> KeyView {
    KeyView {
        partition: if keys.on@.len() == 0 {
            None
        } else {
            Some(Seq::new(row_numbers.len(), |i: int| on_bytes(keys, row_numbers[i])))
        },
        asof: Seq::new(row_numbers.len(), |i: int| asof_bytes(keys, direction, row_numbers[i])),
        partition_valid: Seq::new(
            row_numbers.len(),
            |i: int| partition_may_match(keys.on_row(row_numbers[i]), null_equality),
        ),
        asof_valid: Seq::new(
            row_numbers.len(),
            |i: int| keys.asof_cell(row_numbers[i]) is Some,
        ),
    }
}

/// The numbers of the first `n` rows.
pub open spec fn first_rows(n: nat) -> Seq<int> {
    Seq::new(n, |i: int| i)
}

/// Whether the encoded keys of the given rows compare to the encodings of any other
/// keys of the same types as the keys themselves do.
pub open spec fn keys_keep_order(
    keys: KeyColumns,
    row_numbers: Seq<int>,
    direction: AsOfJoinDirection,
) -> bool {
    &&& keys.on@.len() > 0 ==> forall|i: int, other: Seq<Option<Value>>|
        #![trigger row_numbers[i], array::row_fits(other, keys.on_types())]
        0 <= i < row_numbers.len() && array::row_fits(other, keys.on_types())
            ==> rows::encoding_keeps_order(
            on_bytes(keys, row_numbers[i]),
            keys.on_row(row_numbers[i]),
            rows::row_bytes(keys.on_types(), other, false, false),
            other,
            SortOptions { descending: false, nulls_first: false },
        )
    &&& forall|i: int, other: Option<Value>|
        #![trigger row_numbers[i], array::cell_fits(other, keys.asof_type())]
        0 <= i < row_numbers.len() && array::cell_fits(other, keys.asof_type())
            ==> rows::encoding_keeps_order(
            asof_bytes(keys, direction, row_numbers[i]),
            seq![keys.asof_cell(row_numbers[i])],
            rows::row_bytes(
                seq![keys.asof_type()],
                seq![other],
                condition::sort_options_of(direction).descending,
                false,
            ),
            seq![other],
            condition::sort_options_of(direction),
        )
}

/// Returns for each row whether its equality keys may match at all.
pub fn build_partition_validity(
    arrays: &Vec<Array>,
    row_count: usize,
    null_equality: NullEquality,
) -> (valid: Vec<bool>)
    requires
        array::all_of_length(arrays@, row_count as nat),
    ensures
        valid@ == Seq::new(
            row_count as nat,
            |i: int| partition_may_match(array::row_of(arrays@, i), null_equality),
        ),
{
    let mut valid: Vec<bool> = Vec::new();
    for row in 0..row_count
        invariant
            valid@ == Seq::new(row as nat, |i: int| true),
    {
        valid.push(true);
        assert(valid@ =~= Seq::new((row + 1) as nat, |i: int| true));
    }
    let ghost expected = Seq::new(
        row_count as nat,
        |i: int| partition_may_match(array::row_of(arrays@, i), null_equality),
    );
    if null_equality == NullEquality::NullEqualsNull {
        assert(valid@ =~= expected);
        return valid;
    }
    for c in 0..arrays.len()
        invariant
            array::all_of_length(arrays@, row_count as nat),
            valid@.len() == row_count,
            forall|i: int|
                0 <= i < row_count ==> (#[trigger] valid@[i] <==> forall|d: int|
                    0 <= d < c ==> (#[trigger] arrays@[d])@[i] is Some),
    {
        let column = &arrays[c];
        let ghost before = valid@;
        proof {
            array::count_nulls_zero(column@, column@.len());
        }
        if column.null_count() != 0 {
            for row in 0..row_count
                invariant
                    column@.len() == row_count,
                    before.len() == row_count,
                    valid@.len() == row_count,
                    forall|i: int|
                        0 <= i < row ==> (#[trigger] valid@[i] <==> before[i] && column@[i] is Some),
                    forall|i: int| row <= i < row_count ==> #[trigger] valid@[i] == before[i],
            {
                let keep = valid[row] && !column.is_null(row);
                valid.set(row, keep);
            }
        }
        assert forall|i: int| 0 <= i < row_count implies (#[trigger] valid@[i] <==> forall|d: int|
            0 <= d < c + 1 ==> (#[trigger] arrays@[d])@[i] is Some) by {
            assert(before[i] <==> forall|d: int|
                0 <= d < c ==> (#[trigger] arrays@[d])@[i] is Some);
            assert(valid@[i] <==> before[i] && arrays@[c as int]@[i] is Some);
        }
    }
    proof {
        assert forall|i: int| 0 <= i < row_count implies valid@[i] == expected[i] by {
            let row = array::row_of(arrays@, i);
            if valid@[i] {
                assert forall|k: int| 0 <= k < row.len() implies (#[trigger] row[k]) is Some by {
                    assert(arrays@[k]@[i] is Some);
                }
            } else {
                let d = choose|d: int|
                    0 <= d < arrays@.len() && !((#[trigger] arrays@[d])@[i] is Some);
                assert(row[d] is None);
            }
        }
        assert(valid@ =~= expected);
    }
    valid
}

/// Returns for each row whether its as-of key may match at all.
pub fn build_validity(column: &Array, row_count: usize) -> (valid: Vec<bool>)
    requires
        column@.len() == row_count,
    ensures
        valid@ == Seq::new(row_count as nat, |i: int| column@[i] is Some),
{
    let no_nulls = column.null_count() == 0;
    proof {
        array::count_nulls_zero(column@, column@.len());
    }
    let mut valid: Vec<bool> = Vec::new();
    for row in 0..row_count
        invariant
            column@.len() == row_count,
            no_nulls ==> forall|i: int| 0 <= i < row_count ==> (#[trigger] column@[i]) is Some,
            valid@ == Seq::new(row as nat, |i: int| column@[i] is Some),
    {
        valid.push(no_nulls || !column.is_null(row));
        assert(valid@ =~= Seq::new((row + 1) as nat, |i: int| column@[i] is Some));
    }
    valid
}

/// The keys of one side of the join, sorted.
pub struct SortedKeyValues {
    partition_rows: Option<Rows>,
    asof_rows: Rows,
    partition_valid: Vec<bool>,
    asof_valid: Vec<bool>,
    row_count: usize,
}

impl View for SortedKeyValues {
    type V = KeyView;

    closed spec fn view(&self) -> KeyView {
        KeyView {
            partition: match self.partition_rows {
                Some(partition_rows) => Some(rows::rows_view(partition_rows)),
                None => None,
            },
            asof: rows::rows_view(self.asof_rows),
            partition_valid: self.partition_valid@,
            asof_valid: self.asof_valid@,
        }
    }
}

/// Returns how two encoded keys compare.
fn key_order(a: &Rows, i: usize, b: &Rows, j: usize) -> (key_order: KeyOrder)
    requires
        i < rows::rows_view(*a).len(),
        j < rows::rows_view(*b).len(),
    ensures
        key_order == KeyOrder::Less <==> order::bytes_less(
            rows::encoded_row(*a, i),
            rows::encoded_row(*b, j),
        ),
        key_order == KeyOrder::Equal <==> rows::encoded_row(*a, i) == rows::encoded_row(*b, j),
        key_order == KeyOrder::Greater <==> order::bytes_less(
            rows::encoded_row(*b, j),
            rows::encoded_row(*a, i),
        ),
{
    match compare_rows(a, i, b, j) {
        Ordering::Less => KeyOrder::Less,
        Ordering::Equal => KeyOrder::Equal,
        Ordering::Greater => KeyOrder::Greater,
    }
}

impl SortedKeyValues {
    /// Whether every row has every key.
    pub closed spec fn wf(&self) -> bool {
        &&& self@.wf()
        &&& self.row_count == self@.len()
    }

    /// Encodes the sorted keys of one side.
    pub fn try_new(
        keys: KeyColumns,
        row_count: usize,
        direction: AsOfJoinDirection,
        null_equality: NullEquality,
    ) -> (result: Result<SortedKeyValues, JoinError>)
        requires
            keys.wf(row_count as nat),
        ensures
            result is Ok,
            result->Ok_0.wf(),
            result->Ok_0@ == keys_in_order(
                keys,
                first_rows(row_count as nat),
                direction,
                null_equality,
            ),
            keys_keep_order(keys, first_rows(row_count as nat), direction),
    {
        let ghost given = keys;
        let KeyColumns { on, asof } = keys;
        let partition_valid = build_partition_validity(&on, row_count, null_equality);
        let asof_valid = build_validity(&asof, row_count);
        let partition_rows = if on.len() == 0 {
            None
        } else {
            assert(on@[0]@.len() == row_count);
            match convert_to_rows(&on, SortOptions::new(false, false)) {
                Ok(rows) => Some(rows),
                Err(_) => return Err(JoinError::Arrow),
            }
        };
        let asof_arrays = vec![asof];
        assert(asof_arrays@[0] == given.asof);
        let asof_rows = match convert_to_rows(&asof_arrays, direction.sort_options()) {
            Ok(rows) => rows,
            Err(_) => return Err(JoinError::Arrow),
        };
        let sorted = SortedKeyValues {
            partition_rows,
            asof_rows,
            partition_valid,
            asof_valid,
            row_count,
        };
        proof {
            let n = row_count as nat;
            let expected = keys_in_order(given, first_rows(n), direction, null_equality);
            let asof_types = seq![given.asof_type()];
            assert(array::column_types(asof_arrays@) =~= asof_types);
            assert forall|i: int| #[trigger] array::row_of(asof_arrays@, i) == seq![
                given.asof_cell(i),
            ] by {
                assert(array::row_of(asof_arrays@, i) =~= seq![given.asof_cell(i)]);
            }
            if given.on@.len() > 0 {
                assert(sorted@.partition->0 =~= expected.partition->0);
            }
            assert(sorted@.asof =~= expected.asof);
            assert(sorted@.partition_valid =~= expected.partition_valid);
            assert(sorted@.asof_valid =~= expected.asof_valid);
            assert forall|i: int, other: Seq<Option<Value>>|
                #![trigger first_rows(n)[i], array::row_fits(other, given.on_types())]
                given.on@.len() > 0 && 0 <= i < n && array::row_fits(
                    other,
                    given.on_types(),
                ) implies rows::encoding_keeps_order(
                on_bytes(given, first_rows(n)[i]),
                given.on_row(first_rows(n)[i]),
                rows::row_bytes(given.on_types(), other, false, false),
                other,
                SortOptions { descending: false, nulls_first: false },
            ) by {
                assert(sorted@.partition->0[i] == rows::rows_view(partition_rows->0)[i]);
            }
            assert forall|i: int, other: Option<Value>|
                #![trigger first_rows(n)[i], array::cell_fits(other, given.asof_type())]
                0 <= i < n && array::cell_fits(
                    other,
                    given.asof_type(),
                ) implies rows::encoding_keeps_order(
                asof_bytes(given, direction, first_rows(n)[i]),
                seq![given.asof_cell(first_rows(n)[i])],
                rows::row_bytes(
                    asof_types,
                    seq![other],
                    condition::sort_options_of(direction).descending,
                    false,
                ),
                seq![other],
                condition::sort_options_of(direction),
            ) by {
                assert(array::row_fits(seq![other], asof_types));
                assert(sorted@.asof[i] == rows::rows_view(asof_rows)[i]);
                assert(array::row_of(asof_arrays@, i) == seq![given.asof_cell(i)]);
            }
        }
        Ok(sorted)
    }

    /// Every row of well-formed keys has every key.
    pub proof fn wf_view(&self)
        requires
            self.wf(),
        ensures
            self@.wf(),
    {
    }

    /// Returns how many rows there are.
    pub fn num_rows(&self) -> (num_rows: usize)
        requires
            self.wf(),
        ensures
            num_rows == self@.len(),
    {
        self.row_count
    }

    /// Compares the equality keys of a row with those of a row of the other side.
    pub fn partition_order(
        &self,
        left_row: usize,
        right: &SortedKeyValues,
        right_row: usize,
    ) -> (key_order: KeyOrder)
        requires
            self.wf(),
            right.wf(),
            left_row < self@.len(),
            right_row < right@.len(),
            self@.partition is Some <==> right@.partition is Some,
        ensures
            key_order == KeyOrder::Less <==> self@.partition_less(
                left_row as int,
                right@,
                right_row as int,
            ),
            key_order == KeyOrder::Equal <==> self@.same_partition(
                left_row as int,
                right@,
                right_row as int,
            ),
            key_order == KeyOrder::Greater <==> right@.partition_less(
                right_row as int,
                self@,
                left_row as int,
            ),
    {
        match (&self.partition_rows, &right.partition_rows) {
            (Some(left_rows), Some(right_rows)) => self::key_order(
                left_rows,
                left_row,
                right_rows,
                right_row,
            ),
            _ => KeyOrder::Equal,
        }
    }

    /// Returns where the run of rows with equal equality keys ends that starts at
    /// the given row.
    pub fn partition_end(&self, start: usize) -> (end: usize)
        requires
            self.wf(),
            start < self@.len(),
        ensures
            start < end <= self@.len(),
            forall|k: int| start <= k < end ==> #[trigger] self@.same_partition(start as int, self@, k),
            end < self@.len() ==> !self@.same_partition(start as int, self@, end as int),
    {
        match &self.partition_rows {
            None => self.row_count,
            Some(partition_rows) => {
                let mut end = start + 1;
                while end < self.row_count && rows_equal(partition_rows, start, end)
                    invariant
                        self.wf(),
                        self.partition_rows == Some(*partition_rows),
                        start < end <= self.row_count,
                        forall|k: int|
                            start <= k < end ==> #[trigger] self@.same_partition(start as int, self@, k),
                    decreases self.row_count - end,
                {
                    end = end + 1;
                }
                end
            },
        }
    }

    /// Returns whether a row may match at all.
    pub fn is_joinable(&self, row: usize) -> (joinable: bool)
        requires
            self.wf(),
            row < self@.len(),
        ensures
            joinable == self@.joinable(row as int),
    {
        self.partition_valid[row] && self.asof_valid[row]
    }

    /// Returns whether the as-of key of this right row has come far enough toward
    /// that of the left row.
    pub fn passes_asof(
        &self,
        row: usize,
        left: &SortedKeyValues,
        left_row: usize,
        strict: bool,
    ) -> (passes: bool)
        requires
            self.wf(),
            left.wf(),
            row < self@.len(),
            left_row < left@.len(),
        ensures
            passes == self::passes(self@, row as int, left@, left_row as int, strict),
    {
        let ord = key_order(&self.asof_rows, row, &left.asof_rows, left_row);
        if strict {
            ord == KeyOrder::Less
        } else {
            ord != KeyOrder::Greater
        }
    }
}

} // verus!
