//! What the join has from the `arrow` crate: the encoding of key rows into
//! comparable bytes, the lexicographic sort, and the builders of row indices.
//!
//! The contracts of the functions in this file that are marked as external are
//! not proved here: they state what the `arrow` functions named in their
//! comments do.
use crate::array;
use crate::array::{Array, DataType};
use crate::order;
use crate::order::{SortOptions, Value};
use arrow::array::{
    Array as ArrowArray, ArrayRef, BooleanArray, Int64Array, LargeStringArray, UInt32Builder,
    UInt64Array, UInt64Builder,
};
use arrow::compute::SortColumn;
use arrow::error::ArrowError;
use arrow::row::{RowConverter, Rows, SortField};
use std::cmp::Ordering;
use std::sync::Arc;
use vstd::prelude::*;

verus! {

/// `arrow::error::ArrowError`, carried through without looking inside.
#[verifier::external_type_specification]
#[verifier::external_body]
pub struct ExArrowError(ArrowError);

/// `arrow::row::Rows`, a sequence of encoded rows.
#[verifier::external_type_specification]
#[verifier::external_body]
pub struct ExRows(Rows);

/// The encoded rows that a `Rows` holds, in order.
pub uninterp spec fn rows_view(rows: Rows) -> Seq<Seq<u8>>;

/// The bytes into which `arrow` encodes one row of slots of the given types,
/// with the same sort order for every column.
pub uninterp spec fn row_bytes(
    types: Seq<DataType>,
    row: Seq<Option<Value>>,
    descending: bool,
    nulls_first: bool,
) -> Seq<u8>;

/// The encoded row at a position.
pub open spec fn encoded_row(rows: Rows, row: usize) -> Seq<u8> {
    rows_view(rows)[row as int]
}

/// The same options for each of `n` columns.
pub open spec fn same_options(options: SortOptions, n: nat) -> Seq<SortOptions> {
    Seq::new(n, |i: int| options)
}

/// Whether the encoding of one row compares to that of another as the rows do.
pub open spec fn encoding_keeps_order(
    encoded: Seq<u8>,
    row: Seq<Option<Value>>,
    encoded_other: Seq<u8>,
    other: Seq<Option<Value>>,
    options: SortOptions,
) -> bool {
    &&& encoded == encoded_other <==> row == other
    &&& order::bytes_less(encoded, encoded_other) <==> order::row_less(
        row,
        other,
        same_options(options, row.len()),
    )
    &&& order::bytes_less(encoded_other, encoded) <==> order::row_less(
        other,
        row,
        same_options(options, row.len()),
    )
}

/// Encodes the rows of some columns, every column sorted as `options` say.
///
/// `arrow::row::RowConverter::new` and `convert_columns`, on columns of equal
/// length, give one encoded row per row. The encoding of a row depends on the
/// types, the options and the slots of that row alone, and compares to the
/// encoding of any other row of the same types, under the same options, as the
/// rows themselves compare. None of the types here is refused.
#[verifier::external_body]
pub(crate) fn convert_to_rows(columns: &Vec<Array>, options: SortOptions) -> (result: Result<
    Rows,
    ArrowError,
>)
    requires
        columns@.len() > 0,
        array::all_of_length(columns@, columns@[0]@.len()),
    ensures
        result is Ok,
        rows_view(result->Ok_0).len() == columns@[0]@.len(),
        forall|i: int|
            0 <= i < columns@[0]@.len() ==> #[trigger] rows_view(result->Ok_0)[i] == row_bytes(
                array::column_types(columns@),
                array::row_of(columns@, i),
                options.descending,
                options.nulls_first,
            ),
        forall|i: int, other: Seq<Option<Value>>|
            #![trigger rows_view(result->Ok_0)[i], array::row_fits(other, array::column_types(columns@))]
            0 <= i < columns@[0]@.len() && array::row_fits(other, array::column_types(columns@))
                ==> encoding_keeps_order(
                rows_view(result->Ok_0)[i],
                array::row_of(columns@, i),
                row_bytes(
                    array::column_types(columns@),
                    other,
                    options.descending,
                    options.nulls_first,
                ),
                other,
                options,
            ),
{
    let arrays: Vec<ArrayRef> = columns.iter().map(|column| match column {
        Array::Boolean(v) => Arc::new(BooleanArray::from(v.clone())) as ArrayRef,
        Array::Int64(v) => Arc::new(Int64Array::from(v.clone())),
        Array::UInt64(v) => Arc::new(UInt64Array::from(v.clone())),
        Array::Utf8(v) => Arc::new(LargeStringArray::from(v.clone())),
    }).collect();
    let order = arrow::compute::SortOptions::new(options.descending, options.nulls_first);
    let field = |a: &ArrayRef| SortField::new_with_options(a.data_type().clone(), order);
    RowConverter::new(arrays.iter().map(field).collect())?.convert_columns(&arrays)
}

/// Returns how the row at `i` of one `Rows` compares to the row at `j` of another.
///
/// `Rows::row` panics past the last row; `Row::cmp` compares the bytes.
#[verifier::external_body]
pub(crate) fn compare_rows(a: &Rows, i: usize, b: &Rows, j: usize) -> (ordering: Ordering)
    requires
        i < rows_view(*a).len(),
        j < rows_view(*b).len(),
    ensures
        ordering == Ordering::Less <==> order::bytes_less(encoded_row(*a, i), encoded_row(*b, j)),
        ordering == Ordering::Equal <==> encoded_row(*a, i) == encoded_row(*b, j),
        ordering == Ordering::Greater <==> order::bytes_less(
            encoded_row(*b, j),
            encoded_row(*a, i),
        ),
{
    a.row(i).cmp(&b.row(j))
}

/// Returns whether two rows of a `Rows` are equal.
///
/// `Rows::row` panics past the last row; `Row::eq` compares the bytes.
#[verifier::external_body]
pub(crate) fn rows_equal(rows: &Rows, i: usize, j: usize) -> (equal: bool)
    requires
        i < rows_view(*rows).len(),
        j < rows_view(*rows).len(),
    ensures
        equal == (encoded_row(*rows, i) == encoded_row(*rows, j)),
{
    rows.row(i) == rows.row(j)
}

/// Whether the indices are those of `n` rows, each once, in some order.
pub open spec fn is_permutation(indices: Seq<u32>, n: nat) -> bool {
    &&& indices.len() == n
    &&& indices.no_duplicates()
    &&& forall|i: int| 0 <= i < n ==> (#[trigger] indices[i]) < n
}

/// Whether the rows of the columns, taken in the order of the indices, never
/// descend.
pub open spec fn sorts(indices: Seq<u32>, columns: Seq<Array>, options: Seq<SortOptions>) -> bool {
    forall|i: int, j: int|
        0 <= i < j < indices.len() ==> !order::row_less(
            array::row_of(columns, #[trigger] indices[j] as int),
            array::row_of(columns, #[trigger] indices[i] as int),
            options,
        )
}

/// Returns the order of rows that sorts the columns lexicographically.
///
/// `arrow::compute::lexsort_to_indices`, without a limit, on one or more columns
/// of equal length, gives every row index once, in an order in which the rows
/// never descend; equal rows come in any order. It numbers rows with 32 bits.
/// None of the types here is refused.
#[verifier::external_body]
pub(crate) fn lexsort_to_indices(columns: &Vec<Array>, options: &Vec<SortOptions>) -> (result:
    Result<Vec<u32>, ArrowError>)
    requires
        columns@.len() > 0,
        columns@.len() == options@.len(),
        array::all_of_length(columns@, columns@[0]@.len()),
        columns@[0]@.len() <= u32::MAX,
    ensures
        result is Ok,
        is_permutation(result->Ok_0@, columns@[0]@.len()),
        sorts(result->Ok_0@, columns@, options@),
{
    let sort_column = |(column, o): (&Array, &SortOptions)| SortColumn {
        values: match column {
            Array::Boolean(v) => Arc::new(BooleanArray::from(v.clone())) as ArrayRef,
            Array::Int64(v) => Arc::new(Int64Array::from(v.clone())),
            Array::UInt64(v) => Arc::new(UInt64Array::from(v.clone())),
            Array::Utf8(v) => Arc::new(LargeStringArray::from(v.clone())),
        },
        options: Some(arrow::compute::SortOptions::new(o.descending, o.nulls_first)),
    };
    let columns: Vec<SortColumn> = columns.iter().zip(options).map(sort_column).collect();
    Ok(arrow::compute::lexsort_to_indices(&columns, None)?.values().to_vec())
}

/// A builder of left row indices: `arrow::array::UInt64Builder`.
#[verifier::external_body]
pub struct LeftIndices {
    builder: UInt64Builder,
}

/// The slots that have been appended to the builder.
pub uninterp spec fn left_indices_view(indices: LeftIndices) -> Seq<Option<u64>>;

/// A builder of right row indices: `arrow::array::UInt32Builder`.
#[verifier::external_body]
pub struct RightIndices {
    builder: UInt32Builder,
}

/// The slots that have been appended to the builder.
pub uninterp spec fn right_indices_view(indices: RightIndices) -> Seq<Option<u32>>;

impl LeftIndices {
    /// `UInt64Builder::new` gives an empty builder.
    #[verifier::external_body]
    pub(crate) fn new() -> (indices: LeftIndices)
        ensures
            left_indices_view(indices) == Seq::<Option<u64>>::empty(),
    {
        LeftIndices { builder: UInt64Builder::new() }
    }

    /// `UInt64Builder::append_value` appends a slot that holds the value.
    #[verifier::external_body]
    pub(crate) fn append_value(&mut self, index: u64)
        ensures
            left_indices_view(*final(self)) == left_indices_view(*old(self)).push(Some(index)),
    {
        self.builder.append_value(index)
    }

    /// `UInt64Builder::finish` gives the slots appended so far and empties the
    /// builder.
    #[verifier::external_body]
    pub(crate) fn finish(&mut self) -> (slots: Vec<Option<u64>>)
        ensures
            slots@ == left_indices_view(*old(self)),
            left_indices_view(*final(self)) == Seq::<Option<u64>>::empty(),
    {
        self.builder.finish().iter().collect()
    }
}

impl RightIndices {
    /// `UInt32Builder::new` gives an empty builder.
    #[verifier::external_body]
    pub(crate) fn new() -> (indices: RightIndices)
        ensures
            right_indices_view(indices) == Seq::<Option<u32>>::empty(),
    {
        RightIndices { builder: UInt32Builder::new() }
    }

    /// `UInt32Builder::append_value` appends a slot that holds the value.
    #[verifier::external_body]
    pub(crate) fn append_value(&mut self, index: u32)
        ensures
            right_indices_view(*final(self)) == right_indices_view(*old(self)).push(Some(index)),
    {
        self.builder.append_value(index)
    }

    /// `UInt32Builder::append_null` appends a null slot.
    #[verifier::external_body]
    pub(crate) fn append_null(&mut self)
        ensures
            right_indices_view(*final(self)) == right_indices_view(*old(self)).push(None),
    {
        self.builder.append_null()
    }

    /// `UInt32Builder::finish` gives the slots appended so far and empties the
    /// builder.
    #[verifier::external_body]
    pub(crate) fn finish(&mut self) -> (slots: Vec<Option<u32>>)
        ensures
            slots@ == right_indices_view(*old(self)),
            right_indices_view(*final(self)) == Seq::<Option<u32>>::empty(),
    {
        self.builder.finish().iter().collect()
    }
}

} // verus!
