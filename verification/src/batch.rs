//! Schemas and batches of rows.
use crate::array;
use crate::array::{Array, DataType};
use crate::error::JoinError;
use crate::order::Value;
use crate::shared::share;
use std::sync::Arc;
use vstd::prelude::*;

verus! {

/// Name and type of a column.
#[derive(Debug, PartialEq, Eq)]
pub struct Field {
    /// Name of the column.
    pub name: String,
    /// Type of the column.
    pub data_type: DataType,
    /// Whether the column may hold nulls.
    pub nullable: bool,
}

/// The columns of a relation, in order.
#[derive(Debug, PartialEq, Eq)]
pub struct Schema {
    /// The columns.
    pub fields: Vec<Field>,
}

/// Whether slots of a type may stand under a field.
pub open spec fn cells_conform(
    data_type: DataType,
    cells: Seq<Option<Value>>,
    field: Field,
) -> bool {
    &&& data_type == field.data_type
    &&& !field.nullable ==> forall|i: int| 0 <= i < cells.len() ==> (#[trigger] cells[i]) is Some
}

/// Whether a column may stand under a field.
pub open spec fn column_conforms(column: Array, field: Field) -> bool {
    cells_conform(column.data_type(), column@, field)
}

/// Returns whether a column may stand under a field.
fn conforms(column: &Array, field: &Field) -> (result: bool)
    ensures
        result == column_conforms(*column, *field),
{
    proof {
        array::count_nulls_zero(column@, column@.len());
    }
    column.data_type() == field.data_type && (field.nullable || column.null_count() == 0)
}

/// Whether columns of a common length stand under the fields of a schema.
pub open spec fn columns_conform(columns: Seq<Array>, num_rows: nat, schema: Schema) -> bool {
    &&& columns.len() == schema.fields@.len()
    &&& array::all_of_length(columns, num_rows)
    &&& forall|c: int|
        0 <= c < columns.len() ==> column_conforms(#[trigger] columns[c], schema.fields@[c])
}

/// Rows, stored by column.
#[derive(Debug, PartialEq, Eq)]
pub struct RecordBatch {
    /// The columns' names and types.
    pub schema: Arc<Schema>,
    /// The columns.
    pub columns: Vec<Array>,
    /// How many rows there are.
    pub num_rows: usize,
}

impl RecordBatch {
    /// Whether the columns conform to the schema.
    pub open spec fn wf(&self) -> bool {
        columns_conform(self.columns@, self.num_rows as nat, *self.schema)
    }

    /// Puts columns of `num_rows` rows under a schema.
    pub fn try_new(schema: Arc<Schema>, columns: Vec<Array>, num_rows: usize) -> (result: Result<
        RecordBatch,
        JoinError,
    >)
        ensures
            columns_conform(columns@, num_rows as nat, *schema) ==> result == Ok::<
                RecordBatch,
                JoinError,
            >(RecordBatch { schema, columns, num_rows }),
            !columns_conform(columns@, num_rows as nat, *schema) ==> result == Err::<
                RecordBatch,
                JoinError,
            >(JoinError::InvalidRecordBatch),
    {
        if columns.len() != schema.fields.len() {
            return Err(JoinError::InvalidRecordBatch);
        }
        for c in 0..columns.len()
            invariant
                columns@.len() == schema.fields@.len(),
                forall|d: int|
                    0 <= d < c ==> (#[trigger] columns@[d])@.len() == num_rows && column_conforms(
                        columns@[d],
                        schema.fields@[d],
                    ),
        {
            if columns[c].len() != num_rows || !conforms(&columns[c], &schema.fields[c]) {
                assert(columns@[c as int]@.len() != num_rows || !column_conforms(
                    columns@[c as int],
                    schema.fields@[c as int],
                ));
                return Err(JoinError::InvalidRecordBatch);
            }
        }
        Ok(RecordBatch { schema, columns, num_rows })
    }
}

/// The slots of one column of some batches, one batch after the other.
pub open spec fn concat_cells(batches: Seq<RecordBatch>, column: int) -> Seq<Option<Value>>
    decreases batches.len(),
{
    if batches.len() == 0 {
        Seq::empty()
    } else {
        concat_cells(batches.drop_last(), column) + batches.last().columns@[column]@
    }
}

/// How many rows some batches have together.
pub open spec fn total_rows(batches: Seq<RecordBatch>) -> nat
    decreases batches.len(),
{
    if batches.len() == 0 {
        0
    } else {
        total_rows(batches.drop_last()) + batches.last().num_rows as nat
    }
}

/// Fewer batches do not have more rows.
proof fn total_rows_of_prefix(batches: Seq<RecordBatch>, n: int)
    requires
        0 <= n <= batches.len(),
    ensures
        total_rows(batches.take(n)) <= total_rows(batches),
    decreases batches.len() - n,
{
    if n < batches.len() {
        total_rows_of_prefix(batches, n + 1);
        assert(batches.take(n + 1).drop_last() =~= batches.take(n));
    } else {
        assert(batches.take(n) =~= batches);
    }
}

/// Whether the columns of a batch may stand under the fields of a schema; columns
/// beyond those do not count.
pub open spec fn batch_conforms(batch: RecordBatch, schema: Schema) -> bool {
    forall|c: int|
        0 <= c < schema.fields@.len() ==> column_conforms(
            #[trigger] batch.columns@[c],
            schema.fields@[c],
        )
}

/// A column of well-formed batches that conform to a field, put one after the
/// other, conforms to it and has the rows of all batches.
proof fn concat_cells_conform(batches: Seq<RecordBatch>, field: Field, column: int)
    requires
        forall|b: int|
            0 <= b < batches.len() ==> (#[trigger] batches[b]).wf() && column
                < batches[b].columns@.len() && column_conforms(batches[b].columns@[column], field),
        0 <= column,
    ensures
        concat_cells(batches, column).len() == total_rows(batches),
        cells_conform(field.data_type, concat_cells(batches, column), field),
    decreases batches.len(),
{
    if batches.len() > 0 {
        let last = batches.last();
        assert(last == batches[batches.len() - 1]);
        assert(last.columns@[column]@.len() == last.num_rows);
        assert forall|b: int| 0 <= b < batches.drop_last().len() implies (
        #[trigger] batches.drop_last()[b]).wf() && column < batches.drop_last()[b].columns@.len()
            && column_conforms(batches.drop_last()[b].columns@[column], field) by {
            assert(batches.drop_last()[b] == batches[b]);
        }
        concat_cells_conform(batches.drop_last(), field, column);
    }
}

/// Returns whether the columns of a batch may stand under the fields of a schema.
fn conforms_to(batch: &RecordBatch, schema: &Schema) -> (result: bool)
    requires
        schema.fields@.len() <= batch.columns@.len(),
    ensures
        result == batch_conforms(*batch, *schema),
{
    for c in 0..schema.fields.len()
        invariant
            schema.fields@.len() <= batch.columns@.len(),
            forall|d: int|
                0 <= d < c ==> column_conforms(#[trigger] batch.columns@[d], schema.fields@[d]),
    {
        if !conforms(&batch.columns[c], &schema.fields[c]) {
            assert(!column_conforms(batch.columns@[c as int], schema.fields@[c as int]));
            return false;
        }
    }
    true
}

/// Appends all slots of a column of the same type.
fn append_all(target: &mut Array, source: &Array)
    requires
        old(target).data_type() == source.data_type(),
    ensures
        final(target).data_type() == old(target).data_type(),
        final(target)@ == old(target)@ + source@,
{
    let len = source.len();
    assert(target@ =~= old(target)@ + source@.take(0));
    for row in 0..len
        invariant
            len == source@.len(),
            target.data_type() == old(target).data_type(),
            target.data_type() == source.data_type(),
            target@ == old(target)@ + source@.take(row as int),
    {
        target.append_slot(source, row);
        assert(target@ =~= old(target)@ + source@.take(row + 1));
    }
    assert(source@.take(len as int) =~= source@);
}

/// Whether a batch holds the rows of some batches, one batch after the other,
/// under a schema.
pub open spec fn is_concatenation(
    batch: RecordBatch,
    schema: Arc<Schema>,
    batches: Seq<RecordBatch>,
) -> bool {
    &&& batch.wf()
    &&& batch.schema == schema
    &&& batch.num_rows == total_rows(batches)
    &&& forall|c: int|
        0 <= c < schema.fields@.len() ==> (#[trigger] batch.columns@[c])@ == concat_cells(
            batches,
            c,
        )
}

/// Returns how many rows some batches have together.
pub(crate) fn count_rows(batches: &Vec<RecordBatch>) -> (num_rows: usize)
    requires
        total_rows(batches@) <= usize::MAX,
    ensures
        num_rows == total_rows(batches@),
{
    let mut num_rows: usize = 0;
    for b in 0..batches.len()
        invariant
            total_rows(batches@) <= usize::MAX,
            num_rows == total_rows(batches@.take(b as int)),
    {
        proof {
            total_rows_of_prefix(batches@, b + 1);
            assert(batches@.take(b + 1).drop_last() =~= batches@.take(b as int));
        }
        num_rows = num_rows + batches[b].num_rows;
    }
    assert(batches@.take(batches@.len() as int) =~= batches@);
    num_rows
}

/// Puts batches under one schema, one after the other; no batches give a batch
/// without rows.
pub fn concat_or_empty(schema: Arc<Schema>, batches: Vec<RecordBatch>) -> (result: Result<
    RecordBatch,
    JoinError,
>)
    requires
        forall|b: int|
            0 <= b < batches@.len() ==> (#[trigger] batches@[b]).wf() && schema.fields@.len()
                <= batches@[b].columns@.len(),
        total_rows(batches@) <= usize::MAX,
    ensures
        (forall|b: int| 0 <= b < batches@.len() ==> batch_conforms(#[trigger] batches@[b], *schema))
            ==> result is Ok && is_concatenation(result->Ok_0, schema, batches@),
        !(forall|b: int|
            0 <= b < batches@.len() ==> batch_conforms(#[trigger] batches@[b], *schema))
            ==> result == Err::<RecordBatch, JoinError>(JoinError::InvalidRecordBatch),
{
    let num_rows = count_rows(&batches);
    for b in 0..batches.len()
        invariant
            forall|b: int|
                0 <= b < batches@.len() ==> (#[trigger] batches@[b]).wf() && schema.fields@.len()
                    <= batches@[b].columns@.len(),
            forall|d: int| 0 <= d < b ==> batch_conforms(#[trigger] batches@[d], *schema),
    {
        if !conforms_to(&batches[b], &schema) {
            assert(!batch_conforms(batches@[b as int], *schema));
            return Err(JoinError::InvalidRecordBatch);
        }
    }
    let mut columns: Vec<Array> = Vec::new();
    for c in 0..schema.fields.len()
        invariant
            columns@.len() == c,
            forall|b: int|
                0 <= b < batches@.len() ==> (#[trigger] batches@[b]).wf() && schema.fields@.len()
                    <= batches@[b].columns@.len() && batch_conforms(batches@[b], *schema),
            forall|d: int|
                0 <= d < c ==> (#[trigger] columns@[d])@ == concat_cells(batches@, d)
                    && columns@[d].data_type() == schema.fields@[d].data_type,
    {
        let mut column = Array::new_empty(schema.fields[c].data_type);
        for b in 0..batches.len()
            invariant
                0 <= c < schema.fields@.len(),
                forall|b: int|
                    0 <= b < batches@.len() ==> schema.fields@.len() <= (
                    #[trigger] batches@[b]).columns@.len() && batch_conforms(batches@[b], *schema),
                column.data_type() == schema.fields@[c as int].data_type,
                column@ == concat_cells(batches@.take(b as int), c as int),
        {
            assert(column_conforms(batches@[b as int].columns@[c as int], schema.fields@[c as int]));
            append_all(&mut column, &batches[b].columns[c]);
            assert(batches@.take(b + 1).drop_last() =~= batches@.take(b as int));
        }
        assert(batches@.take(batches@.len() as int) =~= batches@);
        columns.push(column);
    }
    proof {
        assert forall|c: int| 0 <= c < columns@.len() implies column_conforms(
            #[trigger] columns@[c],
            schema.fields@[c],
        ) && columns@[c]@.len() == num_rows by {
            assert forall|b: int| 0 <= b < batches@.len() implies column_conforms(
                (#[trigger] batches@[b]).columns@[c],
                schema.fields@[c],
            ) by {
                assert(batch_conforms(batches@[b], *schema));
            }
            concat_cells_conform(batches@, schema.fields@[c], c);
        }
    }
    Ok(RecordBatch { schema, columns, num_rows })
}

/// The slots of a column in the order of the given rows.
pub open spec fn taken(cells: Seq<Option<Value>>, rows: Seq<u32>) -> Seq<Option<Value>> {
    Seq::new(rows.len(), |k: int| cells[rows[k] as int])
}

/// Whether one batch holds the given rows of another, in that order.
pub open spec fn holds_rows(batch: RecordBatch, source: RecordBatch, rows: Seq<u32>) -> bool {
    &&& batch.schema == source.schema
    &&& batch.num_rows == rows.len()
    &&& batch.columns@.len() == source.columns@.len()
    &&& forall|c: int|
        0 <= c < source.columns@.len() ==> (#[trigger] batch.columns@[c])@ == taken(
            source.columns@[c]@,
            rows,
        ) && batch.columns@[c].data_type() == source.columns@[c].data_type()
}

/// Returns a column with the slots of the given rows.
pub(crate) fn take(column: &Array, rows: &Vec<u32>) -> (result: Array)
    requires
        forall|k: int| 0 <= k < rows@.len() ==> (#[trigger] rows@[k]) < column@.len(),
    ensures
        result.data_type() == column.data_type(),
        result@ == taken(column@, rows@),
{
    let mut result = Array::new_empty(column.data_type());
    for k in 0..rows.len()
        invariant
            forall|k: int| 0 <= k < rows@.len() ==> (#[trigger] rows@[k]) < column@.len(),
            result.data_type() == column.data_type(),
            result@ == taken(column@, rows@.take(k as int)),
    {
        result.append_slot(column, rows[k] as usize);
        assert(result@ =~= taken(column@, rows@.take(k + 1)));
    }
    assert(rows@.take(rows@.len() as int) =~= rows@);
    result
}

/// Returns a batch with the given rows, in that order.
pub fn take_record_batch(batch: &RecordBatch, rows: &Vec<u32>) -> (result: RecordBatch)
    requires
        batch.wf(),
        forall|k: int| 0 <= k < rows@.len() ==> (#[trigger] rows@[k]) < batch.num_rows,
    ensures
        result.wf(),
        holds_rows(result, *batch, rows@),
{
    let mut columns: Vec<Array> = Vec::new();
    for c in 0..batch.columns.len()
        invariant
            batch.wf(),
            forall|k: int| 0 <= k < rows@.len() ==> (#[trigger] rows@[k]) < batch.num_rows,
            columns@.len() == c,
            forall|d: int|
                0 <= d < c ==> (#[trigger] columns@[d])@ == taken(batch.columns@[d]@, rows@)
                    && columns@[d].data_type() == batch.columns@[d].data_type(),
    {
        assert(batch.columns@[c as int]@.len() == batch.num_rows);
        columns.push(take(&batch.columns[c], rows));
    }
    proof {
        assert forall|c: int| 0 <= c < columns@.len() implies column_conforms(
            #[trigger] columns@[c],
            batch.schema.fields@[c],
        ) && columns@[c]@.len() == rows@.len() by {
            assert(column_conforms(batch.columns@[c], batch.schema.fields@[c]));
        }
    }
    RecordBatch { schema: share(&batch.schema), columns, num_rows: rows.len() }
}

/// Whether one batch holds `len` rows of another, from `offset` on.
pub open spec fn is_slice(slice: RecordBatch, batch: RecordBatch, offset: int, len: int) -> bool {
    &&& slice.wf()
    &&& slice.schema == batch.schema
    &&& slice.num_rows == len
    &&& forall|c: int|
        0 <= c < batch.columns@.len() ==> (#[trigger] slice.columns@[c])@
            == batch.columns@[c]@.subrange(offset, offset + len)
}

impl RecordBatch {
    /// Returns `len` rows from `offset` on.
    pub fn slice(&self, offset: usize, len: usize) -> (slice: RecordBatch)
        requires
            self.wf(),
            offset + len <= self.num_rows,
        ensures
            is_slice(slice, *self, offset as int, len as int),
    {
        let mut columns: Vec<Array> = Vec::new();
        for c in 0..self.columns.len()
            invariant
                self.wf(),
                offset + len <= self.num_rows,
                columns@.len() == c,
                forall|d: int|
                    0 <= d < c ==> (#[trigger] columns@[d])@ == self.columns@[d]@.subrange(
                        offset as int,
                        offset + len,
                    ) && columns@[d].data_type() == self.columns@[d].data_type(),
        {
            let source = &self.columns[c];
            assert(source@.len() == self.num_rows);
            let mut column = Array::new_empty(source.data_type());
            for k in 0..len
                invariant
                    offset + len <= self.num_rows,
                    source@.len() == self.num_rows,
                    column.data_type() == source.data_type(),
                    column@ == source@.subrange(offset as int, offset + k),
            {
                column.append_slot(source, offset + k);
                assert(column@ =~= source@.subrange(offset as int, offset + k + 1));
            }
            columns.push(column);
        }
        proof {
            assert forall|c: int| 0 <= c < columns@.len() implies column_conforms(
                #[trigger] columns@[c],
                self.schema.fields@[c],
            ) && columns@[c]@.len() == len by {
                assert(column_conforms(self.columns@[c], self.schema.fields@[c]));
                assert(self.columns@[c]@.len() == self.num_rows);
            }
        }
        RecordBatch { schema: share(&self.schema), columns, num_rows: len }
    }
}

} // verus!
