//! Columns of nullable values.
use crate::order::Value;
use vstd::prelude::*;

verus! {

/// Type of a column.
#[derive(Debug, Clone, Copy, PartialEq, Eq, Structural)]
pub enum DataType {
    Boolean,
    Int64,
    UInt64,
    Utf8,
}

/// A column: one nullable slot per row, all of one type.
#[derive(Debug, PartialEq, Eq)]
pub enum Array {
    Boolean(Vec<Option<bool>>),
    Int64(Vec<Option<i64>>),
    UInt64(Vec<Option<u64>>),
    Utf8(Vec<Option<String>>),
}

/// A single nullable value of a known type.
#[derive(Debug, PartialEq, Eq)]
pub enum Scalar {
    Boolean(Option<bool>),
    Int64(Option<i64>),
    UInt64(Option<u64>),
    Utf8(Option<String>),
}

/// The slot that holds the given boolean.
pub open spec fn boolean_cell(x: Option<bool>) -> Option<Value> {
    match x {
        Some(v) => Some(Value::Boolean(v)),
        None => None,
    }
}

/// The slot that holds the given signed integer.
pub open spec fn int_cell(x: Option<i64>) -> Option<Value> {
    match x {
        Some(v) => Some(Value::Int(v as int)),
        None => None,
    }
}

/// The slot that holds the given unsigned integer.
pub open spec fn uint_cell(x: Option<u64>) -> Option<Value> {
    match x {
        Some(v) => Some(Value::Int(v as int)),
        None => None,
    }
}

/// The slot that holds the given text.
pub open spec fn text_cell(x: Option<String>) -> Option<Value> {
    match x {
        Some(v) => Some(Value::Text(v@)),
        None => None,
    }
}

impl View for Array {
    type V = Seq<Option<Value>>;

    open spec fn view(&self) -> Seq<Option<Value>> {
        match self {
            Array::Boolean(v) => Seq::new(v@.len(), |i: int| boolean_cell(v@[i])),
            Array::Int64(v) => Seq::new(v@.len(), |i: int| int_cell(v@[i])),
            Array::UInt64(v) => Seq::new(v@.len(), |i: int| uint_cell(v@[i])),
            Array::Utf8(v) => Seq::new(v@.len(), |i: int| text_cell(v@[i])),
        }
    }
}

impl View for Scalar {
    type V = Option<Value>;

    open spec fn view(&self) -> Option<Value> {
        match self {
            Scalar::Boolean(v) => boolean_cell(*v),
            Scalar::Int64(v) => int_cell(*v),
            Scalar::UInt64(v) => uint_cell(*v),
            Scalar::Utf8(v) => text_cell(*v),
        }
    }
}

/// Whether a slot can stand in a column of the given type.
pub open spec fn cell_fits(cell: Option<Value>, data_type: DataType) -> bool {
    match (cell, data_type) {
        (None, _) => true,
        (Some(Value::Boolean(_)), DataType::Boolean) => true,
        (Some(Value::Int(i)), DataType::Int64) => i64::MIN <= i <= i64::MAX,
        (Some(Value::Int(i)), DataType::UInt64) => 0 <= i <= u64::MAX,
        (Some(Value::Text(_)), DataType::Utf8) => true,
        _ => false,
    }
}

/// Whether a row has one fitting slot for each of the given types.
pub open spec fn row_fits(row: Seq<Option<Value>>, types: Seq<DataType>) -> bool {
    row.len() == types.len() && forall|c: int|
        0 <= c < types.len() ==> cell_fits(#[trigger] row[c], types[c])
}

/// The types of the given columns.
pub open spec fn column_types(columns: Seq<Array>) -> Seq<DataType> {
    Seq::new(columns.len(), |c: int| columns[c].data_type())
}

/// The slots of one row across the given columns.
pub open spec fn row_of(columns: Seq<Array>, row: int) -> Seq<Option<Value>> {
    Seq::new(columns.len(), |c: int| columns[c]@[row])
}

/// Whether every column has the given number of slots.
pub open spec fn all_of_length(columns: Seq<Array>, len: nat) -> bool {
    forall|c: int| 0 <= c < columns.len() ==> (#[trigger] columns[c])@.len() == len
}

/// The rows of columns fit the types of the columns.
pub proof fn row_of_fits(columns: Seq<Array>, len: nat, row: int)
    requires
        all_of_length(columns, len),
        0 <= row < len,
    ensures
        row_fits(row_of(columns, row), column_types(columns)),
{
    let types = column_types(columns);
    assert forall|c: int| 0 <= c < types.len() implies cell_fits(
        #[trigger] row_of(columns, row)[c],
        types[c],
    ) by {
        assert(columns[c]@.len() == len);
    }
}

/// How many of the first `n` slots are null.
pub open spec fn count_nulls(cells: Seq<Option<Value>>, n: nat) -> nat
    decreases n,
{
    if n == 0 {
        0
    } else {
        count_nulls(cells, (n - 1) as nat) + if cells[n - 1] is None {
            1nat
        } else {
            0nat
        }
    }
}

/// There are no nulls exactly where none is counted.
pub proof fn count_nulls_zero(cells: Seq<Option<Value>>, n: nat)
    requires
        n <= cells.len(),
    ensures
        count_nulls(cells, n) <= n,
        count_nulls(cells, n) == 0 <==> (forall|i: int| 0 <= i < n ==> cells[i] is Some),
    decreases n,
{
    if n > 0 {
        count_nulls_zero(cells, (n - 1) as nat);
        assert(count_nulls(cells, n) == 0 ==> cells[n - 1] is Some);
    }
}

impl Array {
    /// The type of the column.
    pub open spec fn spec_data_type(&self) -> DataType {
        match self {
            Array::Boolean(_) => DataType::Boolean,
            Array::Int64(_) => DataType::Int64,
            Array::UInt64(_) => DataType::UInt64,
            Array::Utf8(_) => DataType::Utf8,
        }
    }

    /// Returns the type of the column.
    #[verifier::when_used_as_spec(spec_data_type)]
    pub fn data_type(&self) -> (data_type: DataType)
        ensures
            data_type == self.data_type(),
    {
        match self {
            Array::Boolean(_) => DataType::Boolean,
            Array::Int64(_) => DataType::Int64,
            Array::UInt64(_) => DataType::UInt64,
            Array::Utf8(_) => DataType::Utf8,
        }
    }

    /// Returns the number of slots.
    pub fn len(&self) -> (len: usize)
        ensures
            len == self@.len(),
    {
        match self {
            Array::Boolean(v) => v.len(),
            Array::Int64(v) => v.len(),
            Array::UInt64(v) => v.len(),
            Array::Utf8(v) => v.len(),
        }
    }

    /// Returns whether the slot in the given row is null.
    pub fn is_null(&self, row: usize) -> (null: bool)
        requires
            row < self@.len(),
        ensures
            null == (self@[row as int] is None),
    {
        match self {
            Array::Boolean(v) => v[row].is_none(),
            Array::Int64(v) => v[row].is_none(),
            Array::UInt64(v) => v[row].is_none(),
            Array::Utf8(v) => v[row].is_none(),
        }
    }

    /// Returns how many slots are null.
    pub fn null_count(&self) -> (count: usize)
        ensures
            count == count_nulls(self@, self@.len()),
    {
        let len = self.len();
        let mut count: usize = 0;
        for row in 0..len
            invariant
                len == self@.len(),
                count == count_nulls(self@, row as nat),
                count <= row,
        {
            proof {
                count_nulls_zero(self@, row as nat + 1);
            }
            if self.is_null(row) {
                count = count + 1;
            }
        }
        count
    }

    /// Returns an empty column of the given type.
    pub fn new_empty(data_type: DataType) -> (array: Array)
        ensures
            array.data_type() == data_type,
            array@ == Seq::<Option<Value>>::empty(),
    {
        let array = match data_type {
            DataType::Boolean => Array::Boolean(Vec::new()),
            DataType::Int64 => Array::Int64(Vec::new()),
            DataType::UInt64 => Array::UInt64(Vec::new()),
            DataType::Utf8 => Array::Utf8(Vec::new()),
        };
        assert(array@ =~= Seq::<Option<Value>>::empty());
        array
    }

    /// Appends a null slot.
    pub fn append_null(&mut self)
        ensures
            final(self).data_type() == old(self).data_type(),
            final(self)@ == old(self)@.push(None),
    {
        match self {
            Array::Boolean(v) => v.push(None),
            Array::Int64(v) => v.push(None),
            Array::UInt64(v) => v.push(None),
            Array::Utf8(v) => v.push(None),
        }
        assert(self@ =~= old(self)@.push(None));
    }

    /// Appends a copy of one slot of a column of the same type.
    pub fn append_slot(&mut self, source: &Array, row: usize)
        requires
            old(self).data_type() == source.data_type(),
            row < source@.len(),
        ensures
            final(self).data_type() == old(self).data_type(),
            final(self)@ == old(self)@.push(source@[row as int]),
    {
        match self {
            Array::Boolean(v) => if let Array::Boolean(s) = source {
                v.push(s[row]);
            },
            Array::Int64(v) => if let Array::Int64(s) = source {
                v.push(s[row]);
            },
            Array::UInt64(v) => if let Array::UInt64(s) = source {
                v.push(s[row]);
            },
            Array::Utf8(v) => if let Array::Utf8(s) = source {
                match &s[row] {
                    Some(text) => v.push(Some(text.clone())),
                    None => v.push(None),
                }
            },
        }
        assert(self@ =~= old(self)@.push(source@[row as int]));
    }
}

} // verus!
