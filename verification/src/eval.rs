//! The columns that a join is keyed by.
//!
//! What an expression computes is known to whoever made it. The join takes what
//! evaluating each of its key expressions returned.
use crate::array;
use crate::array::{Array, DataType, Scalar};
use crate::batch::RecordBatch;
use crate::condition::AsOfJoinCondition;
use crate::error::JoinError;
use crate::expr::{JoinOn, PhysicalExpr, PhysicalExprRef};
use crate::order::Value;
use crate::shared::share;
use crate::types::JoinSide;
use vstd::prelude::*;

verus! {

/// What evaluating an expression against a batch returns.
#[derive(Debug, PartialEq, Eq)]
pub enum ColumnarValue {
    /// One value per row.
    Array(Array),
    /// The same value in every row.
    Scalar(Scalar),
}

/// The key columns of one side of a join.
#[derive(Debug, PartialEq, Eq)]
pub struct KeyColumns {
    /// The equality keys.
    pub on: Vec<Array>,
    /// The as-of key.
    pub asof: Array,
}

impl KeyColumns {
    /// Whether every key has a slot in each of `num_rows` rows.
    pub open spec fn wf(&self, num_rows: nat) -> bool {
        &&& array::all_of_length(self.on@, num_rows)
        &&& self.asof@.len() == num_rows
    }

    /// All key columns: the equality keys, then the as-of key.
    pub open spec fn all(&self) -> Seq<Array> {
        self.on@.push(self.asof)
    }

    /// The equality keys of one row.
    pub open spec fn on_row(&self, row: int) -> Seq<Option<Value>> {
        array::row_of(self.on@, row)
    }

    /// The types of the equality keys.
    pub open spec fn on_types(&self) -> Seq<DataType> {
        array::column_types(self.on@)
    }

    /// The as-of key of one row.
    pub open spec fn asof_cell(&self, row: int) -> Option<Value> {
        self.asof@[row]
    }

    /// The type of the as-of key.
    pub open spec fn asof_type(&self) -> DataType {
        self.asof.data_type()
    }
}

/// The type of a scalar.
pub open spec fn scalar_type(scalar: Scalar) -> DataType {
    match scalar {
        Scalar::Boolean(_) => DataType::Boolean,
        Scalar::Int64(_) => DataType::Int64,
        Scalar::UInt64(_) => DataType::UInt64,
        Scalar::Utf8(_) => DataType::Utf8,
    }
}

/// The type of the values of an expression.
pub open spec fn value_type(value: ColumnarValue) -> DataType {
    match value {
        ColumnarValue::Array(column) => column.data_type(),
        ColumnarValue::Scalar(scalar) => scalar_type(scalar),
    }
}

/// The slots of an expression in `num_rows` rows.
pub open spec fn value_cells(value: ColumnarValue, num_rows: nat) -> Seq<Option<Value>> {
    match value {
        ColumnarValue::Array(column) => column@,
        ColumnarValue::Scalar(scalar) => Seq::new(num_rows, |i: int| scalar@),
    }
}

/// Whether what evaluating an expression returned has a slot in each of `num_rows`
/// rows.
pub open spec fn has_rows(value: Result<ColumnarValue, JoinError>, num_rows: nat) -> bool {
    match value {
        Ok(ColumnarValue::Array(column)) => column@.len() == num_rows,
        _ => true,
    }
}

/// Whether a column holds the values of an expression in `num_rows` rows.
pub open spec fn holds_value(column: Array, value: ColumnarValue, num_rows: nat) -> bool {
    &&& column@ == value_cells(value, num_rows)
    &&& column.data_type() == value_type(value)
    &&& column@.len() == num_rows
}

/// Returns a column that holds the scalar in every row.
pub fn array_of_size(scalar: &Scalar, len: usize) -> (array: Array)
    ensures
        array.data_type() == scalar_type(*scalar),
        array@ == Seq::new(len as nat, |i: int| scalar@),
{
    let single = match scalar {
        Scalar::Boolean(v) => Array::Boolean(vec![*v]),
        Scalar::Int64(v) => Array::Int64(vec![*v]),
        Scalar::UInt64(v) => Array::UInt64(vec![*v]),
        Scalar::Utf8(v) => {
            let text = match v {
                Some(text) => Some(text.clone()),
                None => None,
            };
            Array::Utf8(vec![text])
        },
    };
    assert(single@ =~= seq![scalar@]);
    let mut array = Array::new_empty(single.data_type());
    for i in 0..len
        invariant
            single@ == seq![scalar@],
            single.data_type() == scalar_type(*scalar),
            array.data_type() == scalar_type(*scalar),
            array@ == Seq::new(i as nat, |i: int| scalar@),
    {
        array.append_slot(&single, 0);
        assert(array@ =~= Seq::new((i + 1) as nat, |i: int| scalar@));
    }
    array
}

/// Returns the column that an expression stands for, given what evaluating it
/// returned; a constant is repeated in every row.
pub fn evaluate_expr(value: Result<ColumnarValue, JoinError>, num_rows: usize) -> (result: Result<
    Array,
    JoinError,
>)
    requires
        has_rows(value, num_rows as nat),
    ensures
        match value {
            Ok(value) => result is Ok && holds_value(result->Ok_0, value, num_rows as nat),
            Err(error) => result == Err::<Array, JoinError>(error),
        },
{
    match value {
        Ok(ColumnarValue::Array(column)) => Ok(column),
        Ok(ColumnarValue::Scalar(scalar)) => Ok(array_of_size(&scalar, num_rows)),
        Err(error) => Err(error),
    }
}

/// Whether the first of some expressions whose evaluation failed is the one at a
/// position.
pub open spec fn first_failure(values: Seq<Result<ColumnarValue, JoinError>>, at: int) -> bool {
    &&& 0 <= at < values.len()
    &&& values[at] is Err
    &&& forall|k: int| 0 <= k < at ==> (#[trigger] values[k]) is Ok
}

/// Returns the key columns of one side, given what evaluating each of its key
/// expressions returned, or the first failure, the equality keys before the as-of
/// key.
pub fn evaluate_keys(
    on: Vec<Result<ColumnarValue, JoinError>>,
    asof: Result<ColumnarValue, JoinError>,
    num_rows: usize,
) -> (result: Result<KeyColumns, JoinError>)
    requires
        forall|k: int| 0 <= k < on@.len() ==> has_rows(#[trigger] on@[k], num_rows as nat),
        has_rows(asof, num_rows as nat),
    ensures
        forall|at: int| #[trigger]
            first_failure(on@.push(asof), at) ==> result == Err::<KeyColumns, JoinError>(
                on@.push(asof)[at]->Err_0,
            ),
        (forall|at: int| !#[trigger] first_failure(on@.push(asof), at)) ==> {
            &&& result is Ok
            &&& result->Ok_0.wf(num_rows as nat)
            &&& result->Ok_0.on@.len() == on@.len()
            &&& forall|k: int|
                0 <= k < on@.len() ==> holds_value(
                    #[trigger] result->Ok_0.on@[k],
                    on@[k]->Ok_0,
                    num_rows as nat,
                )
            &&& holds_value(result->Ok_0.asof, asof->Ok_0, num_rows as nat)
        },
{
    let ghost values = on@.push(asof);
    let ghost all = on@;
    let mut rest = on;
    let mut columns: Vec<Array> = Vec::new();
    let len = rest.len();
    for k in 0..len
        invariant
            len == all.len(),
            all == on@,
            values == all.push(asof),
            rest@ == all.skip(k as int),
            columns@.len() == k,
            forall|d: int| 0 <= d < all.len() ==> has_rows(#[trigger] all[d], num_rows as nat),
            forall|d: int|
                0 <= d < k ==> (#[trigger] all[d]) is Ok && holds_value(
                    columns@[d],
                    all[d]->Ok_0,
                    num_rows as nat,
                ),
    {
        assert(all.skip(k as int)[0] == all[k as int]);
        let value = rest.remove(0);
        assert(rest@ =~= all.skip(k + 1));
        match evaluate_expr(value, num_rows) {
            Ok(column) => columns.push(column),
            Err(error) => {
                proof {
                    assert(values[k as int] == all[k as int]);
                    assert forall|d: int| 0 <= d < k implies (#[trigger] values[d]) is Ok by {
                        assert(all[d] is Ok);
                    }
                    assert(first_failure(values, k as int));
                    only_one_first_failure(values, k as int);
                }
                return Err(error);
            },
        }
    }
    proof {
        assert forall|d: int| 0 <= d < all.len() implies (#[trigger] values[d]) is Ok by {
            assert(all[d] is Ok);
        }
    }
    match evaluate_expr(asof, num_rows) {
        Ok(asof_column) => {
            assert(forall|at: int| !#[trigger] first_failure(values, at));
            assert forall|d: int| 0 <= d < columns@.len() implies (#[trigger] columns@[d])@.len()
                == num_rows && holds_value(columns@[d], all[d]->Ok_0, num_rows as nat) by {
                assert(all[d] is Ok);
            }
            Ok(KeyColumns { on: columns, asof: asof_column })
        },
        Err(error) => {
            proof {
                assert(first_failure(values, all.len() as int));
                only_one_first_failure(values, all.len() as int);
            }
            Err(error)
        },
    }
}

/// There is one first failure at most.
proof fn only_one_first_failure(values: Seq<Result<ColumnarValue, JoinError>>, at: int)
    requires
        first_failure(values, at),
    ensures
        forall|other: int| #[trigger] first_failure(values, other) ==> other == at,
{
    assert forall|other: int| #[trigger] first_failure(values, other) implies other == at by {
        if other < at {
            assert(values[other] is Ok);
        } else if at < other {
            assert(values[at] is Ok);
        }
    }
}

/// The key expressions of one side: the equality keys, then the as-of key.
pub open spec fn side_exprs(
    on: Seq<(PhysicalExprRef, PhysicalExprRef)>,
    asof_condition: AsOfJoinCondition,
    side: JoinSide,
) -> Seq<PhysicalExprRef> {
    if side == JoinSide::Left {
        on.map_values(|pair: (PhysicalExprRef, PhysicalExprRef)| pair.0).push(asof_condition.left)
    } else {
        on.map_values(|pair: (PhysicalExprRef, PhysicalExprRef)| pair.1).push(asof_condition.right)
    }
}

/// Whether a result is what some expressions, evaluated one after the other up to the
/// first failure, make the key columns of a side: the failure, or a column of values for
/// each expression.
pub open spec fn evaluates_to<F>(
    exprs: Seq<PhysicalExprRef>,
    evaluate: F,
    num_rows: nat,
    result: Result<KeyColumns, JoinError>,
) -> bool where F: Fn(PhysicalExprRef) -> Result<ColumnarValue, JoinError> {
    exists|values: Seq<Result<ColumnarValue, JoinError>>|
        {
            &&& 0 < #[trigger] values.len() <= exprs.len()
            &&& forall|k: int|
                0 <= k < values.len() ==> call_ensures(evaluate, (exprs[k],), #[trigger] values[k])
            &&& match result {
                Err(error) => first_failure(values, values.len() - 1) && values.last()
                    == Err::<ColumnarValue, JoinError>(error),
                Ok(keys) => {
                    &&& values.len() == exprs.len()
                    &&& keys.wf(num_rows)
                    &&& keys.all().len() == exprs.len()
                    &&& forall|k: int|
                        0 <= k < exprs.len() ==> (#[trigger] values[k]) is Ok && holds_value(
                            keys.all()[k],
                            values[k]->Ok_0,
                            num_rows,
                        )
                },
            }
        }
}

/// Evaluates the key expressions of one side, the equality keys first, and returns its
/// key columns or the first failure.
pub fn evaluate_side<F>(
    on: &JoinOn,
    asof_condition: &AsOfJoinCondition,
    side: JoinSide,
    num_rows: usize,
    evaluate: &F,
) -> (result: Result<KeyColumns, JoinError>) where
    F: Fn(PhysicalExprRef) -> Result<ColumnarValue, JoinError>,

    requires
        forall|expr: PhysicalExprRef| #[trigger] call_requires(*evaluate, (expr,)),
        forall|expr: PhysicalExprRef, value: Result<ColumnarValue, JoinError>| #[trigger]
            call_ensures(*evaluate, (expr,), value) ==> has_rows(value, num_rows as nat),
    ensures
        evaluates_to(
            side_exprs(on@, *asof_condition, side),
            *evaluate,
            num_rows as nat,
            result,
        ),
{
    let ghost exprs = side_exprs(on@, *asof_condition, side);
    let is_left = match side {
        JoinSide::Left => true,
        _ => false,
    };
    let mut values: Vec<Result<ColumnarValue, JoinError>> = Vec::new();
    for k in 0..on.len()
        invariant
            is_left == (side == JoinSide::Left),
            exprs == side_exprs(on@, *asof_condition, side),
            forall|expr: PhysicalExprRef| #[trigger] call_requires(*evaluate, (expr,)),
            forall|expr: PhysicalExprRef, value: Result<ColumnarValue, JoinError>| #[trigger]
                call_ensures(*evaluate, (expr,), value) ==> has_rows(value, num_rows as nat),
            values@.len() == k,
            forall|d: int|
                0 <= d < k ==> (#[trigger] values@[d]) is Ok && call_ensures(
                    *evaluate,
                    (exprs[d],),
                    values@[d],
                ),
    {
        let pair = &on[k];
        let expr = if is_left {
            share(&pair.0)
        } else {
            share(&pair.1)
        };
        assert(expr == exprs[k as int]);
        match evaluate(expr) {
            Ok(value) => values.push(Ok(value)),
            Err(error) => {
                proof {
                    let all = values@.push(Err::<ColumnarValue, JoinError>(error));
                    assert(0 < all.len() <= exprs.len());
                    assert(first_failure(all, all.len() - 1));
                }
                return Err(error);
            },
        }
    }
    let expr = if is_left {
        share(&asof_condition.left)
    } else {
        share(&asof_condition.right)
    };
    let asof = evaluate(expr);
    let ghost all = values@.push(asof);
    assert(0 < all.len() <= exprs.len());
    let result = evaluate_keys(values, asof, num_rows);
    proof {
        if asof is Err {
            assert(first_failure(all, all.len() - 1));
        } else {
            assert forall|at: int| !#[trigger] first_failure(all, at) by {}
        }
    }
    result
}

/// What evaluating an expression against a batch returns, where it is a column or a
/// constant; other expressions are computed elsewhere.
pub fn evaluate(expr: &PhysicalExpr, batch: &RecordBatch) -> (value: Option<
    Result<ColumnarValue, JoinError>,
>)
    requires
        batch.wf(),
    ensures
        match *expr {
            PhysicalExpr::Column(column) => value is Some && if column.index
                < batch.columns@.len() {
                value->0 is Ok && holds_value(
                    batch.columns@[column.index as int],
                    value->0->Ok_0,
                    batch.num_rows as nat,
                ) && has_rows(value->0, batch.num_rows as nat)
            } else {
                value->0 == Err::<ColumnarValue, JoinError>(
                    JoinError::UnknownColumn(column.index),
                )
            },
            PhysicalExpr::Literal { value: scalar, .. } => value is Some && value->0 is Ok
                && value->0->Ok_0 is Scalar && value->0->Ok_0->Scalar_0@ == scalar@ && value_type(
                value->0->Ok_0,
            ) == scalar_type(scalar),
            _ => value is None,
        },
{
    match expr {
        PhysicalExpr::Column(column) => {
            if column.index >= batch.columns.len() {
                return Some(Err(JoinError::UnknownColumn(column.index)));
            }
            assert(batch.columns@[column.index as int]@.len() == batch.num_rows);
            let source = &batch.columns[column.index];
            let mut copy = Array::new_empty(source.data_type());
            for row in 0..batch.num_rows
                invariant
                    source@.len() == batch.num_rows,
                    copy.data_type() == source.data_type(),
                    copy@ == source@.take(row as int),
            {
                copy.append_slot(source, row);
                assert(copy@ =~= source@.take(row + 1));
            }
            assert(source@.take(batch.num_rows as int) =~= source@);
            Some(Ok(ColumnarValue::Array(copy)))
        },
        PhysicalExpr::Literal { value, .. } => {
            let scalar = match value {
                Scalar::Boolean(v) => Scalar::Boolean(*v),
                Scalar::Int64(v) => Scalar::Int64(*v),
                Scalar::UInt64(v) => Scalar::UInt64(*v),
                Scalar::Utf8(Some(text)) => Scalar::Utf8(Some(text.clone())),
                Scalar::Utf8(None) => Scalar::Utf8(None),
            };
            Some(Ok(ColumnarValue::Scalar(scalar)))
        },
        _ => None,
    }
}

} // verus!
