//! What planning knows of the inputs of a join.
use crate::batch::{Field, Schema};
use crate::error::JoinError;
use crate::expr::{Column, JoinOn, PhysicalExpr, PhysicalExprRef, PhysicalSortExpr};
use crate::shared::share;
use crate::types::{ColumnIndex, JoinSide, JoinType};
use std::sync::Arc;
use vstd::prelude::*;

verus! {

/// Whether an input ends.
#[derive(Debug, Clone, Copy, PartialEq, Eq, Structural)]
pub enum Boundedness {
    Bounded,
    Unbounded {
        /// Whether the memory that the input needs may grow without end.
        requires_infinite_memory: bool,
    },
}

impl Boundedness {
    /// Returns whether the input may never end.
    pub fn is_unbounded(&self) -> (unbounded: bool)
        ensures
            unbounded == (*self is Unbounded),
    {
        match self {
            Boundedness::Unbounded { .. } => true,
            Boundedness::Bounded => false,
        }
    }
}

/// When an operator emits its results.
#[derive(Debug, Clone, Copy, PartialEq, Eq, Structural)]
pub enum EmissionType {
    /// As soon as they are there.
    Incremental,
    /// After all input has been read.
    Final,
    /// Some at once, the rest at the end.
    Both,
}

/// How well a quantity is known.
#[derive(Debug, Clone, Copy, PartialEq, Eq, Structural)]
pub enum Precision {
    Exact(usize),
    Inexact(usize),
    Absent,
}

impl Precision {
    /// The quantity, exact or not, where it is known at all.
    pub open spec fn value(self) -> Option<usize> {
        match self {
            Precision::Exact(value) => Some(value),
            Precision::Inexact(value) => Some(value),
            Precision::Absent => None,
        }
    }

    /// Returns the quantity, exact or not, where it is known at all.
    pub fn get_value(&self) -> (value: Option<usize>)
        ensures
            value == self.value(),
    {
        match self {
            Precision::Exact(value) => Some(*value),
            Precision::Inexact(value) => Some(*value),
            Precision::Absent => None,
        }
    }
}

/// Statistics of an input.
#[derive(Debug, Clone, Copy, PartialEq, Eq, Structural)]
pub struct Statistics {
    /// How many rows the input has.
    pub num_rows: Precision,
    /// How many bytes the rows take.
    pub total_byte_size: Precision,
}

/// How the rows of an input have to be spread over partitions.
#[derive(Debug, PartialEq, Eq)]
pub enum Distribution {
    /// In any way.
    UnspecifiedDistribution,
    /// All in one partition.
    SinglePartition,
    /// By a hash of the given expressions: rows in which they are equal share a
    /// partition.
    HashPartitioned(Vec<PhysicalExprRef>),
}

/// A plan that is the input of a join, as far as planning the join looks into it.
#[derive(Debug, PartialEq, Eq)]
pub struct PlanInput {
    /// The columns.
    pub schema: Arc<Schema>,
    /// How many partitions the rows are spread over.
    pub partitions: usize,
    /// Whether the plan ends.
    pub boundedness: Boundedness,
    /// When the plan emits its results.
    pub emission_type: EmissionType,
    /// The statistics, or why there are none.
    pub statistics: Result<Statistics, String>,
    /// For each column whether the rows are ordered by it in some way.
    pub ordered_columns: Vec<bool>,
    /// The order of the rows, where there is one.
    pub output_ordering: Option<Arc<Vec<PhysicalSortExpr>>>,
}

/// Whether the inputs of a plan, taken together, end: memory without end in one
/// input decides, then an input that does not end.
pub open spec fn joint_boundedness(left: Boundedness, right: Boundedness) -> Boundedness {
    let infinite = Boundedness::Unbounded { requires_infinite_memory: true };
    if left == infinite || right == infinite {
        infinite
    } else if left is Unbounded || right is Unbounded {
        Boundedness::Unbounded { requires_infinite_memory: false }
    } else {
        Boundedness::Bounded
    }
}

/// Returns whether two inputs, taken together, end.
pub fn boundedness_from_children(left: Boundedness, right: Boundedness) -> (boundedness:
    Boundedness)
    ensures
        boundedness == joint_boundedness(left, right),
{
    match (left, right) {
        (Boundedness::Unbounded { requires_infinite_memory: true }, _) => left,
        (_, Boundedness::Unbounded { requires_infinite_memory: true }) => right,
        (Boundedness::Unbounded { .. }, _) => left,
        (_, right) => right,
    }
}

/// Whether a schema has a column at its position under its name.
pub open spec fn has_column(schema: Schema, column: Column) -> bool {
    column.index < schema.fields@.len() && schema.fields@[column.index as int].name@
        == column.name@
}

/// Whether a schema has every column that an expression refers to.
pub open spec fn has_columns_of(schema: Schema, expr: PhysicalExpr) -> bool
    decreases expr,
{
    match expr {
        PhysicalExpr::Column(column) => has_column(schema, column),
        PhysicalExpr::Literal { .. } => true,
        PhysicalExpr::Binary { left, right, .. } => has_columns_of(schema, *left)
            && has_columns_of(schema, *right),
        PhysicalExpr::Other { columns, .. } => forall|k: int|
            0 <= k < columns@.len() ==> has_column(schema, #[trigger] columns@[k]),
    }
}

/// Whether both inputs have every column that the equality keys refer to.
pub open spec fn join_is_valid(
    left: Schema,
    right: Schema,
    on: Seq<(PhysicalExprRef, PhysicalExprRef)>,
) -> bool {
    forall|k: int|
        0 <= k < on.len() ==> has_columns_of(left, *(#[trigger] on[k]).0) && has_columns_of(
            right,
            *on[k].1,
        )
}

/// Returns whether a schema has a column at its position under its name.
fn contains_column(schema: &Schema, column: &Column) -> (result: bool)
    ensures
        result == has_column(*schema, *column),
{
    column.index < schema.fields.len() && schema.fields[column.index].name == column.name
}

/// Returns whether a schema has every one of some columns.
fn contains_all(schema: &Schema, columns: &Vec<Column>) -> (result: bool)
    ensures
        result == forall|k: int|
            0 <= k < columns@.len() ==> has_column(*schema, #[trigger] columns@[k]),
{
    for k in 0..columns.len()
        invariant
            forall|d: int| 0 <= d < k ==> has_column(*schema, #[trigger] columns@[d]),
    {
        if !contains_column(schema, &columns[k]) {
            assert(!has_column(*schema, columns@[k as int]));
            return false;
        }
    }
    true
}

/// Returns whether a schema has every column that an expression refers to.
fn contains_columns_of(schema: &Schema, expr: &PhysicalExpr) -> (result: bool)
    ensures
        result == has_columns_of(*schema, *expr),
    decreases *expr,
{
    match expr {
        PhysicalExpr::Column(column) => contains_column(schema, column),
        PhysicalExpr::Literal { .. } => true,
        PhysicalExpr::Binary { left, right, .. } => contains_columns_of(schema, &**left)
            && contains_columns_of(schema, &**right),
        PhysicalExpr::Other { columns, .. } => contains_all(schema, columns),
    }
}

/// Refuses equality keys that refer to columns that an input does not have.
pub fn check_join_is_valid(left: &Schema, right: &Schema, on: &JoinOn) -> (result: Result<
    (),
    JoinError,
>)
    ensures
        join_is_valid(*left, *right, on@) ==> result == Ok::<(), JoinError>(()),
        !join_is_valid(*left, *right, on@) ==> result == Err::<(), JoinError>(
            JoinError::MissingJoinColumns,
        ),
{
    for k in 0..on.len()
        invariant
            forall|d: int|
                0 <= d < k ==> has_columns_of(*left, *(#[trigger] on@[d]).0) && has_columns_of(
                    *right,
                    *on@[d].1,
                ),
    {
        let pair = &on[k];
        if !contains_columns_of(left, &*pair.0) || !contains_columns_of(right, &*pair.1) {
            assert(!(has_columns_of(*left, *on@[k as int].0) && has_columns_of(
                *right,
                *on@[k as int].1,
            )));
            return Err(JoinError::MissingJoinColumns);
        }
    }
    Ok(())
}

/// A column of a join's output: nullable where rows may be extended with nulls.
pub open spec fn output_field(field: Field, force_nullable: bool) -> Field {
    Field {
        name: field.name,
        data_type: field.data_type,
        nullable: field.nullable || force_nullable,
    }
}

/// The columns of an inner or left join: those of the left, then those of the
/// right input. A left join may extend the right columns with nulls.
pub open spec fn joined_fields(left: Schema, right: Schema, join_type: JoinType) -> Seq<Field> {
    left.fields@ + Seq::new(
        right.fields@.len(),
        |c: int| output_field(right.fields@[c], join_type == JoinType::Left),
    )
}

/// Where the columns of an inner or left join come from.
pub open spec fn joined_columns(left_columns: nat, right_columns: nat) -> Seq<ColumnIndex> {
    Seq::new(
        left_columns + right_columns,
        |c: int|
            if c < left_columns {
                ColumnIndex { index: c as usize, side: JoinSide::Left }
            } else {
                ColumnIndex { index: (c - left_columns) as usize, side: JoinSide::Right }
            },
    )
}

/// Returns a copy of a field, nullable where asked for.
fn copy_field(field: &Field, force_nullable: bool) -> (copy: Field)
    ensures
        copy == output_field(*field, force_nullable),
{
    Field {
        name: field.name.clone(),
        data_type: field.data_type,
        nullable: field.nullable || force_nullable,
    }
}

/// Returns the columns of an inner or left join, and where they come from.
pub fn build_join_schema(left: &Schema, right: &Schema, join_type: JoinType) -> (result: (
    Schema,
    Vec<ColumnIndex>,
))
    requires
        join_type == JoinType::Inner || join_type == JoinType::Left,
    ensures
        result.0.fields@ == joined_fields(*left, *right, join_type),
        result.1@ == joined_columns(left.fields@.len(), right.fields@.len()),
{
    let mut fields: Vec<Field> = Vec::new();
    let mut column_indices: Vec<ColumnIndex> = Vec::new();
    let ghost all = joined_columns(left.fields@.len(), right.fields@.len());
    for c in 0..left.fields.len()
        invariant
            all == joined_columns(left.fields@.len(), right.fields@.len()),
            fields@ == left.fields@.take(c as int),
            column_indices@ == all.take(c as int),
    {
        fields.push(copy_field(&left.fields[c], false));
        column_indices.push(ColumnIndex { index: c, side: JoinSide::Left });
        assert(fields@ =~= left.fields@.take(c + 1));
        assert(column_indices@ =~= all.take(c + 1));
    }
    let ghost n = left.fields@.len();
    assert(fields@ =~= joined_fields(*left, *right, join_type).take(n as int));
    for c in 0..right.fields.len()
        invariant
            n == left.fields@.len(),
            all == joined_columns(n, right.fields@.len()),
            fields@ == joined_fields(*left, *right, join_type).take(n + c),
            column_indices@ == all.take(n + c),
    {
        fields.push(copy_field(&right.fields[c], join_type == JoinType::Left));
        column_indices.push(ColumnIndex { index: c, side: JoinSide::Right });
        assert(fields@ =~= joined_fields(*left, *right, join_type).take(n + c + 1));
        assert(column_indices@ =~= all.take(n + c + 1));
    }
    assert(fields@ =~= joined_fields(*left, *right, join_type));
    assert(column_indices@ =~= all);
    (Schema { fields }, column_indices)
}

/// Whether a projection refers to existing columns only.
pub open spec fn projects(projection: Option<Vec<usize>>, fields: nat) -> bool {
    projection is Some ==> forall|k: int|
        0 <= k < projection->0@.len() ==> (#[trigger] projection->0@[k]) < fields
}

/// Whether an index is the greatest of a projection.
pub open spec fn is_greatest(index: usize, projection: Seq<usize>) -> bool {
    projection.contains(index) && forall|k: int|
        0 <= k < projection.len() ==> (#[trigger] projection[k]) <= index
}

/// Refuses a projection that refers to a column past the last one; the error names
/// the greatest column asked for.
pub fn can_project(fields: usize, projection: &Option<Vec<usize>>) -> (result: Result<
    (),
    JoinError,
>)
    ensures
        projects(*projection, fields as nat) ==> result == Ok::<(), JoinError>(()),
        !projects(*projection, fields as nat) ==> exists|index: usize| #[trigger]
            is_greatest(index, projection->0@) && result == Err::<(), JoinError>(
                JoinError::ProjectionOutOfBounds { index, fields },
            ),
{
    if let Some(columns) = projection {
        let mut greatest: Option<usize> = None;
        for k in 0..columns.len()
            invariant
                greatest is None <==> k == 0,
                greatest is Some ==> is_greatest(greatest->0, columns@.take(k as int)),
        {
            let ghost before = columns@.take(k as int);
            let column = columns[k];
            let next = match greatest {
                Some(index) => if column > index {
                    column
                } else {
                    index
                },
                None => column,
            };
            proof {
                let taken = columns@.take(k + 1);
                assert(taken[k as int] == column);
                if let Some(index) = greatest {
                    let at = choose|at: int| 0 <= at < before.len() && before[at] == index;
                    assert(taken[at] == index);
                }
                assert forall|d: int| 0 <= d < taken.len() implies (#[trigger] taken[d])
                    <= next by {
                    if d < k {
                        assert(taken[d] == before[d]);
                    }
                }
            }
            greatest = Some(next);
        }
        assert(columns@.take(columns@.len() as int) =~= columns@);
        if let Some(index) = greatest {
            if index >= fields {
                proof {
                    let at = choose|at: int| 0 <= at < columns@.len() && columns@[at] == index;
                    assert(!(projection->0@[at] < fields));
                }
                return Err(JoinError::ProjectionOutOfBounds { index, fields });
            }
        }
    }
    Ok(())
}

/// The columns that are left after a projection.
pub open spec fn projected<T>(all: Seq<T>, projection: Option<Vec<usize>>) -> Seq<T> {
    match projection {
        Some(columns) => Seq::new(columns@.len(), |k: int| all[columns@[k] as int]),
        None => all,
    }
}

/// Returns a schema with the columns that are left after a projection.
pub fn project_schema(schema: &Arc<Schema>, projection: &Option<Vec<usize>>) -> (result: Arc<
    Schema,
>)
    requires
        projects(*projection, schema.fields@.len()),
    ensures
        result.fields@ == projected(schema.fields@, *projection),
{
    match projection {
        Some(columns) => {
            let mut fields: Vec<Field> = Vec::new();
            for k in 0..columns.len()
                invariant
                    projects(*projection, schema.fields@.len()),
                    *projection == Some(*columns),
                    fields@ == projected(schema.fields@, *projection).take(k as int),
            {
                let column = columns[k];
                assert(projection->0@[k as int] == column);
                fields.push(copy_field(&schema.fields[column], false));
                assert(fields@ =~= projected(schema.fields@, *projection).take(k + 1));
            }
            assert(fields@ =~= projected(schema.fields@, *projection));
            Arc::new(Schema { fields })
        },
        None => share(schema),
    }
}

/// Returns the column indices that are left after a projection.
pub fn project_columns(column_indices: &Vec<ColumnIndex>, projection: &Option<Vec<usize>>) -> (
result: Vec<ColumnIndex>)
    requires
        projects(*projection, column_indices@.len()),
    ensures
        result@ == projected(column_indices@, *projection),
{
    let mut result: Vec<ColumnIndex> = Vec::new();
    match projection {
        Some(columns) => {
            for k in 0..columns.len()
                invariant
                    projects(*projection, column_indices@.len()),
                    *projection == Some(*columns),
                    result@ == projected(column_indices@, *projection).take(k as int),
            {
                let column = columns[k];
                assert(projection->0@[k as int] == column);
                result.push(column_indices[column]);
                assert(result@ =~= projected(column_indices@, *projection).take(k + 1));
            }
        },
        None => {
            for k in 0..column_indices.len()
                invariant
                    result@ == column_indices@.take(k as int),
            {
                result.push(column_indices[k]);
                assert(result@ =~= column_indices@.take(k + 1));
            }
        },
    }
    assert(result@ =~= projected(column_indices@, *projection));
    result
}

} // verus!
