//! What planning an as-of join does, told from its inputs and the plan.
use crate::batch::{Field, Schema};
use crate::condition::AsOfJoinCondition;
use crate::error::JoinError;
use crate::exec;
use crate::exec::{AsOfJoinExec, DisplayFormatType, PlanProperties, StatisticsSource};
use crate::expr::{Column, JoinOn, Operator, PhysicalExpr, PhysicalExprRef};
use crate::plan;
use crate::plan::{
    boundedness_from_children, build_join_schema, can_project, check_join_is_valid,
    project_columns, project_schema, Boundedness, Distribution, EmissionType, PlanInput,
    Precision,
};
use crate::stream::AsOfJoinStream;
use crate::text;
use crate::text::{fmt_sql, inequality_sign, join_type_name};
use crate::types::{ColumnIndex, JoinSide, JoinType, NullEquality};
use std::sync::Arc;
use vstd::prelude::*;

verus! {

/// A quantity that is known, exactly or not, has a value, and one that is absent has none.
pub proof fn known_quantities_have_a_value(
    value: usize,
    exact: Option<usize>,
    inexact: Option<usize>,
    absent: Option<usize>,
)
    requires
        call_ensures(Precision::get_value, (&Precision::Exact(value),), exact),
        call_ensures(Precision::get_value, (&Precision::Inexact(value),), inexact),
        call_ensures(Precision::get_value, (&Precision::Absent,), absent),
    ensures
        exact == Some(value),
        inexact == Some(value),
        absent is None,
{
}

/// What a shared expression is.
spec fn of(shared: PhysicalExprRef) -> PhysicalExpr {
    *shared
}

/// Whether an expression refers to a column.
pub open spec fn refers_to(expr: PhysicalExpr, column: Column) -> bool
    decreases expr,
{
    match expr {
        PhysicalExpr::Column(own) => own == column,
        PhysicalExpr::Literal { .. } => false,
        PhysicalExpr::Binary { left, right, .. } => refers_to(*left, column) || refers_to(
            *right,
            column,
        ),
        PhysicalExpr::Other { columns, .. } => columns@.contains(column),
    }
}

/// Whether a schema has a column under its name where the column says.
pub open spec fn is_at_its_place(schema: Schema, column: Column) -> bool {
    column.index < schema.fields@.len() && schema.fields@[column.index as int].name@
        == column.name@
}

/// Whether a schema has every column that an expression refers to.
pub open spec fn offers_all(schema: Schema, expr: PhysicalExpr) -> bool {
    forall|column: Column| #[trigger] refers_to(expr, column) ==> is_at_its_place(schema, column)
}

/// A schema has the columns of an expression exactly where it has every one that the
/// expression refers to.
proof fn offered_columns(schema: Schema, expr: PhysicalExpr)
    ensures
        plan::has_columns_of(schema, expr) <==> offers_all(schema, expr),
    decreases expr,
{
    match expr {
        PhysicalExpr::Column(own) => {
            assert(refers_to(expr, own));
            assert forall|column: Column| #[trigger] refers_to(expr, column) implies column
                == own by {}
            assert(plan::has_columns_of(schema, expr) == is_at_its_place(schema, own));
        },
        PhysicalExpr::Literal { .. } => {
            assert forall|column: Column| !#[trigger] refers_to(expr, column) by {}
        },
        PhysicalExpr::Binary { left, right, .. } => {
            offered_columns(schema, of(left));
            offered_columns(schema, of(right));
            if offers_all(schema, of(left)) && offers_all(schema, of(right)) {
                assert forall|column: Column| #[trigger]
                    refers_to(expr, column) implies is_at_its_place(schema, column) by {
                    assert(refers_to(*left, column) || refers_to(*right, column));
                }
            }
            if offers_all(schema, expr) {
                assert forall|column: Column| #[trigger]
                    refers_to(*left, column) implies is_at_its_place(schema, column) by {
                    assert(refers_to(expr, column));
                }
                assert forall|column: Column| #[trigger]
                    refers_to(*right, column) implies is_at_its_place(schema, column) by {
                    assert(refers_to(expr, column));
                }
            }
        },
        PhysicalExpr::Other { columns, .. } => {
            if offers_all(schema, expr) {
                assert forall|k: int| 0 <= k < columns@.len() implies plan::has_column(
                    schema,
                    #[trigger] columns@[k],
                ) by {
                    assert(columns@.contains(columns@[k]));
                    assert(refers_to(expr, columns@[k]));
                }
            }
            if plan::has_columns_of(schema, expr) {
                assert forall|column: Column| #[trigger]
                    refers_to(expr, column) implies is_at_its_place(schema, column) by {
                    let k = choose|k: int| 0 <= k < columns@.len() && columns@[k] == column;
                    assert(plan::has_column(schema, columns@[k]));
                }
            }
        },
    }
}

/// Keys are accepted exactly where each input has every column that its side of every key
/// refers to, at its place and under its name.
pub proof fn keys_refer_to_columns_of_their_input(
    left: Schema,
    right: Schema,
    on: JoinOn,
    checked: Result<(), JoinError>,
)
    requires
        call_ensures(check_join_is_valid, (&left, &right, &on), checked),
    ensures
        checked is Ok <==> forall|k: int|
            0 <= k < on@.len() ==> offers_all(left, *(#[trigger] on@[k]).0) && offers_all(
                right,
                *on@[k].1,
            ),
        checked is Err ==> checked->Err_0 == JoinError::MissingJoinColumns,
{
    assert forall|k: int| 0 <= k < on@.len() implies (plan::has_columns_of(
        left,
        *(#[trigger] on@[k]).0,
    ) && plan::has_columns_of(right, *on@[k].1)) == (offers_all(left, *on@[k].0) && offers_all(
        right,
        *on@[k].1,
    )) by {
        offered_columns(left, of(on@[k].0));
        offered_columns(right, of(on@[k].1));
    }
    if checked is Ok {
        assert forall|k: int| 0 <= k < on@.len() implies offers_all(
            left,
            *(#[trigger] on@[k]).0,
        ) && offers_all(right, *on@[k].1) by {
            assert(plan::has_columns_of(left, *on@[k].0));
        }
    }
    if forall|k: int|
        0 <= k < on@.len() ==> offers_all(left, *(#[trigger] on@[k]).0) && offers_all(
            right,
            *on@[k].1,
        ) {
        assert forall|k: int| 0 <= k < on@.len() implies plan::has_columns_of(
            left,
            *(#[trigger] on@[k]).0,
        ) && plan::has_columns_of(right, *on@[k].1) by {
            assert(offers_all(left, *on@[k].0));
        }
    }
}

/// Whether a field is the one of an input at a place of the joined columns, left columns
/// first; the right ones admit nulls where the left rows are all kept.
pub open spec fn is_joined_field(
    field: Field,
    left: Schema,
    right: Schema,
    join_type: JoinType,
    place: int,
) -> bool {
    let width = left.fields@.len() as int;
    if place < width {
        field == left.fields@[place]
    } else {
        let own = right.fields@[place - width];
        &&& field.name == own.name
        &&& field.data_type == own.data_type
        &&& field.nullable == (own.nullable || join_type == JoinType::Left)
    }
}

/// Whether a column index points to a place of the joined columns, left columns first.
pub open spec fn points_to(column: ColumnIndex, left_columns: int, place: int) -> bool {
    if place < left_columns {
        column.side == JoinSide::Left && column.index == place
    } else {
        column.side == JoinSide::Right && column.index == place - left_columns
    }
}

/// A join has the columns of its left input followed by those of its right input.
pub proof fn joined_columns_are_left_then_right(
    left: Schema,
    right: Schema,
    join_type: JoinType,
    joined: (Schema, Vec<ColumnIndex>),
    place: int,
)
    requires
        call_ensures(build_join_schema, (&left, &right, join_type), joined),
        0 <= place < left.fields@.len() + right.fields@.len(),
        left.fields@.len() + right.fields@.len() <= usize::MAX,
    ensures
        joined.0.fields@.len() == left.fields@.len() + right.fields@.len(),
        joined.1@.len() == left.fields@.len() + right.fields@.len(),
        is_joined_field(joined.0.fields@[place], left, right, join_type, place),
        points_to(joined.1@[place], left.fields@.len() as int, place),
{
}

/// A projection is accepted exactly where every column that it asks for exists; otherwise
/// the last of the columns is named that it asks for.
pub proof fn projections_ask_for_existing_columns(
    fields: usize,
    columns: Vec<usize>,
    asked: Result<(), JoinError>,
    unasked: Result<(), JoinError>,
)
    requires
        call_ensures(can_project, (fields, &Some(columns)), asked),
        call_ensures(can_project, (fields, &None), unasked),
    ensures
        unasked == Ok::<(), JoinError>(()),
        asked is Ok <==> forall|k: int|
            0 <= k < columns@.len() ==> (#[trigger] columns@[k]) < fields,
        asked is Err ==> asked->Err_0 is ProjectionOutOfBounds
            && asked->Err_0->ProjectionOutOfBounds_fields == fields && {
            let index = asked->Err_0->ProjectionOutOfBounds_index;
            &&& columns@.contains(index)
            &&& index >= fields
            &&& forall|k: int| 0 <= k < columns@.len() ==> (#[trigger] columns@[k]) <= index
        },
{
    let projection = Some(columns);
    assert(projection->0 == columns);
    if asked is Err {
        let k = choose|k: int| 0 <= k < columns@.len() && !((#[trigger] columns@[k]) < fields);
        assert(!plan::projects(projection, fields as nat));
    }
    if forall|k: int| 0 <= k < columns@.len() ==> (#[trigger] columns@[k]) < fields {
        assert(plan::projects(projection, fields as nat)) by {
            assert forall|k: int| 0 <= k < projection->0@.len() implies (
            #[trigger] projection->0@[k]) < fields by {
                assert(columns@[k] < fields);
            }
        }
    }
    if plan::projects(projection, fields as nat) {
        assert forall|k: int| 0 <= k < columns@.len() implies (#[trigger] columns@[k])
            < fields by {
            assert(projection->0@[k] < fields);
        }
    }
}

/// A projection leaves the columns that it asks for, in the order in which it does; without
/// one, all are left.
pub proof fn projections_leave_what_they_ask_for(
    schema: Arc<Schema>,
    indices: Vec<ColumnIndex>,
    columns: Vec<usize>,
    fields_left: Arc<Schema>,
    indices_left: Vec<ColumnIndex>,
    all_fields: Arc<Schema>,
    all_indices: Vec<ColumnIndex>,
    k: int,
)
    requires
        call_ensures(project_schema, (&schema, &Some(columns)), fields_left),
        call_ensures(project_columns, (&indices, &Some(columns)), indices_left),
        call_ensures(project_schema, (&schema, &None), all_fields),
        call_ensures(project_columns, (&indices, &None), all_indices),
        0 <= k < columns@.len(),
    ensures
        fields_left.fields@.len() == columns@.len(),
        indices_left@.len() == columns@.len(),
        fields_left.fields@[k] == schema.fields@[columns@[k] as int],
        indices_left@[k] == indices@[columns@[k] as int],
        all_fields.fields@ == schema.fields@,
        all_indices@ == indices@,
{
}

/// The place of the joined columns that a column of the output comes from.
pub open spec fn place_of(projection: Option<Vec<usize>>, k: int) -> int {
    match projection {
        Some(columns) => columns@[k] as int,
        None => k,
    }
}

/// How many columns are left after a projection of so many.
pub open spec fn columns_left(projection: Option<Vec<usize>>, fields: nat) -> nat {
    match projection {
        Some(columns) => columns@.len(),
        None => fields,
    }
}

/// Whether a projection asks for columns that a join of two inputs has.
pub open spec fn asks_for_joined_columns(
    projection: Option<Vec<usize>>,
    left: Arc<PlanInput>,
    right: Arc<PlanInput>,
) -> bool {
    projection is Some ==> forall|k: int|
        0 <= k < projection->0@.len() ==> (#[trigger] projection->0@[k])
            < left.schema.fields@.len() + right.schema.fields@.len()
}

/// An as-of join can be planned exactly where it is an inner or left join, its keys refer to
/// columns of their input, and its projection asks for existing columns. It has the parts
/// that it was planned of.
pub proof fn plans_have_their_parts(
    left: Arc<PlanInput>,
    right: Arc<PlanInput>,
    on: JoinOn,
    condition: AsOfJoinCondition,
    join_type: JoinType,
    projection: Option<Vec<usize>>,
    null_equality: NullEquality,
    checked: Result<(), JoinError>,
    made: Result<AsOfJoinExec, JoinError>,
)
    requires
        call_ensures(check_join_is_valid, (&*left.schema, &*right.schema, &on), checked),
        call_ensures(
            AsOfJoinExec::try_new,
            (left, right, on, condition, join_type, projection, null_equality),
            made,
        ),
    ensures
        join_type != JoinType::Inner && join_type != JoinType::Left ==> made == Err::<
            AsOfJoinExec,
            JoinError,
        >(JoinError::UnsupportedJoinType(join_type)),
        (join_type == JoinType::Inner || join_type == JoinType::Left) && checked is Err ==> made
            == Err::<AsOfJoinExec, JoinError>(checked->Err_0),
        (join_type == JoinType::Inner || join_type == JoinType::Left) && checked is Ok ==> (
        made is Ok <==> asks_for_joined_columns(projection, left, right)),
        made is Ok ==> {
            let join = made->Ok_0;
            &&& join.left == left && join.right == right
            &&& join.on@ == on@ && join.asof_condition == condition
            &&& join.join_type == join_type && join.null_equality == null_equality
            &&& join.projection is Some <==> projection is Some
            &&& projection is Some ==> join.projection->0@ == projection->0@
        },
{
}

/// A planned join has, after its projection, the columns of its left input followed by those
/// of its right input, and emits them when all input has been read.
pub proof fn planned_columns_come_from_the_inputs(
    left: Arc<PlanInput>,
    right: Arc<PlanInput>,
    on: JoinOn,
    condition: AsOfJoinCondition,
    join_type: JoinType,
    projection: Option<Vec<usize>>,
    null_equality: NullEquality,
    join: AsOfJoinExec,
    together: Boundedness,
    k: int,
)
    requires
        call_ensures(
            AsOfJoinExec::try_new,
            (left, right, on, condition, join_type, projection, null_equality),
            Ok::<AsOfJoinExec, JoinError>(join),
        ),
        call_ensures(
            boundedness_from_children,
            (left.boundedness, right.boundedness),
            together,
        ),
        left.schema.fields@.len() + right.schema.fields@.len() <= usize::MAX,
        0 <= k < join.properties.schema.fields@.len(),
    ensures
        join.properties.schema.fields@.len() == columns_left(
            projection,
            left.schema.fields@.len() + right.schema.fields@.len(),
        ),
        is_joined_field(
            join.properties.schema.fields@[k],
            *left.schema,
            *right.schema,
            join_type,
            place_of(projection, k),
        ),
        join.properties.emission_type == EmissionType::Final,
        join.properties.boundedness == together,
        on@.len() == 0 ==> join.properties.partitions == 1,
        on@.len() > 0 && left.partitions == right.partitions && left.partitions > 0
            ==> join.properties.partitions == left.partitions,
        on@.len() > 0 && left.partitions != right.partitions ==> join.properties.partitions == 1,
{
    if projection is Some {
        assert(projection->0@[k] < exec::joined_width(left, right));
    }
}

/// A join with equality keys asks for inputs that are hash-partitioned on them, each side on
/// its own operands, in order; one without asks for single partitions.
pub proof fn keyed_joins_are_hash_partitioned(
    join: AsOfJoinExec,
    distributions: Vec<Distribution>,
    k: int,
)
    requires
        call_ensures(AsOfJoinExec::required_input_distribution, (&join,), distributions),
    ensures
        distributions@.len() == 2,
        join.on@.len() == 0 ==> distributions@[0] == Distribution::SinglePartition
            && distributions@[1] == Distribution::SinglePartition,
        0 <= k < join.on@.len() ==> {
            &&& distributions@[0] is HashPartitioned && distributions@[1] is HashPartitioned
            &&& distributions@[0]->HashPartitioned_0@.len() == join.on@.len()
            &&& distributions@[1]->HashPartitioned_0@.len() == join.on@.len()
            &&& distributions@[0]->HashPartitioned_0@[k] == join.on@[k].0
            &&& distributions@[1]->HashPartitioned_0@[k] == join.on@[k].1
        },
{
}

/// A planned join runs exactly the partitions that it has. What it runs are its own keys,
/// condition, type and null equality, on the columns of its inputs, into the columns of its
/// output.
pub proof fn executed_joins_run_the_plan(
    join: AsOfJoinExec,
    partition: usize,
    batch_size: usize,
    started: Result<AsOfJoinStream, JoinError>,
    k: int,
)
    requires
        join.wf(),
        join.left.schema.fields@.len() + join.right.schema.fields@.len() <= usize::MAX,
        call_ensures(AsOfJoinExec::execute, (&join, partition, batch_size), started),
        0 <= k < join.properties.schema.fields@.len(),
    ensures
        started is Ok <==> partition < join.properties.partitions,
        started is Err ==> started->Err_0 == JoinError::InvalidPartition(partition),
        started is Ok ==> {
            let stream = started->Ok_0;
            let task = stream.state->task;
            &&& stream.batch_size == batch_size
            &&& stream.schema == join.properties.schema
            &&& stream.state is Loading && stream.state->left is None
            &&& task.left_schema == join.left.schema && task.right_schema == join.right.schema
            &&& task.schema == join.properties.schema
            &&& task.on@ == join.on@ && task.asof_condition == join.asof_condition
            &&& task.join_type == join.join_type && task.null_equality == join.null_equality
            &&& task.column_indices@.len() == join.properties.schema.fields@.len()
            &&& points_to(
                task.column_indices@[k],
                join.left.schema.fields@.len() as int,
                place_of(join.projection, k),
            )
        },
{
    if join.projection is Some {
        assert(join.projection->0@[k] < exec::joined_width(join.left, join.right));
    }
}

/// A projection of a join leaves the columns of the join's output that it asks for, in the
/// order in which it does, and changes nothing else; asking for none of the columns by a
/// projection that is absent restores them all.
pub proof fn projected_joins_leave_what_is_asked_for(
    join: AsOfJoinExec,
    columns: Vec<usize>,
    projected: Result<AsOfJoinExec, JoinError>,
    restored: Result<AsOfJoinExec, JoinError>,
    k: int,
)
    requires
        join.wf(),
        call_ensures(AsOfJoinExec::with_projection, (&join, Some(columns)), projected),
        call_ensures(AsOfJoinExec::with_projection, (&join, None), restored),
        0 <= k < columns@.len(),
    ensures
        projected is Ok <==> forall|i: int|
            0 <= i < columns@.len() ==> (#[trigger] columns@[i])
                < join.properties.schema.fields@.len(),
        projected is Ok ==> {
            let after = projected->Ok_0;
            &&& after.properties.schema.fields@.len() == columns@.len()
            &&& after.properties.schema.fields@[k]
                == join.properties.schema.fields@[columns@[k] as int]
            &&& after.left == join.left && after.right == join.right
            &&& after.on@ == join.on@ && after.asof_condition == join.asof_condition
            &&& after.join_type == join.join_type && after.null_equality == join.null_equality
        },
        restored is Ok && restored->Ok_0.projection is None
            && restored->Ok_0.properties.schema.fields@.len() == join.left.schema.fields@.len()
            + join.right.schema.fields@.len(),
{
    let asked = Some(columns);
    assert(asked->0 == columns);
    if forall|i: int|
        0 <= i < columns@.len() ==> (#[trigger] columns@[i]) < join.properties.schema.fields@.len() {
        assert(plan::projects(asked, join.properties.schema.fields@.len())) by {
            assert forall|i: int| 0 <= i < asked->0@.len() implies (#[trigger] asked->0@[i])
                < join.properties.schema.fields@.len() by {
                assert(columns@[i] < join.properties.schema.fields@.len());
            }
        }
    }
    if projected is Ok {
        assert(plan::projects(asked, join.properties.schema.fields@.len()));
        assert forall|i: int| 0 <= i < columns@.len() implies (#[trigger] columns@[i])
            < join.properties.schema.fields@.len() by {
            assert(asked->0@[i] < join.properties.schema.fields@.len());
        }
        let after = projected->Ok_0;
        assert(columns@[k] < join.properties.schema.fields@.len());
        assert(after.projection->0@ == exec::composed(join.projection, columns@));
        assert(after.join_schema.fields@ == join.join_schema.fields@);
    }
}

/// A projection is taken into a join exactly where the join has none and one is asked for.
pub proof fn projections_are_embedded_once(
    join: AsOfJoinExec,
    columns: Option<Vec<usize>>,
    embedded: Result<Option<AsOfJoinExec>, JoinError>,
)
    requires
        join.wf(),
        call_ensures(AsOfJoinExec::try_swapping_with_projection, (&join, columns), embedded),
    ensures
        embedded == Ok::<Option<AsOfJoinExec>, JoinError>(None) <==> join.projection is Some
            || columns is None,
        embedded is Ok && embedded->Ok_0 is Some ==> {
            let after = embedded->Ok_0->0;
            &&& after.projection is Some && after.projection->0@ == columns->0@
            &&& after.left == join.left && after.right == join.right
            &&& after.on@ == join.on@ && after.asof_condition == join.asof_condition
            &&& after.join_type == join.join_type && after.null_equality == join.null_equality
        },
{
}

/// A join of other inputs is planned as it was, of these inputs, the first one left; and the
/// inputs of a join are its left and its right one.
pub proof fn inputs_can_be_replaced(
    join: AsOfJoinExec,
    inputs: Vec<Arc<PlanInput>>,
    children: Vec<Arc<PlanInput>>,
    made: Result<AsOfJoinExec, JoinError>,
)
    requires
        inputs@.len() >= 2,
        call_ensures(AsOfJoinExec::children, (&join,), children),
        call_ensures(AsOfJoinExec::with_new_children, (&join, inputs), made),
    ensures
        children@.len() == 2 && children@[0] == join.left && children@[1] == join.right,
        made is Ok ==> {
            let after = made->Ok_0;
            &&& after.left == inputs@[0] && after.right == inputs@[1]
            &&& after.on@ == join.on@ && after.asof_condition == join.asof_condition
            &&& after.join_type == join.join_type && after.null_equality == join.null_equality
            &&& after.projection is Some <==> join.projection is Some
            &&& join.projection is Some ==> after.projection->0@ == join.projection->0@
        },
        made is Err && (join.join_type == JoinType::Inner || join.join_type == JoinType::Left) ==> (
        made->Err_0 == JoinError::MissingJoinColumns || made->Err_0 is ProjectionOutOfBounds),
{
}

/// The statistics of a join are made of those of its inputs; those that cannot be had are
/// reported, the left input's first. Of a single partition nothing is known.
pub proof fn statistics_come_from_the_inputs(
    join: AsOfJoinExec,
    partition: usize,
    of_partition: Result<StatisticsSource, JoinError>,
    of_all: Result<StatisticsSource, JoinError>,
)
    requires
        call_ensures(AsOfJoinExec::partition_statistics, (&join, Some(partition)), of_partition),
        call_ensures(AsOfJoinExec::partition_statistics, (&join, None), of_all),
    ensures
        of_partition == Ok::<StatisticsSource, JoinError>(StatisticsSource::Unknown),
        of_all is Ok <==> join.left.statistics is Ok && join.right.statistics is Ok,
        of_all is Ok ==> of_all->Ok_0 == (StatisticsSource::Inputs {
            left: join.left.statistics->Ok_0,
            right: join.right.statistics->Ok_0,
        }),
        join.left.statistics is Err ==> of_all->Err_0 == JoinError::Statistics(
            join.left.statistics->Err_0,
        ),
        join.left.statistics is Ok && join.right.statistics is Err ==> of_all->Err_0
            == JoinError::Statistics(join.right.statistics->Err_0),
{
}

/// A join keeps the order of neither input, and knows its own parts.
pub proof fn joins_know_their_parts(
    join: AsOfJoinExec,
    ordered: Vec<bool>,
    left: Arc<PlanInput>,
    right: Arc<PlanInput>,
    null_equality: NullEquality,
    projects: bool,
    schema: Arc<Schema>,
    on: JoinOn,
    condition: AsOfJoinCondition,
    join_type: JoinType,
    properties: PlanProperties,
    name: &'static str,
)
    requires
        call_ensures(AsOfJoinExec::on, (&join,), &on),
        call_ensures(AsOfJoinExec::asof_condition, (&join,), &condition),
        call_ensures(AsOfJoinExec::join_type, (&join,), &join_type),
        call_ensures(AsOfJoinExec::properties, (&join,), &properties),
        call_ensures(AsOfJoinExec::name, (&join,), name),
        call_ensures(AsOfJoinExec::maintains_input_order, (&join,), ordered),
        call_ensures(AsOfJoinExec::left, (&join,), &left),
        call_ensures(AsOfJoinExec::right, (&join,), &right),
        call_ensures(AsOfJoinExec::null_equality, (&join,), null_equality),
        call_ensures(AsOfJoinExec::contains_projection, (&join,), projects),
        call_ensures(AsOfJoinExec::schema, (&join,), schema),
    ensures
        ordered@.len() == 2 && !ordered@[0] && !ordered@[1],
        left == join.left,
        right == join.right,
        null_equality == join.null_equality,
        projects <==> join.projection is Some,
        schema == join.properties.schema,
        on == join.on,
        condition == join.asof_condition,
        join_type == join.join_type,
        properties == join.properties,
        name@ == "AsOfJoinExec"@,
{
}

/// An input may never end exactly where it is not said to end.
pub proof fn unbounded_inputs_are_not_bounded(boundedness: Boundedness, unbounded: bool)
    requires
        call_ensures(Boundedness::is_unbounded, (&boundedness,), unbounded),
    ensures
        unbounded <==> boundedness != Boundedness::Bounded,
{
}

/// A join type is displayed by its name.
pub proof fn types_are_displayed_by_their_name(join_type: JoinType, shown: &'static str)
    requires
        call_ensures(join_type_name, (join_type,), shown),
    ensures
        join_type == JoinType::Inner ==> shown@ == "Inner"@,
        join_type == JoinType::Left ==> shown@ == "Left"@,
        join_type == JoinType::Right ==> shown@ == "Right"@,
        join_type == JoinType::Full ==> shown@ == "Full"@,
        join_type == JoinType::LeftSemi ==> shown@ == "LeftSemi"@,
        join_type == JoinType::RightSemi ==> shown@ == "RightSemi"@,
        join_type == JoinType::LeftAnti ==> shown@ == "LeftAnti"@,
        join_type == JoinType::RightAnti ==> shown@ == "RightAnti"@,
        join_type == JoinType::LeftMark ==> shown@ == "LeftMark"@,
        join_type == JoinType::RightMark ==> shown@ == "RightMark"@,
{
}

/// The number that a text of decimal digits stands for.
pub open spec fn number_of(digits: Seq<char>) -> int
    decreases digits.len(),
{
    if digits.len() == 0 {
        0
    } else {
        number_of(digits.drop_last()) * 10 + (digits.last() as int - '0' as int)
    }
}

/// The decimal digits of a number stand for it, and do not start with a zero unless the
/// number is zero.
pub proof fn decimal_digits_stand_for_their_number(n: nat)
    ensures
        number_of(text::decimal(n)) == n,
        text::decimal(n).len() > 0,
        n > 0 ==> text::decimal(n)[0] != '0',
        forall|k: int|
            0 <= k < text::decimal(n).len() ==> '0' <= #[trigger] text::decimal(n)[k] <= '9',
    decreases n,
{
    let digits = text::decimal(n);
    if n < 10 {
        assert(digits.drop_last() =~= Seq::empty());
        assert(digits.last() == text::digit(n));
        reveal_with_fuel(number_of, 2);
    } else {
        decimal_digits_stand_for_their_number(n / 10);
        let rest = text::decimal(n / 10);
        assert(digits == rest.push(text::digit(n % 10)));
        assert(digits.drop_last() =~= rest);
        assert(digits.last() == text::digit(n % 10));
        assert(digits[0] == rest[0]);
        assert forall|k: int| 0 <= k < digits.len() implies '0' <= #[trigger] digits[k] <= '9' by {
            if k < rest.len() {
                assert(digits[k] == rest[k]);
            }
        }
    }
}

/// Texts are written one after the other, with a separator before each but the first.
pub proof fn texts_are_separated(texts: Seq<Seq<char>>, last: Seq<char>, separator: Seq<char>)
    ensures
        text::separated(Seq::empty(), separator) == Seq::<char>::empty(),
        text::separated(texts.push(last), separator) == if texts.len() == 0 {
            last
        } else {
            text::separated(texts, separator) + separator + last
        },
{
    assert(texts.push(last).drop_last() =~= texts);
    assert(texts.push(last).last() == last);
}

/// The sign of a condition is the operator that it was made of.
pub proof fn signs_are_the_operators(
    left: PhysicalExprRef,
    op: Operator,
    right: PhysicalExprRef,
    condition: AsOfJoinCondition,
    sign: &'static str,
)
    requires
        call_ensures(
            AsOfJoinCondition::try_new,
            (left, op, right),
            Ok::<AsOfJoinCondition, JoinError>(condition),
        ),
        call_ensures(inequality_sign, (condition.direction, condition.strict), sign),
    ensures
        op == Operator::Lt ==> sign@ == "<"@,
        op == Operator::LtEq ==> sign@ == "<="@,
        op == Operator::Gt ==> sign@ == ">"@,
        op == Operator::GtEq ==> sign@ == ">="@,
{
}

/// A join is displayed with its type, its keys, its condition and its projection.
pub proof fn joins_are_displayed_with_their_parts(
    join: AsOfJoinExec,
    key: (PhysicalExprRef, PhysicalExprRef),
    keys_before: Seq<(PhysicalExprRef, PhysicalExprRef)>,
    kind: &'static str,
    sign: &'static str,
    left: &str,
    right: &str,
    key_left: &str,
    key_right: &str,
    by_default: String,
    verbose: String,
    rendered: String,
)
    requires
        join.wf(),
        call_ensures(join_type_name, (join.join_type,), kind),
        call_ensures(
            inequality_sign,
            (join.asof_condition.direction, join.asof_condition.strict),
            sign,
        ),
        call_ensures(fmt_sql, (&*join.asof_condition.left,), left),
        call_ensures(fmt_sql, (&*join.asof_condition.right,), right),
        call_ensures(fmt_sql, (&*key.0,), key_left),
        call_ensures(fmt_sql, (&*key.1,), key_right),
        call_ensures(AsOfJoinExec::fmt_as, (&join, DisplayFormatType::Default), by_default),
        call_ensures(AsOfJoinExec::fmt_as, (&join, DisplayFormatType::Verbose), verbose),
        call_ensures(AsOfJoinExec::fmt_as, (&join, DisplayFormatType::TreeRender), rendered),
    ensures
        by_default@ == verbose@,
        verbose@ == "AsOfJoinExec: join_type="@ + kind@ + ", on=["@ + text::on_text(join.on@)
            + "], asof="@ + left@ + " "@ + sign@ + " "@ + right@ + join.projection_text(),
        text::on_text(keys_before.push(key)) == if keys_before.len() == 0 {
            "("@ + key_left@ + ", "@ + key_right@ + ")"@
        } else {
            text::on_text(keys_before) + ", "@ + ("("@ + key_left@ + ", "@ + key_right@ + ")"@)
        },
        text::on_text(Seq::empty()) == Seq::<char>::empty(),
        join.projection is None ==> join.projection_text() == Seq::<char>::empty(),
        join.join_type == JoinType::Inner ==> rendered@ == Seq::<char>::empty(),
        join.join_type != JoinType::Inner ==> rendered@ == "join_type="@ + kind@ + "\n"@,
{
    let pairs = |on: Seq<(PhysicalExprRef, PhysicalExprRef)>|
        Seq::new(on.len(), |k: int| text::pair_text(on[k]));
    assert(pairs(keys_before.push(key)) =~= pairs(keys_before).push(text::pair_text(key)));
    assert(pairs(Seq::empty()) =~= Seq::empty());
    texts_are_separated(pairs(keys_before), text::pair_text(key), ", "@);
    texts_are_separated(Seq::empty(), text::pair_text(key), ", "@);
    assert(verbose@ =~= "AsOfJoinExec: join_type="@ + kind@ + ", on=["@ + text::on_text(
        join.on@,
    ) + "], asof="@ + left@ + " "@ + sign@ + " "@ + right@ + join.projection_text());
}

/// A projection is displayed by the names and the places of the columns that it asks for,
/// one after the other.
pub proof fn projections_are_displayed_by_name_and_place(
    join: AsOfJoinExec,
    columns: Vec<usize>,
    texts: Seq<Seq<char>>,
)
    requires
        join.projection == Some(columns),
        texts.len() == columns@.len(),
        forall|k: int|
            0 <= k < columns@.len() ==> #[trigger] texts[k] == join.join_schema.fields@[
                columns@[k] as int
            ].name@ + "@"@ + text::decimal(columns@[k] as nat),
    ensures
        join.projection_text() == ", projection=["@ + text::separated(texts, ", "@) + "]"@,
{
    let own = Seq::new(
        columns@.len(),
        |k: int|
            join.join_schema.fields@[columns@[k] as int].name@ + "@"@ + text::decimal(
                columns@[k] as nat,
            ),
    );
    assert(own =~= texts);
}

/// An expression is displayed by its own text, a column by its name.
pub proof fn expressions_are_displayed_by_their_text(expr: PhysicalExpr, shown: &str)
    requires
        call_ensures(fmt_sql, (&expr,), shown),
    ensures
        shown@ == match expr {
            PhysicalExpr::Column(column) => column.name@,
            PhysicalExpr::Literal { sql, .. } => sql@,
            PhysicalExpr::Binary { sql, .. } => sql@,
            PhysicalExpr::Other { sql, .. } => sql@,
        },
{
}

} // verus!
