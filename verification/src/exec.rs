//! The plan of an as-of join.
use crate::batch::Schema;
use crate::condition::AsOfJoinCondition;
use crate::error::JoinError;
use crate::expr::{JoinOn, PhysicalExprRef};
use crate::plan;
use crate::plan::{
    boundedness_from_children, build_join_schema, can_project, check_join_is_valid,
    project_columns, project_schema, Boundedness, Distribution, EmissionType, PlanInput,
    Statistics,
};
use crate::shared::share;
use crate::stream::{AsOfJoinStream, JoinTask};
use crate::text;
use crate::text::{append_decimal, append_on, fmt_sql, inequality_sign, join_type_name};
use crate::types::{ColumnIndex, JoinSide, JoinType, NullEquality};
use std::sync::Arc;
use vstd::prelude::*;

verus! {

/// What is known of the output of a plan.
#[derive(Debug, Clone, PartialEq, Eq)]
pub struct PlanProperties {
    /// The columns.
    pub schema: Arc<Schema>,
    /// How many partitions there are.
    pub partitions: usize,
    /// When results are emitted.
    pub emission_type: EmissionType,
    /// Whether the output ends.
    pub boundedness: Boundedness,
}

/// How a plan is displayed.
#[derive(Debug, Clone, Copy, PartialEq, Eq, Structural)]
pub enum DisplayFormatType {
    Default,
    Verbose,
    TreeRender,
}

/// What the statistics of a join are made from.
#[derive(Debug, Clone, Copy, PartialEq, Eq, Structural)]
pub enum StatisticsSource {
    /// Nothing is known.
    Unknown,
    /// They are estimated from those of both inputs.
    Inputs {
        left: Statistics,
        right: Statistics,
    },
}

/// Join execution plan that partitions rows by equality keys and emits at most one
/// nearest right-side row for each left-side row that satisfies the as-of
/// inequality.
///
/// The join is a bounded, in-memory operator. Where there are equality keys it requests
/// both inputs hash-partitioned on them, so that rows with equal keys share a partition,
/// and joins each partition by itself; without any it requests single-partition inputs.
/// In a partition it collects both sides, sorts them by equality keys and the as-of key,
/// then does a linear merge inside each run of equal equality keys.
#[derive(Debug, Clone, PartialEq, Eq)]
pub struct AsOfJoinExec {
    /// Left input.
    pub left: Arc<PlanInput>,
    /// Right input.
    pub right: Arc<PlanInput>,
    /// Equality predicates used as partition keys.
    pub on: JoinOn,
    /// Inequality predicate used as the as-of key.
    pub asof_condition: AsOfJoinCondition,
    /// How the join is performed.
    pub join_type: JoinType,
    /// Unprojected join schema.
    pub join_schema: Arc<Schema>,
    /// Where the columns of the unprojected output come from.
    pub column_indices: Vec<ColumnIndex>,
    /// Projection to apply to the output of the join.
    pub projection: Option<Vec<usize>>,
    /// Null equality for the equality partition keys.
    pub null_equality: NullEquality,
    /// What is known of the output.
    pub properties: PlanProperties,
}

/// How many columns a join of two inputs has before any projection.
pub open spec fn joined_width(left: Arc<PlanInput>, right: Arc<PlanInput>) -> nat {
    left.schema.fields@.len() + right.schema.fields@.len()
}

/// How many partitions a join has: with equality keys as many as its inputs, where those
/// are spread alike, and else one.
pub open spec fn joint_partitions(keys: nat, left: usize, right: usize) -> usize {
    if keys > 0 && left == right && left > 0 {
        left
    } else {
        1
    }
}

/// Two projections, the second applied to what the first leaves.
pub open spec fn composed(first: Option<Vec<usize>>, second: Seq<usize>) -> Seq<usize> {
    match first {
        Some(columns) => Seq::new(second.len(), |k: int| columns@[second[k] as int]),
        None => second,
    }
}

/// The left sides of equality keys.
pub open spec fn left_exprs(on: Seq<(PhysicalExprRef, PhysicalExprRef)>) -> Seq<PhysicalExprRef> {
    Seq::new(on.len(), |k: int| on[k].0)
}

/// The right sides of equality keys.
pub open spec fn right_exprs(on: Seq<(PhysicalExprRef, PhysicalExprRef)>) -> Seq<PhysicalExprRef> {
    Seq::new(on.len(), |k: int| on[k].1)
}

/// Returns a copy of equality keys.
pub(crate) fn copy_on(on: &JoinOn) -> (copy: JoinOn)
    ensures
        copy@ == on@,
{
    let mut copy: JoinOn = Vec::new();
    for k in 0..on.len()
        invariant
            copy@ == on@.take(k as int),
    {
        let pair = &on[k];
        copy.push((share(&pair.0), share(&pair.1)));
        assert(copy@ =~= on@.take(k + 1));
    }
    assert(copy@ =~= on@);
    copy
}

/// Whether two projections are the same.
pub open spec fn same_projection(a: Option<Vec<usize>>, b: Option<Vec<usize>>) -> bool {
    match (a, b) {
        (Some(x), Some(y)) => x@ == y@,
        (None, None) => true,
        _ => false,
    }
}

/// Returns a copy of a projection.
pub(crate) fn copy_projection(projection: &Option<Vec<usize>>) -> (copy: Option<Vec<usize>>)
    ensures
        same_projection(copy, *projection),
{
    match projection {
        Some(columns) => {
            let mut copy: Vec<usize> = Vec::new();
            for k in 0..columns.len()
                invariant
                    copy@ == columns@.take(k as int),
            {
                copy.push(columns[k]);
                assert(copy@ =~= columns@.take(k + 1));
            }
            assert(copy@ =~= columns@);
            Some(copy)
        },
        None => None,
    }
}

/// Whether a join is made of the given parts.
pub open spec fn is_join_of(
    join: AsOfJoinExec,
    left: Arc<PlanInput>,
    right: Arc<PlanInput>,
    on: Seq<(PhysicalExprRef, PhysicalExprRef)>,
    asof_condition: AsOfJoinCondition,
    join_type: JoinType,
    null_equality: NullEquality,
) -> bool {
    &&& join.wf()
    &&& join.left == left
    &&& join.right == right
    &&& join.on@ == on
    &&& join.asof_condition == asof_condition
    &&& join.join_type == join_type
    &&& join.null_equality == null_equality
}

/// Why no as-of join can be made of the given parts, leaving the projection aside.
pub open spec fn plan_refusal(
    left: Arc<PlanInput>,
    right: Arc<PlanInput>,
    on: Seq<(PhysicalExprRef, PhysicalExprRef)>,
    join_type: JoinType,
) -> Option<JoinError> {
    if join_type != JoinType::Inner && join_type != JoinType::Left {
        Some(JoinError::UnsupportedJoinType(join_type))
    } else if !plan::join_is_valid(*left.schema, *right.schema, on) {
        Some(JoinError::MissingJoinColumns)
    } else {
        None
    }
}

/// Whether an error says that a projection asks for a column past the last one.
pub open spec fn is_projection_error(
    error: JoinError,
    projection: Option<Vec<usize>>,
    fields: nat,
) -> bool {
    &&& error is ProjectionOutOfBounds
    &&& error->ProjectionOutOfBounds_fields == fields
    &&& projection is Some
    &&& plan::is_greatest(error->ProjectionOutOfBounds_index, projection->0@)
}

/// What making an as-of join of the given parts returns: an error for an
/// unsupported join type, for equality keys that refer to missing columns, for a
/// projection of missing columns, in this order; otherwise the join.
pub open spec fn makes_join(
    result: Result<AsOfJoinExec, JoinError>,
    left: Arc<PlanInput>,
    right: Arc<PlanInput>,
    on: Seq<(PhysicalExprRef, PhysicalExprRef)>,
    asof_condition: AsOfJoinCondition,
    join_type: JoinType,
    projection: Option<Vec<usize>>,
    null_equality: NullEquality,
) -> bool {
    match plan_refusal(left, right, on, join_type) {
        Some(error) => result == Err::<AsOfJoinExec, JoinError>(error),
        None => if plan::projects(projection, joined_width(left, right)) {
            &&& result is Ok
            &&& is_join_of(
                result->Ok_0,
                left,
                right,
                on,
                asof_condition,
                join_type,
                null_equality,
            )
            &&& same_projection(result->Ok_0.projection, projection)
        } else {
            result is Err && is_projection_error(
                result->Err_0,
                projection,
                joined_width(left, right),
            )
        },
    }
}

impl AsOfJoinExec {
    /// Whether everything that is derived from the inputs agrees with them.
    pub open spec fn wf(&self) -> bool {
        &&& plan_refusal(self.left, self.right, self.on@, self.join_type) is None
        &&& self.join_schema.fields@ == plan::joined_fields(
            *self.left.schema,
            *self.right.schema,
            self.join_type,
        )
        &&& self.column_indices@ == plan::joined_columns(
            self.left.schema.fields@.len(),
            self.right.schema.fields@.len(),
        )
        &&& plan::projects(self.projection, joined_width(self.left, self.right))
        &&& self.properties.schema.fields@ == plan::projected(
            self.join_schema.fields@,
            self.projection,
        )
        &&& self.properties.partitions == joint_partitions(
            self.on@.len(),
            self.left.partitions,
            self.right.partitions,
        )
        &&& self.properties.emission_type == EmissionType::Final
        &&& self.properties.boundedness == plan::joint_boundedness(
            self.left.boundedness,
            self.right.boundedness,
        )
    }

    /// Tries to create a new as-of join.
    pub fn try_new(
        left: Arc<PlanInput>,
        right: Arc<PlanInput>,
        on: JoinOn,
        asof_condition: AsOfJoinCondition,
        join_type: JoinType,
        projection: Option<Vec<usize>>,
        null_equality: NullEquality,
    ) -> (result: Result<AsOfJoinExec, JoinError>)
        ensures
            makes_join(
                result,
                left,
                right,
                on@,
                asof_condition,
                join_type,
                projection,
                null_equality,
            ),
    {
        match join_type {
            JoinType::Inner | JoinType::Left => {},
            _ => return Err(JoinError::UnsupportedJoinType(join_type)),
        }
        match check_join_is_valid(&left.schema, &right.schema, &on) {
            Ok(()) => {},
            Err(error) => return Err(error),
        }
        let (join_schema, column_indices) = build_join_schema(
            &left.schema,
            &right.schema,
            join_type,
        );
        let join_schema = Arc::new(join_schema);
        match can_project(join_schema.fields.len(), &projection) {
            Ok(()) => {},
            Err(error) => return Err(error),
        }
        let properties = Self::compute_properties(&left, &right, &join_schema, &on, &projection);
        Ok(
            AsOfJoinExec {
                left,
                right,
                on,
                asof_condition,
                join_type,
                join_schema,
                column_indices,
                projection,
                null_equality,
                properties,
            },
        )
    }

    /// Returns what is known of the output: it is emitted after all input has been read,
    /// in as many partitions as both inputs have, or in one.
    fn compute_properties(
        left: &Arc<PlanInput>,
        right: &Arc<PlanInput>,
        schema: &Arc<Schema>,
        on: &JoinOn,
        projection: &Option<Vec<usize>>,
    ) -> (properties: PlanProperties)
        requires
            plan::projects(*projection, schema.fields@.len()),
        ensures
            properties.schema.fields@ == plan::projected(schema.fields@, *projection),
            properties.partitions == joint_partitions(
                on@.len(),
                left.partitions,
                right.partitions,
            ),
            properties.emission_type == EmissionType::Final,
            properties.boundedness == plan::joint_boundedness(
                left.boundedness,
                right.boundedness,
            ),
    {
        let partitions: usize = if on.len() > 0 && left.partitions == right.partitions
            && left.partitions > 0 {
            left.partitions
        } else {
            1
        };
        PlanProperties {
            schema: project_schema(schema, projection),
            partitions,
            emission_type: EmissionType::Final,
            boundedness: boundedness_from_children(left.boundedness, right.boundedness),
        }
    }

    /// Returns the left input.
    pub fn left(&self) -> (left: &Arc<PlanInput>)
        ensures
            *left == self.left,
    {
        &self.left
    }

    /// Returns the right input.
    pub fn right(&self) -> (right: &Arc<PlanInput>)
        ensures
            *right == self.right,
    {
        &self.right
    }

    /// Returns the equality predicates used as partition keys.
    pub fn on(&self) -> (on: &JoinOn)
        ensures
            *on == self.on,
    {
        &self.on
    }

    /// Returns the inequality predicate used as the as-of key.
    pub fn asof_condition(&self) -> (asof_condition: &AsOfJoinCondition)
        ensures
            *asof_condition == self.asof_condition,
    {
        &self.asof_condition
    }

    /// Returns how the join is performed.
    pub fn join_type(&self) -> (join_type: &JoinType)
        ensures
            *join_type == self.join_type,
    {
        &self.join_type
    }

    /// Returns the null equality for equality partition keys.
    pub fn null_equality(&self) -> (null_equality: NullEquality)
        ensures
            null_equality == self.null_equality,
    {
        self.null_equality
    }

    /// Returns whether the join contains a projection.
    pub fn contains_projection(&self) -> (contains: bool)
        ensures
            contains == (self.projection is Some),
    {
        self.projection.is_some()
    }

    /// Returns the columns of the output, after the projection.
    pub fn schema(&self) -> (schema: Arc<Schema>)
        ensures
            schema == self.properties.schema,
    {
        share(&self.properties.schema)
    }

    /// Returns a new as-of join with the given projection, applied to the output of
    /// this join; without one, the new join has none either.
    pub fn with_projection(&self, projection: Option<Vec<usize>>) -> (result: Result<
        AsOfJoinExec,
        JoinError,
    >)
        requires
            self.wf(),
        ensures
            plan::projects(projection, self.properties.schema.fields@.len()) ==> {
                &&& result is Ok
                &&& is_join_of(
                    result->Ok_0,
                    self.left,
                    self.right,
                    self.on@,
                    self.asof_condition,
                    self.join_type,
                    self.null_equality,
                )
                &&& match projection {
                    Some(columns) => result->Ok_0.projection is Some
                        && result->Ok_0.projection->0@ == composed(self.projection, columns@),
                    None => result->Ok_0.projection is None,
                }
            },
            !plan::projects(projection, self.properties.schema.fields@.len()) ==> result is Err
                && is_projection_error(
                result->Err_0,
                projection,
                self.properties.schema.fields@.len(),
            ),
    {
        match can_project(self.properties.schema.fields.len(), &projection) {
            Ok(()) => {},
            Err(error) => return Err(error),
        }
        let ghost asked = projection;
        let projection = match projection {
            Some(columns) => match &self.projection {
                Some(first) => {
                    let mut all: Vec<usize> = Vec::new();
                    for k in 0..columns.len()
                        invariant
                            self.wf(),
                            self.projection == Some(*first),
                            asked == Some(columns),
                            plan::projects(asked, self.properties.schema.fields@.len()),
                            all@ == composed(self.projection, columns@).take(k as int),
                    {
                        let column = columns[k];
                        assert(asked->0@[k as int] < self.properties.schema.fields@.len());
                        all.push(first[column]);
                        assert(all@ =~= composed(self.projection, columns@).take(k + 1));
                    }
                    assert(all@ =~= composed(self.projection, columns@));
                    Some(all)
                },
                None => Some(columns),
            },
            None => None,
        };
        proof {
            let width = joined_width(self.left, self.right);
            assert forall|k: int|
                projection is Some && 0 <= k < projection->0@.len() implies (
            #[trigger] projection->0@[k]) < width by {
                let column = asked->0@[k];
                assert(column < self.properties.schema.fields@.len());
                if self.projection is Some {
                    assert(self.projection->0@[column as int] < width);
                }
            }
        }
        Self::try_new(
            share(&self.left),
            share(&self.right),
            copy_on(&self.on),
            self.asof_condition.duplicate(),
            self.join_type,
            projection,
            self.null_equality,
        )
    }

    /// Embeds a projection above the join into the join, unless it has one already.
    /// `columns` are the columns that the projection refers to, where embedding it
    /// narrows the output.
    pub fn try_swapping_with_projection(&self, columns: Option<Vec<usize>>) -> (result: Result<
        Option<AsOfJoinExec>,
        JoinError,
    >)
        requires
            self.wf(),
        ensures
            self.projection is Some || columns is None ==> result == Ok::<
                Option<AsOfJoinExec>,
                JoinError,
            >(None),
            self.projection is None && columns is Some && plan::projects(
                columns,
                self.properties.schema.fields@.len(),
            ) ==> {
                &&& result is Ok && result->Ok_0 is Some
                &&& is_join_of(
                    result->Ok_0->0,
                    self.left,
                    self.right,
                    self.on@,
                    self.asof_condition,
                    self.join_type,
                    self.null_equality,
                )
                &&& same_projection(result->Ok_0->0.projection, columns)
            },
            self.projection is None && columns is Some && !plan::projects(
                columns,
                self.properties.schema.fields@.len(),
            ) ==> result is Err && is_projection_error(
                result->Err_0,
                columns,
                self.properties.schema.fields@.len(),
            ),
    {
        if self.contains_projection() {
            return Ok(None);
        }
        match columns {
            Some(columns) => match self.with_projection(Some(columns)) {
                Ok(join) => Ok(Some(join)),
                Err(error) => Err(error),
            },
            None => Ok(None),
        }
    }

    /// Returns the name of the operator.
    pub fn name(&self) -> (name: &'static str)
        ensures
            name@ == "AsOfJoinExec"@,
    {
        "AsOfJoinExec"
    }

    /// Returns what is known of the output.
    pub fn properties(&self) -> (properties: &PlanProperties)
        ensures
            *properties == self.properties,
    {
        &self.properties
    }

    /// Returns how the rows of each input have to be spread: by a hash of its equality
    /// keys, or in one partition where there are none.
    pub fn required_input_distribution(&self) -> (distributions: Vec<Distribution>)
        ensures
            self.on@.len() == 0 ==> distributions@ == seq![
                Distribution::SinglePartition,
                Distribution::SinglePartition,
            ],
            self.on@.len() > 0 ==> {
                &&& distributions@.len() == 2
                &&& distributions@[0] is HashPartitioned
                &&& distributions@[1] is HashPartitioned
                &&& distributions@[0]->HashPartitioned_0@ == left_exprs(self.on@)
                &&& distributions@[1]->HashPartitioned_0@ == right_exprs(self.on@)
            },
    {
        if self.on.len() == 0 {
            let single = vec![Distribution::SinglePartition, Distribution::SinglePartition];
            assert(single@ =~= seq![Distribution::SinglePartition, Distribution::SinglePartition]);
            return single;
        }
        let mut left: Vec<PhysicalExprRef> = Vec::new();
        let mut right: Vec<PhysicalExprRef> = Vec::new();
        for k in 0..self.on.len()
            invariant
                left@ == left_exprs(self.on@).take(k as int),
                right@ == right_exprs(self.on@).take(k as int),
        {
            let pair = &self.on[k];
            left.push(share(&pair.0));
            right.push(share(&pair.1));
            assert(left@ =~= left_exprs(self.on@).take(k + 1));
            assert(right@ =~= right_exprs(self.on@).take(k + 1));
        }
        assert(left@ =~= left_exprs(self.on@));
        assert(right@ =~= right_exprs(self.on@));
        vec![Distribution::HashPartitioned(left), Distribution::HashPartitioned(right)]
    }

    /// Returns for each input whether the output keeps its order: the join sorts
    /// both, so it does not.
    pub fn maintains_input_order(&self) -> (maintains: Vec<bool>)
        ensures
            maintains@ == seq![false, false],
    {
        let maintains = vec![false, false];
        assert(maintains@ =~= seq![false, false]);
        maintains
    }

    /// Returns the inputs, left first.
    pub fn children(&self) -> (children: Vec<Arc<PlanInput>>)
        ensures
            children@ == seq![self.left, self.right],
    {
        let children = vec![share(&self.left), share(&self.right)];
        assert(children@ =~= seq![self.left, self.right]);
        children
    }

    /// Returns the same join of other inputs, left first.
    pub fn with_new_children(&self, children: Vec<Arc<PlanInput>>) -> (result: Result<
        AsOfJoinExec,
        JoinError,
    >)
        requires
            children@.len() >= 2,
        ensures
            makes_join(
                result,
                children@[0],
                children@[1],
                self.on@,
                self.asof_condition,
                self.join_type,
                self.projection,
                self.null_equality,
            ),
    {
        let projection = copy_projection(&self.projection);
        proof {
            let width = joined_width(children@[0], children@[1]);
            if self.projection is Some {
                assert(projection->0@ == self.projection->0@);
            }
            assert(plan::projects(projection, width) == plan::projects(self.projection, width));
        }
        Self::try_new(
            share(&children[0]),
            share(&children[1]),
            copy_on(&self.on),
            self.asof_condition.duplicate(),
            self.join_type,
            projection,
            self.null_equality,
        )
    }

    /// Starts the join of one partition: the stream waits for that partition of the left
    /// input first.
    pub fn execute(&self, partition: usize, batch_size: usize) -> (result: Result<
        AsOfJoinStream,
        JoinError,
    >)
        requires
            self.wf(),
        ensures
            partition >= self.properties.partitions ==> result == Err::<AsOfJoinStream, JoinError>(
                JoinError::InvalidPartition(partition),
            ),
            partition < self.properties.partitions ==> {
                &&& result is Ok
                &&& result->Ok_0.schema == self.properties.schema
                &&& result->Ok_0.batch_size == batch_size
                &&& result->Ok_0.state.wf()
                &&& result->Ok_0.state is Loading
                &&& result->Ok_0.state->left is None
                &&& self.is_task(result->Ok_0.state->task)
            },
    {
        if partition >= self.properties.partitions {
            return Err(JoinError::InvalidPartition(partition));
        }
        let task = JoinTask {
            left_schema: share(&self.left.schema),
            right_schema: share(&self.right.schema),
            schema: self.schema(),
            column_indices: project_columns(&self.column_indices, &self.projection),
            on: copy_on(&self.on),
            asof_condition: self.asof_condition.duplicate(),
            join_type: self.join_type,
            null_equality: self.null_equality,
        };
        proof {
            let indices = task.column_indices@;
            assert forall|c: int| 0 <= c < indices.len() implies match (
            #[trigger] indices[c]).side {
                JoinSide::Left => indices[c].index < self.left.schema.fields@.len(),
                JoinSide::Right => indices[c].index < self.right.schema.fields@.len(),
                JoinSide::Neither => true,
            } by {
                if self.projection is Some {
                    assert(self.projection->0@[c] < joined_width(self.left, self.right));
                }
            }
        }
        Ok(AsOfJoinStream::new(self.schema(), task, batch_size))
    }

    /// Whether a task runs this join, with its projection applied.
    pub open spec fn is_task(&self, task: JoinTask) -> bool {
        &&& task.left_schema == self.left.schema
        &&& task.right_schema == self.right.schema
        &&& task.schema == self.properties.schema
        &&& task.column_indices@ == plan::projected(self.column_indices@, self.projection)
        &&& task.on@ == self.on@
        &&& task.asof_condition == self.asof_condition
        &&& task.join_type == self.join_type
        &&& task.null_equality == self.null_equality
    }

    /// Returns what the statistics of the output are made from: of a single
    /// partition nothing is known.
    pub fn partition_statistics(&self, partition: Option<usize>) -> (result: Result<
        StatisticsSource,
        JoinError,
    >)
        ensures
            result == match (partition, self.left.statistics, self.right.statistics) {
                (Some(_), _, _) => Ok::<StatisticsSource, JoinError>(StatisticsSource::Unknown),
                (None, Err(reason), _) => Err::<StatisticsSource, JoinError>(
                    JoinError::Statistics(reason),
                ),
                (None, Ok(_), Err(reason)) => Err::<StatisticsSource, JoinError>(
                    JoinError::Statistics(reason),
                ),
                (None, Ok(left), Ok(right)) => Ok::<StatisticsSource, JoinError>(
                    StatisticsSource::Inputs { left, right },
                ),
            },
    {
        if partition.is_some() {
            return Ok(StatisticsSource::Unknown);
        }
        let left = match &self.left.statistics {
            Ok(statistics) => *statistics,
            Err(reason) => return Err(JoinError::Statistics(reason.clone())),
        };
        let right = match &self.right.statistics {
            Ok(statistics) => *statistics,
            Err(reason) => return Err(JoinError::Statistics(reason.clone())),
        };
        Ok(StatisticsSource::Inputs { left, right })
    }

    /// The text of the projection, where there is one.
    pub open spec fn projection_text(&self) -> Seq<char> {
        match self.projection {
            Some(columns) => ", projection=["@ + text::separated(
                Seq::new(
                    columns@.len(),
                    |k: int|
                        self.join_schema.fields@[columns@[k] as int].name@ + "@"@ + text::decimal(
                            columns@[k] as nat,
                        ),
                ),
                ", "@,
            ) + "]"@,
            None => Seq::empty(),
        }
    }

    /// How the join is displayed.
    pub open spec fn display_text(&self, format: DisplayFormatType) -> Seq<char> {
        match format {
            DisplayFormatType::TreeRender => if self.join_type != JoinType::Inner {
                "join_type="@ + text::join_type_text(self.join_type) + "\n"@
            } else {
                Seq::empty()
            },
            _ => "AsOfJoinExec: join_type="@ + text::join_type_text(self.join_type) + ", on=["@
                + text::on_text(self.on@) + "], asof="@ + text::sql_text(*self.asof_condition.left)
                + " "@ + text::inequality_text(
                self.asof_condition.direction,
                self.asof_condition.strict,
            ) + " "@ + text::sql_text(*self.asof_condition.right) + self.projection_text(),
        }
    }

    /// Returns the text that the join is displayed as.
    pub fn fmt_as(&self, format: DisplayFormatType) -> (display: String)
        requires
            self.wf(),
        ensures
            display@ == self.display_text(format),
    {
        let mut display = String::new();
        match format {
            DisplayFormatType::TreeRender => {
                if self.join_type != JoinType::Inner {
                    display.append("join_type=");
                    display.append(join_type_name(self.join_type));
                    display.append("\n");
                }
            },
            _ => {
                display.append("AsOfJoinExec: join_type=");
                display.append(join_type_name(self.join_type));
                display.append(", on=[");
                append_on(&mut display, &self.on);
                display.append("], asof=");
                display.append(fmt_sql(&*self.asof_condition.left));
                display.append(" ");
                display.append(
                    inequality_sign(self.asof_condition.direction, self.asof_condition.strict),
                );
                display.append(" ");
                display.append(fmt_sql(&*self.asof_condition.right));
                self.append_projection(&mut display);
            },
        }
        assert(display@ =~= self.display_text(format));
        display
    }

    /// Appends the text of the projection, where there is one.
    fn append_projection(&self, display: &mut String)
        requires
            self.wf(),
        ensures
            final(display)@ == old(display)@ + self.projection_text(),
    {
        if let Some(columns) = &self.projection {
            let ghost texts = Seq::new(
                columns@.len(),
                |k: int|
                    self.join_schema.fields@[columns@[k] as int].name@ + "@"@ + text::decimal(
                        columns@[k] as nat,
                    ),
            );
            let ghost start = old(display)@ + ", projection=["@;
            display.append(", projection=[");
            assert(texts.take(0) =~= Seq::<Seq<char>>::empty());
            assert(display@ =~= start + text::separated(texts.take(0), ", "@));
            for k in 0..columns.len()
                invariant
                    self.wf(),
                    self.projection == Some(*columns),
                    texts == Seq::new(
                        columns@.len(),
                        |k: int|
                            self.join_schema.fields@[columns@[k] as int].name@ + "@"@
                                + text::decimal(columns@[k] as nat),
                    ),
                    display@ == start + text::separated(texts.take(k as int), ", "@),
            {
                let column = columns[k];
                assert(self.projection->0@[k as int] < joined_width(self.left, self.right));
                if k > 0 {
                    display.append(", ");
                }
                display.append(self.join_schema.fields[column].name.as_str());
                display.append("@");
                append_decimal(display, column);
                proof {
                    assert(texts.take(k + 1).drop_last() =~= texts.take(k as int));
                    assert(display@ =~= start + text::separated(texts.take(k + 1), ", "@));
                }
            }
            assert(texts.take(columns@.len() as int) =~= texts);
            display.append("]");
        }
        assert(display@ =~= old(display)@ + self.projection_text());
    }
}

} // verus!
