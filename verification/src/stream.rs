//! The stream of batches that an as-of join produces.
use crate::asof::AsOfInputs;
use crate::batch;
use crate::batch::{concat_or_empty, count_rows, RecordBatch, Schema};
use crate::condition::AsOfJoinCondition;
use crate::error::JoinError;
use crate::eval;
use crate::eval::{evaluate_side, ColumnarValue, KeyColumns};
use crate::expr::{JoinOn, PhysicalExprRef};
use crate::join;
use crate::join::join_asof;
use crate::shared::share;
use crate::types::{ColumnIndex, JoinSide, JoinType, NullEquality};
use std::sync::Arc;
use vstd::prelude::*;

verus! {

/// A join whose inputs are still being collected.
#[derive(Debug, PartialEq, Eq)]
pub struct JoinTask {
    /// Columns of the left input.
    pub left_schema: Arc<Schema>,
    /// Columns of the right input.
    pub right_schema: Arc<Schema>,
    /// Columns of the output.
    pub schema: Arc<Schema>,
    /// Where the columns of the output come from.
    pub column_indices: Vec<ColumnIndex>,
    /// Equality predicates used as partition keys.
    pub on: JoinOn,
    /// Inequality predicate used as the as-of key.
    pub asof_condition: AsOfJoinCondition,
    /// How the join is performed.
    pub join_type: JoinType,
    /// Whether null equality keys match each other.
    pub null_equality: NullEquality,
}

impl JoinTask {
    /// Whether the task can be run once its inputs are there.
    pub open spec fn wf(self) -> bool {
        &&& join::columns_exist(
            self.left_schema.fields@.len(),
            self.right_schema.fields@.len(),
            self.column_indices@,
        )
        &&& self.join_type == JoinType::Inner || self.join_type == JoinType::Left
    }

    /// The columns of the input that is awaited next.
    pub open spec fn awaited(self, left: Option<JoinInput>) -> Arc<Schema> {
        if left is None {
            self.left_schema
        } else {
            self.right_schema
        }
    }

    /// The inputs that are joined, where their keys could be evaluated.
    pub open spec fn inputs(self, left: JoinInput, right: JoinInput) -> AsOfInputs {
        AsOfInputs {
            left: left.batch,
            right: right.batch,
            left_keys: left.keys->Ok_0,
            right_keys: right.keys->Ok_0,
            direction: self.asof_condition.direction,
            strict: self.asof_condition.strict,
            null_equality: self.null_equality,
        }
    }

    /// What joining two inputs may return.
    pub open spec fn may_return(
        self,
        left: JoinInput,
        right: JoinInput,
        result: Result<RecordBatch, JoinError>,
    ) -> bool {
        join::join_returns(
            left.batch,
            right.batch,
            left.keys,
            right.keys,
            self.schema,
            self.column_indices@,
            self.asof_condition.direction,
            self.asof_condition.strict,
            self.join_type,
            self.null_equality,
            result,
        )
    }
}

impl JoinTask {
    /// Makes an input of the batches that have been read of one side: evaluates the key
    /// expressions of that side, the equality keys first, against the rows of all
    /// batches.
    pub fn collect_input<F>(&self, side: JoinSide, batches: Vec<RecordBatch>, evaluate: &F) -> (input:
        CollectedInput) where F: Fn(PhysicalExprRef) -> Result<ColumnarValue, JoinError>
        requires
            batch::total_rows(batches@) <= usize::MAX,
            forall|expr: PhysicalExprRef| #[trigger] call_requires(*evaluate, (expr,)),
            forall|expr: PhysicalExprRef, value: Result<ColumnarValue, JoinError>| #[trigger]
                call_ensures(*evaluate, (expr,), value) ==> eval::has_rows(
                    value,
                    batch::total_rows(batches@),
                ),
        ensures
            input.batches == batches,
            eval::evaluates_to(
                eval::side_exprs(self.on@, self.asof_condition, side),
                *evaluate,
                batch::total_rows(batches@),
                input.keys,
            ),
            join::keys_fit(input.keys, batch::total_rows(batches@)),
            input.keys is Ok ==> input.keys->Ok_0.on@.len() == self.on@.len(),
    {
        let rows = count_rows(&batches);
        let keys = evaluate_side(&self.on, &self.asof_condition, side, rows, evaluate);
        CollectedInput { batches, keys }
    }
}

/// One input of a join: its rows, and what evaluating the join keys against them
/// returned.
#[derive(Debug, PartialEq, Eq)]
pub struct JoinInput {
    /// The rows.
    pub batch: RecordBatch,
    /// The key columns, or why there are none.
    pub keys: Result<KeyColumns, JoinError>,
}

impl JoinInput {
    /// Whether the keys have a slot in each row, and there is one for each equality
    /// predicate.
    pub open spec fn wf(self, on: nat) -> bool {
        &&& self.batch.wf()
        &&& join::keys_fit(self.keys, self.batch.num_rows as nat)
        &&& self.keys is Ok ==> self.keys->Ok_0.on@.len() == on
    }
}

/// What has been collected of one input: its batches, and what evaluating the join keys
/// against their rows, one batch after the other, returned.
#[derive(Debug, PartialEq, Eq)]
pub struct CollectedInput {
    /// The batches.
    pub batches: Vec<RecordBatch>,
    /// The key columns, or why there are none.
    pub keys: Result<KeyColumns, JoinError>,
}

/// Where a stream stands.
#[derive(Debug, PartialEq, Eq)]
pub enum AsOfJoinStreamState {
    /// The inputs are being collected: first the left, then the right one.
    Loading {
        task: JoinTask,
        left: Option<JoinInput>,
    },
    /// The joined rows before `offset` have been emitted.
    Draining {
        batch: RecordBatch,
        offset: usize,
    },
    /// Nothing is left to do.
    Done,
}

/// The stream returned by the as-of join.
#[derive(Debug, PartialEq, Eq)]
pub struct AsOfJoinStream {
    /// Columns of the emitted batches.
    pub schema: Arc<Schema>,
    /// Where the stream stands.
    pub state: AsOfJoinStreamState,
    /// How many rows an emitted batch has at most.
    pub batch_size: usize,
}

/// What has become of the input that the stream waits for.
#[derive(Debug, PartialEq, Eq)]
pub enum Event {
    /// It is not complete yet.
    Pending,
    /// It is complete, or could not be read.
    Collected(Result<CollectedInput, JoinError>),
}

/// What the stream does next.
#[derive(Debug, PartialEq, Eq)]
pub enum Step {
    /// It waits for the input that it already waits for.
    Pending,
    /// It waits for the right input.
    CollectRight,
    /// It emits a batch.
    Emit(RecordBatch),
    /// It emits an error.
    Fail(JoinError),
    /// It ends.
    End,
}

/// How many rows are emitted next, of `num_rows` rows from `offset` on.
pub open spec fn chunk_len(offset: int, num_rows: int, batch_size: int) -> int {
    if num_rows - offset < batch_size {
        num_rows - offset
    } else {
        batch_size
    }
}

/// Whether the batches of an input can be put under its schema, and its keys have a slot
/// in each of their rows.
pub open spec fn input_readable(schema: Schema, on: nat, input: CollectedInput) -> bool {
    &&& forall|b: int|
        0 <= b < input.batches@.len() ==> (#[trigger] input.batches@[b]).wf()
            && schema.fields@.len() <= input.batches@[b].columns@.len()
    &&& batch::total_rows(input.batches@) <= usize::MAX
    &&& join::keys_fit(input.keys, batch::total_rows(input.batches@))
    &&& input.keys is Ok ==> input.keys->Ok_0.on@.len() == on
}

/// Whether every batch of an input conforms to its schema.
pub open spec fn input_conforms(schema: Schema, batches: Seq<RecordBatch>) -> bool {
    forall|b: int| 0 <= b < batches.len() ==> batch::batch_conforms(#[trigger] batches[b], schema)
}

/// What a stream does that has joined rows from `offset` on, and where it stands
/// then.
pub open spec fn drains(
    joined: RecordBatch,
    offset: int,
    batch_size: usize,
    step: Step,
    state: AsOfJoinStreamState,
) -> bool {
    if offset >= joined.num_rows {
        step == Step::End && state == AsOfJoinStreamState::Done
    } else {
        let len = chunk_len(offset, joined.num_rows as int, batch_size as int);
        &&& step is Emit
        &&& batch::is_slice(step->Emit_0, joined, offset, len)
        &&& state == AsOfJoinStreamState::Draining {
            batch: joined,
            offset: (offset + len) as usize,
        }
    }
}

/// What a stream does that has just joined its inputs, and where it stands then.
pub open spec fn finishes(
    result: Result<RecordBatch, JoinError>,
    batch_size: usize,
    step: Step,
    state: AsOfJoinStreamState,
) -> bool {
    match result {
        Ok(joined) => joined.wf() && drains(joined, 0, batch_size, step, state),
        Err(error) => step == Step::Fail(error) && state == AsOfJoinStreamState::Done,
    }
}

/// What a stream does next, and where it stands then.
pub open spec fn advances(
    state: AsOfJoinStreamState,
    batch_size: usize,
    event: Event,
    step: Step,
    next: AsOfJoinStreamState,
) -> bool {
    match state {
        AsOfJoinStreamState::Loading { task, left } => match event {
            Event::Pending => step == Step::Pending && next == state,
            Event::Collected(Err(error)) => step == Step::Fail(error) && next
                == AsOfJoinStreamState::Done,
            Event::Collected(Ok(collected)) => if !input_conforms(
                *task.awaited(left),
                collected.batches@,
            ) {
                step == Step::Fail(JoinError::InvalidRecordBatch) && next
                    == AsOfJoinStreamState::Done
            } else {
                exists|input: RecordBatch| #[trigger]
                    batch::is_concatenation(input, task.awaited(left), collected.batches@)
                        && match left {
                        None => step == Step::CollectRight && next
                            == AsOfJoinStreamState::Loading {
                            task,
                            left: Some(JoinInput { batch: input, keys: collected.keys }),
                        },
                        Some(left_input) => exists|result: Result<RecordBatch, JoinError>|
                            #[trigger] task.may_return(
                                left_input,
                                (JoinInput { batch: input, keys: collected.keys }),
                                result,
                            ) && finishes(result, batch_size, step, next),
                    }
            },
        },
        AsOfJoinStreamState::Draining { batch, offset } => drains(
            batch,
            offset as int,
            batch_size,
            step,
            next,
        ),
        AsOfJoinStreamState::Done => step == Step::End && next == state,
    }
}

impl AsOfJoinStreamState {
    /// Whether what the state holds fits together.
    pub open spec fn wf(self) -> bool {
        match self {
            AsOfJoinStreamState::Loading { task, left } => task.wf() && match left {
                Some(input) => input.wf(task.on@.len()) && input.batch.schema
                    == task.left_schema,
                None => true,
            },
            AsOfJoinStreamState::Draining { batch, .. } => batch.wf(),
            AsOfJoinStreamState::Done => true,
        }
    }

    /// Whether the state can take the event: the collected batches have the columns of
    /// the awaited input, and the rows of the left input can be numbered where it comes
    /// to joining them.
    pub open spec fn accepts(self, event: Event) -> bool {
        match (self, event) {
            (
                AsOfJoinStreamState::Loading { task, left },
                Event::Collected(Ok(collected)),
            ) => {
                &&& input_readable(*task.awaited(left), task.on@.len(), collected)
                &&& left is Some && input_conforms(*task.right_schema, collected.batches@)
                    ==> left->0.batch.num_rows <= u32::MAX || join::join_refusal(
                    batch::total_rows(collected.batches@),
                    left->0.keys,
                    collected.keys,
                ) is Some
            },
            _ => true,
        }
    }
}

/// Emits the next rows of a joined batch.
fn drain(joined: RecordBatch, offset: usize, batch_size: usize) -> (result: (
    Step,
    AsOfJoinStreamState,
))
    requires
        joined.wf(),
    ensures
        drains(joined, offset as int, batch_size, result.0, result.1),
        result.1.wf(),
{
    if offset >= joined.num_rows {
        return (Step::End, AsOfJoinStreamState::Done);
    }
    let rest: usize = joined.num_rows - offset;
    let len: usize = if rest < batch_size {
        rest
    } else {
        batch_size
    };
    let output = joined.slice(offset, len);
    (Step::Emit(output), AsOfJoinStreamState::Draining { batch: joined, offset: offset + len })
}

/// Takes up the result of the join: emits its first rows, or the error.
pub fn finish_loading(result: Result<RecordBatch, JoinError>, batch_size: usize) -> (next: (
    Step,
    AsOfJoinStreamState,
))
    requires
        result is Ok ==> result->Ok_0.wf(),
    ensures
        finishes(result, batch_size, next.0, next.1),
        next.1.wf(),
{
    match result {
        Ok(joined) => if joined.num_rows == 0 {
            (Step::End, AsOfJoinStreamState::Done)
        } else {
            drain(joined, 0, batch_size)
        },
        Err(error) => (Step::Fail(error), AsOfJoinStreamState::Done),
    }
}

impl AsOfJoinStream {
    /// Creates a stream that waits for the left input.
    pub fn new(schema: Arc<Schema>, task: JoinTask, batch_size: usize) -> (stream: AsOfJoinStream)
        ensures
            stream == (AsOfJoinStream {
                schema,
                state: AsOfJoinStreamState::Loading { task, left: None },
                batch_size,
            }),
    {
        AsOfJoinStream {
            schema,
            state: AsOfJoinStreamState::Loading { task, left: None },
            batch_size,
        }
    }

    /// Returns the columns of the emitted batches.
    pub fn schema(&self) -> (schema: Arc<Schema>)
        ensures
            schema == self.schema,
    {
        share(&self.schema)
    }

    /// Goes on by one step.
    pub fn poll_next(&mut self, event: Event) -> (step: Step)
        requires
            old(self).state.wf(),
            old(self).state.accepts(event),
        ensures
            advances(old(self).state, old(self).batch_size, event, step, final(self).state),
            final(self).state.wf(),
            final(self).schema == old(self).schema,
            final(self).batch_size == old(self).batch_size,
    {
        let mut state = AsOfJoinStreamState::Done;
        std::mem::swap(&mut state, &mut self.state);
        let (step, next) = match state {
            AsOfJoinStreamState::Loading { task, left } => load(task, left, self.batch_size, event),
            AsOfJoinStreamState::Draining { batch, offset } => drain(
                batch,
                offset,
                self.batch_size,
            ),
            AsOfJoinStreamState::Done => (Step::End, AsOfJoinStreamState::Done),
        };
        self.state = next;
        step
    }
}

/// Takes up an input, and joins once both are there.
fn load(task: JoinTask, left: Option<JoinInput>, batch_size: usize, event: Event) -> (result: (
    Step,
    AsOfJoinStreamState,
))
    requires
        (AsOfJoinStreamState::Loading { task, left }).wf(),
        (AsOfJoinStreamState::Loading { task, left }).accepts(event),
    ensures
        advances(
            AsOfJoinStreamState::Loading { task, left },
            batch_size,
            event,
            result.0,
            result.1,
        ),
        result.1.wf(),
{
    let collected = match event {
        Event::Pending => return (
            Step::Pending,
            AsOfJoinStreamState::Loading { task, left },
        ),
        Event::Collected(Err(error)) => return (Step::Fail(error), AsOfJoinStreamState::Done),
        Event::Collected(Ok(collected)) => collected,
    };
    let CollectedInput { batches, keys } = collected;
    match left {
        None => match concat_or_empty(share(&task.left_schema), batches) {
            Ok(batch) => (
                Step::CollectRight,
                AsOfJoinStreamState::Loading { task, left: Some(JoinInput { batch, keys }) },
            ),
            Err(error) => (Step::Fail(error), AsOfJoinStreamState::Done),
        },
        Some(left_input) => match concat_or_empty(share(&task.right_schema), batches) {
            Ok(batch) => {
                let ghost right_input = JoinInput { batch, keys };
                let ghost given = left_input;
                let JoinInput { batch: left_batch, keys: left_keys } = left_input;
                let result = join_asof(
                    left_batch,
                    batch,
                    left_keys,
                    keys,
                    task.schema,
                    task.column_indices,
                    task.asof_condition,
                    task.join_type,
                    task.null_equality,
                );
                assert(task.may_return(given, right_input, result));
                finish_loading(result, batch_size)
            },
            Err(error) => (Step::Fail(error), AsOfJoinStreamState::Done),
        },
    }
}

/// Where a stream stands after it has drained `k` times from the first joined row
/// on.
pub open spec fn drained(joined: RecordBatch, batch_size: usize, k: int) -> AsOfJoinStreamState {
    if (k - 1) * batch_size >= joined.num_rows {
        AsOfJoinStreamState::Done
    } else if k * batch_size < joined.num_rows {
        AsOfJoinStreamState::Draining { batch: joined, offset: (k * batch_size) as usize }
    } else {
        AsOfJoinStreamState::Draining { batch: joined, offset: joined.num_rows }
    }
}

/// A stream emits the joined rows in order, each once: the batches that it emits one
/// after the other hold consecutive ranges of rows, `batch_size` each but for the
/// last; then it ends, and stays at its end.
pub proof fn every_joined_row_is_emitted_once(
    joined: RecordBatch,
    batch_size: usize,
    events: Seq<Event>,
    steps: Seq<Step>,
    states: Seq<AsOfJoinStreamState>,
    k: int,
)
    requires
        batch_size > 0,
        0 <= k < steps.len(),
        events.len() == steps.len(),
        states.len() == steps.len() + 1,
        drains(joined, 0, batch_size, steps[0], states[1]),
        forall|i: int|
            0 < i < steps.len() ==> advances(
                #[trigger] states[i],
                batch_size,
                events[i],
                steps[i],
                states[i + 1],
            ),
    ensures
        k * batch_size < joined.num_rows ==> steps[k] is Emit && batch::is_slice(
            steps[k]->Emit_0,
            joined,
            k * batch_size,
            chunk_len(k * batch_size, joined.num_rows as int, batch_size as int),
        ),
        k * batch_size >= joined.num_rows ==> steps[k] == Step::End,
        states[k + 1] == drained(joined, batch_size, k + 1),
    decreases k,
{
    assert((k + 1) * batch_size == k * batch_size + batch_size) by (nonlinear_arith);
    if k > 0 {
        every_joined_row_is_emitted_once(joined, batch_size, events, steps, states, k - 1);
        assert((k - 1) * batch_size == k * batch_size - batch_size) by (nonlinear_arith);
        assert((k - 1) * batch_size >= 0) by (nonlinear_arith)
            requires
                k >= 1,
        ;
        assert(advances(states[k], batch_size, events[k], steps[k], states[k + 1]));
    }
}

/// After an error a stream ends, whatever it is told.
pub proof fn stream_ends_after_an_error(
    state: AsOfJoinStreamState,
    batch_size: usize,
    event: Event,
    error: JoinError,
    next: AsOfJoinStreamState,
    later_event: Event,
    later_step: Step,
    later: AsOfJoinStreamState,
)
    requires
        advances(state, batch_size, event, Step::Fail(error), next),
        advances(next, batch_size, later_event, later_step, later),
    ensures
        later_step == Step::End,
        later == next,
{
}

} // verus!
