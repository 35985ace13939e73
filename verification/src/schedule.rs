//! The scheduling of tasks under a bound, as a state machine.
//!
//! A state holds the submitted tasks, how many of them have been taken from
//! the front of the input, the rows that are running, and the outcomes in the
//! order in which they came. Two steps change it: taking the next task, which
//! starts it or, where its row did not decode, fails it at once; and the
//! completion of a running task.

use crate::address::{request_of, RequestView};
use crate::outcome::{OutcomeView, RowErrorView};
use crate::record::{rows_numbered, DecodeErrorView, TaskView};
use crate::tally::{count_err, count_ok, lemma_counts_add_up, lemma_tally_ignores_order};
use vstd::prelude::*;

verus! {

/// Where a task stands. A task enters a run decoded, or with the error of a
/// row that did not decode. A decoded task runs once it is taken, and ends
/// completed or failed. A task that did not decode never runs: once it is
/// taken it has failed.
pub enum TaskState {
    Decoded,
    DecodeFailed,
    Running,
    Completed,
    Failed,
}

/// Whether a task may pass from one state to the other in one step.
pub open spec fn may_become(from: TaskState, to: TaskState) -> bool {
    match (from, to) {
        (TaskState::Decoded, TaskState::Running) => true,
        (TaskState::DecodeFailed, TaskState::Failed) => true,
        (TaskState::Running, TaskState::Completed) => true,
        (TaskState::Running, TaskState::Failed) => true,
        _ => false,
    }
}

/// What the caller is to do next.
pub enum ActionView {
    /// Request this copy and report its completion.
    Start(RequestView),
    /// The row did not decode; its failure has been recorded.
    Rejected { row: nat, error: DecodeErrorView },
    /// Nothing can be started: wait for a running copy to complete.
    Wait,
    /// Every task has its outcome.
    Finished,
}

/// The outcome of a task whose row did not decode.
pub open spec fn rejection(row: nat, error: DecodeErrorView) -> OutcomeView {
    OutcomeView { row, result: Err(RowErrorView::Decode(error)) }
}

/// The outcome of a task whose copy was requested: a success, or a failure
/// with the object store's reason.
pub open spec fn completion(row: nat, result: Result<(), Seq<char>>) -> OutcomeView {
    OutcomeView {
        row,
        result: match result {
            Ok(_) => Ok(()),
            Err(reason) => Err(RowErrorView::Copy(reason)),
        },
    }
}

/// The state of a run.
pub struct SchedulerState {
    /// The tasks of the run, in input order.
    pub tasks: Seq<TaskView>,
    /// How many tasks may run at the same time.
    pub bound: nat,
    /// How many tasks have been taken from the front of `tasks`.
    pub started: nat,
    /// The rows of the running tasks, in the order in which they started.
    pub running: Seq<nat>,
    /// The outcomes so far, in the order in which they came.
    pub outcomes: Seq<OutcomeView>,
}

impl SchedulerState {
    /// The state before anything has been taken.
    pub open spec fn initial(tasks: Seq<TaskView>, bound: nat) -> SchedulerState {
        SchedulerState { tasks, bound, started: 0, running: Seq::empty(), outcomes: Seq::empty() }
    }

    /// The task of a row.
    pub open spec fn task(self, row: nat) -> TaskView {
        self.tasks[row - 1]
    }

    /// Whether an outcome has come for the row.
    pub open spec fn has_outcome(self, row: nat) -> bool {
        exists|j: int| 0 <= j < self.outcomes.len() && (#[trigger] self.outcomes[j]).row == row
    }

    /// Whether a success has come for the row.
    pub open spec fn has_success(self, row: nat) -> bool {
        exists|j: int|
            0 <= j < self.outcomes.len() && (#[trigger] self.outcomes[j]).row == row
                && self.outcomes[j].succeeded()
    }

    /// Whether a taken row is where it belongs: running, or with an outcome.
    pub open spec fn accounted(self, row: nat) -> bool {
        self.running.contains(row) || self.has_outcome(row)
    }

    /// Whether the running row at position `k` is a taken row that decoded.
    pub open spec fn running_fits(self, k: int) -> bool {
        let row = self.running[k];
        &&& 1 <= row <= self.started
        &&& self.task(row).instruction is Ok
    }

    /// Whether the outcome at position `j` belongs to a taken row that is not
    /// running, and is the decode error of that row where there is one, and
    /// no decode error where there is none.
    pub open spec fn outcome_fits(self, j: int) -> bool {
        let outcome = self.outcomes[j];
        &&& 1 <= outcome.row <= self.started
        &&& !self.running.contains(outcome.row)
        &&& match self.task(outcome.row).instruction {
            Ok(_) => outcome.result matches Err(error) ==> error is Copy,
            Err(error) => outcome == rejection(outcome.row, error),
        }
    }

    /// Whether the outcomes came in input order, without a gap.
    pub open spec fn in_input_order(self) -> bool {
        forall|j: int| 0 <= j < self.outcomes.len() ==> (#[trigger] self.outcomes[j]).row == j + 1
    }

    /// What holds of every state of a run.
    pub open spec fn wf(self) -> bool {
        &&& self.bound >= 1
        &&& rows_numbered(self.tasks)
        &&& self.started <= self.tasks.len()
        &&& self.running.len() <= self.bound
        &&& self.running.no_duplicates()
        &&& self.outcomes.len() + self.running.len() == self.started
        &&& forall|k: int| 0 <= k < self.running.len() ==> #[trigger] self.running_fits(k)
        &&& forall|j: int| 0 <= j < self.outcomes.len() ==> #[trigger] self.outcome_fits(j)
        &&& forall|i: int, j: int|
            0 <= i < j < self.outcomes.len() ==> (#[trigger] self.outcomes[i]).row != (
            #[trigger] self.outcomes[j]).row
        &&& forall|row: nat| 1 <= row <= self.started ==> #[trigger] self.accounted(row)
        &&& self.bound == 1 ==> self.in_input_order()
    }

    /// Whether the next task can be taken: there is one, and the bound leaves
    /// room.
    pub open spec fn can_take(self) -> bool {
        self.started < self.tasks.len() && self.running.len() < self.bound
    }

    /// Whether the run is over: every task taken, none running.
    pub open spec fn finished(self) -> bool {
        self.started == self.tasks.len() && self.running.len() == 0
    }

    /// What the caller is told in this state.
    pub open spec fn next_action(self) -> ActionView {
        if self.can_take() {
            let task = self.tasks[self.started as int];
            match task.instruction {
                Ok(instruction) => ActionView::Start(request_of(task.row, instruction)),
                Err(error) => ActionView::Rejected { row: task.row, error },
            }
        } else if self.running.len() > 0 {
            ActionView::Wait
        } else {
            ActionView::Finished
        }
    }

    /// The state after the caller has been told what to do: where a task can
    /// be taken it is taken, and runs or has failed; otherwise nothing
    /// changes.
    pub open spec fn after_next(self) -> SchedulerState {
        if self.can_take() {
            let task = self.tasks[self.started as int];
            match task.instruction {
                Ok(_) => SchedulerState {
                    started: self.started + 1,
                    running: self.running.push(task.row),
                    ..self
                },
                Err(error) => SchedulerState {
                    started: self.started + 1,
                    outcomes: self.outcomes.push(rejection(task.row, error)),
                    ..self
                },
            }
        } else {
            self
        }
    }

    /// Whether a completion of this row is expected.
    pub open spec fn expects(self, row: nat) -> bool {
        self.running.contains(row)
    }

    /// The state after a copy has completed: where the row is running, it
    /// leaves the running rows and its outcome is recorded; a completion that
    /// is not expected changes nothing.
    pub open spec fn after_completion(
        self,
        row: nat,
        result: Result<(), Seq<char>>,
    ) -> SchedulerState {
        if self.expects(row) {
            SchedulerState {
                running: self.running.remove(self.running.index_of(row)),
                outcomes: self.outcomes.push(completion(row, result)),
                ..self
            }
        } else {
            self
        }
    }

    /// Where the task of a row stands.
    pub open spec fn state_of(self, row: nat) -> TaskState {
        if row > self.started {
            if self.task(row).instruction is Ok {
                TaskState::Decoded
            } else {
                TaskState::DecodeFailed
            }
        } else if self.running.contains(row) {
            TaskState::Running
        } else if self.has_success(row) {
            TaskState::Completed
        } else {
            TaskState::Failed
        }
    }

    /// The steps that the run can still take, at most: two for each task that
    /// has not been taken, one for each running task.
    pub open spec fn steps_left(self) -> nat {
        (2 * (self.tasks.len() - self.started) + self.running.len()) as nat
    }
}

/// A run starts well-formed, whatever its tasks, as long as they are numbered
/// and the bound is at least one.
pub proof fn lemma_initial_wf(tasks: Seq<TaskView>, bound: nat)
    requires
        rows_numbered(tasks),
        bound >= 1,
    ensures
        SchedulerState::initial(tasks, bound).wf(),
{
}

/// Taking the next task keeps the state well-formed.
pub proof fn lemma_next_preserves_wf(state: SchedulerState)
    requires
        state.wf(),
    ensures
        state.after_next().wf(),
{
    let next = state.after_next();
    if state.can_take() {
        let task = state.tasks[state.started as int];
        let row = task.row;
        assert(row == state.started + 1);
        assert forall|k: int| 0 <= k < state.running.len() implies state.running[k] != row by {
            assert(state.running_fits(k));
        }
        assert forall|j: int| 0 <= j < state.outcomes.len() implies state.outcomes[j].row
            != row by {
            assert(state.outcome_fits(j));
        }
        assert forall|other: nat| next.running.contains(other) implies state.running.contains(
            other,
        ) || other == row by {
            let k = choose|k: int| 0 <= k < next.running.len() && next.running[k] == other;
            if k < state.running.len() {
                assert(state.running[k] == other);
            }
        }
        assert forall|k: int| 0 <= k < next.running.len() implies #[trigger] next.running_fits(
            k,
        ) by {
            if k < state.running.len() {
                assert(state.running_fits(k));
            }
        }
        assert forall|j: int| 0 <= j < next.outcomes.len() implies #[trigger] next.outcome_fits(
            j,
        ) by {
            if j < state.outcomes.len() {
                assert(state.outcome_fits(j));
                assert(next.outcomes[j] == state.outcomes[j]);
            }
        }
        assert forall|other: nat| 1 <= other <= next.started implies #[trigger] next.accounted(
            other,
        ) by {
            if other <= state.started {
                assert(state.accounted(other));
                if state.running.contains(other) {
                    let k = choose|k: int|
                        0 <= k < state.running.len() && state.running[k] == other;
                    assert(next.running[k] == other);
                } else {
                    let j = choose|j: int|
                        0 <= j < state.outcomes.len() && state.outcomes[j].row == other;
                    assert(next.outcomes[j].row == other);
                }
            } else {
                if task.instruction is Ok {
                    assert(next.running[state.running.len() as int] == other);
                } else {
                    assert(next.outcomes[state.outcomes.len() as int].row == other);
                }
            }
        }
        if next.bound == 1 {
            assert(state.in_input_order());
            assert forall|j: int| 0 <= j < next.outcomes.len() implies (
            #[trigger] next.outcomes[j]).row == j + 1 by {
                if j < state.outcomes.len() {
                    assert(next.outcomes[j] == state.outcomes[j]);
                }
            }
        }
    }
}

/// In a sequence without duplicates, a value stands where it is found.
pub(crate) proof fn lemma_index_of_unique(rows: Seq<nat>, k: int)
    requires
        rows.no_duplicates(),
        0 <= k < rows.len(),
    ensures
        rows.index_of(rows[k]) == k,
        rows.contains(rows[k]),
{
    assert(rows.contains(rows[k]));
    let found = rows.index_of(rows[k]);
    assert(0 <= found < rows.len() && rows[found] == rows[k]);
}

/// The completion of a copy keeps the state well-formed.
pub proof fn lemma_completion_preserves_wf(
    state: SchedulerState,
    row: nat,
    result: Result<(), Seq<char>>,
)
    requires
        state.wf(),
    ensures
        state.after_completion(row, result).wf(),
{
    let next = state.after_completion(row, result);
    if state.expects(row) {
        let at = state.running.index_of(row);
        assert(0 <= at < state.running.len() && state.running[at] == row);
        assert(state.running_fits(at));
        assert forall|k: int| 0 <= k < next.running.len() implies next.running[k]
            == state.running[if k < at {
            k
        } else {
            k + 1
        }] by {}
        assert(next.running.no_duplicates());
        assert forall|other: nat| next.running.contains(other) implies state.running.contains(
            other,
        ) && other != row by {
            let k = choose|k: int| 0 <= k < next.running.len() && next.running[k] == other;
            let origin = if k < at {
                k
            } else {
                k + 1
            };
            assert(state.running[origin] == other);
        }
        assert forall|j: int| 0 <= j < state.outcomes.len() implies state.outcomes[j].row
            != row by {
            assert(state.outcome_fits(j));
        }
        assert forall|k: int| 0 <= k < next.running.len() implies #[trigger] next.running_fits(
            k,
        ) by {
            let origin = if k < at {
                k
            } else {
                k + 1
            };
            assert(state.running_fits(origin));
        }
        assert forall|j: int| 0 <= j < next.outcomes.len() implies #[trigger] next.outcome_fits(
            j,
        ) by {
            if j < state.outcomes.len() {
                assert(state.outcome_fits(j));
                assert(next.outcomes[j] == state.outcomes[j]);
            }
        }
        assert forall|other: nat| 1 <= other <= next.started implies #[trigger] next.accounted(
            other,
        ) by {
            assert(state.accounted(other));
            if other == row {
                assert(next.outcomes[state.outcomes.len() as int].row == other);
            } else if state.running.contains(other) {
                let k = choose|k: int| 0 <= k < state.running.len() && state.running[k] == other;
                let target = if k < at {
                    k
                } else {
                    k - 1
                };
                assert(next.running[target] == other);
            } else {
                let j = choose|j: int|
                    0 <= j < state.outcomes.len() && state.outcomes[j].row == other;
                assert(next.outcomes[j].row == other);
            }
        }
        if next.bound == 1 {
            assert(state.in_input_order());
            let count = state.outcomes.len() as int;
            if row <= count {
                assert(state.outcomes[row - 1].row == row);
            }
            assert forall|j: int| 0 <= j < next.outcomes.len() implies (
            #[trigger] next.outcomes[j]).row == j + 1 by {
                if j < count {
                    assert(next.outcomes[j] == state.outcomes[j]);
                }
            }
        }
    }
}

/// One step of a run, as the state machine sees it.
pub enum Step {
    /// The caller asked what to do next.
    Next,
    /// The caller reported the completion of the copy of a row.
    Complete { row: nat, result: Result<(), Seq<char>> },
}

impl SchedulerState {
    /// The state after one step.
    pub open spec fn after_step(self, step: Step) -> SchedulerState {
        match step {
            Step::Next => self.after_next(),
            Step::Complete { row, result } => self.after_completion(row, result),
        }
    }

    /// The state after a sequence of steps.
    pub open spec fn after_steps(self, steps: Seq<Step>) -> SchedulerState
        decreases steps.len(),
    {
        if steps.len() == 0 {
            self
        } else {
            self.after_steps(steps.drop_last()).after_step(steps.last())
        }
    }
}

/// Every state that a run can reach is well-formed, whatever the caller asks
/// and reports, and in whatever order.
pub proof fn lemma_every_state_wf(tasks: Seq<TaskView>, bound: nat, steps: Seq<Step>)
    requires
        rows_numbered(tasks),
        bound >= 1,
    ensures
        SchedulerState::initial(tasks, bound).after_steps(steps).wf(),
    decreases steps.len(),
{
    let start = SchedulerState::initial(tasks, bound);
    if steps.len() == 0 {
        lemma_initial_wf(tasks, bound);
    } else {
        lemma_every_state_wf(tasks, bound, steps.drop_last());
        let before = start.after_steps(steps.drop_last());
        match steps.last() {
            Step::Next => lemma_next_preserves_wf(before),
            Step::Complete { row, result } => lemma_completion_preserves_wf(before, row, result),
        }
    }
}

/// The bound is never exceeded: in every state that a run can reach, no more
/// tasks are running than the bound allows.
pub proof fn lemma_bound_never_exceeded(tasks: Seq<TaskView>, bound: nat, steps: Seq<Step>)
    requires
        rows_numbered(tasks),
        bound >= 1,
    ensures
        SchedulerState::initial(tasks, bound).after_steps(steps).running.len() <= bound,
    decreases steps.len(),
{
    lemma_every_state_wf(tasks, bound, steps);
    lemma_steps_keep_the_run(SchedulerState::initial(tasks, bound), steps);
}

/// No step changes the tasks of a run or its bound, and none takes a task
/// back.
pub proof fn lemma_steps_keep_the_run(state: SchedulerState, steps: Seq<Step>)
    ensures
        state.after_steps(steps).tasks == state.tasks,
        state.after_steps(steps).bound == state.bound,
        state.after_steps(steps).started >= state.started,
    decreases steps.len(),
{
    if steps.len() > 0 {
        lemma_steps_keep_the_run(state, steps.drop_last());
    }
}

/// With a bound of one the outcomes come in input order: in every state that
/// such a run can reach, the outcome at position `j` is that of row `j + 1`.
pub proof fn lemma_sequential_order(tasks: Seq<TaskView>, steps: Seq<Step>)
    requires
        rows_numbered(tasks),
    ensures
        SchedulerState::initial(tasks, 1).after_steps(steps).in_input_order(),
{
    lemma_every_state_wf(tasks, 1, steps);
    lemma_steps_keep_the_run(SchedulerState::initial(tasks, 1), steps);
}

/// When a run is over, every task has exactly one outcome: there are as many
/// outcomes as tasks, each row has one, and no two outcomes are of one row.
pub proof fn lemma_one_outcome_per_row(state: SchedulerState)
    requires
        state.wf(),
        state.finished(),
    ensures
        state.outcomes.len() == state.tasks.len(),
        forall|row: nat| 1 <= row <= state.tasks.len() ==> #[trigger] state.has_outcome(row),
        forall|i: int, j: int|
            0 <= i < state.outcomes.len() && 0 <= j < state.outcomes.len() && (
            #[trigger] state.outcomes[i]).row == (#[trigger] state.outcomes[j]).row ==> i == j,
        forall|j: int|
            0 <= j < state.outcomes.len() ==> 1 <= (#[trigger] state.outcomes[j]).row
                <= state.tasks.len(),
{
    assert forall|row: nat| 1 <= row <= state.tasks.len() implies #[trigger] state.has_outcome(
        row,
    ) by {
        assert(state.accounted(row));
    }
    assert forall|i: int, j: int|
        0 <= i < state.outcomes.len() && 0 <= j < state.outcomes.len() && (
        #[trigger] state.outcomes[i]).row == (#[trigger] state.outcomes[j]).row implies i == j by {
        if i < j {
            assert(state.outcomes[i].row != state.outcomes[j].row);
        } else if j < i {
            assert(state.outcomes[j].row != state.outcomes[i].row);
        }
    }
    assert forall|j: int| 0 <= j < state.outcomes.len() implies 1 <= (
    #[trigger] state.outcomes[j]).row <= state.tasks.len() by {
        assert(state.outcome_fits(j));
    }
}

/// When a run is over, successes and failures add up to the number of tasks.
pub proof fn lemma_counts_cover_the_tasks(state: SchedulerState)
    requires
        state.wf(),
        state.finished(),
    ensures
        count_ok(state.outcomes) + count_err(state.outcomes) == state.tasks.len(),
{
    lemma_counts_add_up(state.outcomes);
}

/// A row that did not decode fails with its decode error, under its own row
/// number, and a row that decoded never does: in every well-formed state, the
/// outcome of a row is the rejection of that row exactly where the row's task
/// carries a decode error.
pub proof fn lemma_decode_failures_are_reported(state: SchedulerState, j: int)
    requires
        state.wf(),
        0 <= j < state.outcomes.len(),
    ensures
        1 <= state.outcomes[j].row <= state.tasks.len(),
        match state.task(state.outcomes[j].row).instruction {
            Ok(_) => state.outcomes[j].result matches Err(error) ==> error is Copy,
            Err(error) => state.outcomes[j] == rejection(state.outcomes[j].row, error),
        },
{
    assert(state.outcome_fits(j));
}

/// A run that is not over is never stuck: a task can be taken, or a copy is
/// running whose completion will be accepted.
pub proof fn lemma_never_stuck(state: SchedulerState)
    requires
        state.wf(),
        !state.finished(),
    ensures
        state.can_take() || state.running.len() > 0,
        state.next_action() is Wait ==> state.running.len() > 0,
        !(state.next_action() is Finished),
{
}

/// The caller is told that the run is over exactly when it is, and then
/// every task has its outcome.
pub proof fn lemma_finished_means_done(state: SchedulerState)
    requires
        state.wf(),
    ensures
        state.next_action() is Finished <==> state.finished(),
        state.finished() ==> state.outcomes.len() == state.tasks.len(),
{
}

/// Every step that changes the state brings the run nearer to its end: a
/// task that is taken and an accepted completion each lower the number of
/// steps left.
pub proof fn lemma_steps_left_decrease(state: SchedulerState, step: Step)
    requires
        state.wf(),
    ensures
        state.after_step(step) == state || state.after_step(step).steps_left()
            < state.steps_left(),
        state.finished() <==> state.steps_left() == 0,
{
}

/// A copy is started for the first task that has not been taken, and for no
/// other: the task was decoded and waiting before the step and is running
/// after it.
pub proof fn lemma_start_takes_next_task(state: SchedulerState)
    requires
        state.wf(),
        state.next_action() is Start,
    ensures
        state.next_action()->Start_0.row == state.started + 1,
        state.state_of(state.started + 1) is Decoded,
        state.after_next().state_of(state.started + 1) is Running,
        state.after_next().started == state.started + 1,
{
    let next = state.after_next();
    let row = state.tasks[state.started as int].row;
    assert(next.running[state.running.len() as int] == row);
}

/// A rejected row has failed without ever running.
pub proof fn lemma_rejection_fails_next_task(state: SchedulerState)
    requires
        state.wf(),
        state.next_action() is Rejected,
    ensures
        state.next_action()->row == state.started + 1,
        state.state_of(state.started + 1) is DecodeFailed,
        state.after_next().state_of(state.started + 1) is Failed,
        state.after_next().running == state.running,
{
    let next = state.after_next();
    let row: nat = state.started + 1;
    assert forall|k: int| 0 <= k < state.running.len() implies state.running[k] != row by {
        assert(state.running_fits(k));
    }
    assert forall|j: int| 0 <= j < next.outcomes.len() && next.outcomes[j].row == row implies
        !next.outcomes[j].succeeded() by {
        if j < state.outcomes.len() {
            assert(state.outcome_fits(j));
        }
    }
}

/// Whether the running rows and the rows with a success are the same in both
/// states, but for one row.
spec fn same_but(before: SchedulerState, after: SchedulerState, row: nat) -> bool {
    &&& forall|other: nat|
        other != row ==> (#[trigger] after.running.contains(other) <==> before.running.contains(
            other,
        ))
    &&& forall|other: nat|
        other != row ==> (#[trigger] after.has_success(other) <==> before.has_success(other))
}

/// Taking a task changes the standing of that task alone.
proof fn lemma_next_touches_one_row(state: SchedulerState)
    requires
        state.wf(),
        state.can_take(),
    ensures
        same_but(state, state.after_next(), state.started + 1),
{
    let next = state.after_next();
    let row: nat = state.started + 1;
    assert(state.tasks[state.started as int].row == row);
    assert forall|other: nat| other != row implies (#[trigger] next.running.contains(other)
        <==> state.running.contains(other)) by {
        if next.running.contains(other) {
            let k = choose|k: int| 0 <= k < next.running.len() && next.running[k] == other;
            assert(state.running[k] == other);
        }
        if state.running.contains(other) {
            let k = choose|k: int| 0 <= k < state.running.len() && state.running[k] == other;
            assert(next.running[k] == other);
        }
    }
    assert forall|other: nat| other != row implies (#[trigger] next.has_success(other)
        <==> state.has_success(other)) by {
        if next.has_success(other) {
            let j = choose|j: int|
                0 <= j < next.outcomes.len() && (#[trigger] next.outcomes[j]).row == other
                    && next.outcomes[j].succeeded();
            assert(state.outcomes[j] == next.outcomes[j]);
        }
        if state.has_success(other) {
            let j = choose|j: int|
                0 <= j < state.outcomes.len() && (#[trigger] state.outcomes[j]).row == other
                    && state.outcomes[j].succeeded();
            assert(next.outcomes[j] == state.outcomes[j]);
        }
    }
}

/// An accepted completion changes the standing of its row alone.
proof fn lemma_completion_touches_one_row(
    state: SchedulerState,
    row: nat,
    result: Result<(), Seq<char>>,
)
    requires
        state.wf(),
        state.expects(row),
    ensures
        same_but(state, state.after_completion(row, result), row),
        !state.after_completion(row, result).running.contains(row),
        state.after_completion(row, result).has_success(row) <==> result is Ok,
{
    let next = state.after_completion(row, result);
    let at = state.running.index_of(row);
    assert(0 <= at < state.running.len() && state.running[at] == row);
    assert forall|k: int| 0 <= k < next.running.len() implies next.running[k]
        == state.running[if k < at {
        k
    } else {
        k + 1
    }] by {}
    assert forall|j: int| 0 <= j < state.outcomes.len() implies state.outcomes[j].row != row by {
        assert(state.outcome_fits(j));
    }
    if next.running.contains(row) {
        let k = choose|k: int| 0 <= k < next.running.len() && next.running[k] == row;
        assert(false);
    }
    let last = state.outcomes.len() as int;
    assert(next.outcomes[last] == completion(row, result));
    if next.has_success(row) {
        let j = choose|j: int|
            0 <= j < next.outcomes.len() && (#[trigger] next.outcomes[j]).row == row
                && next.outcomes[j].succeeded();
        if j < last {
            assert(state.outcomes[j] == next.outcomes[j]);
        }
    }
    assert forall|other: nat| other != row implies (#[trigger] next.running.contains(other)
        <==> state.running.contains(other)) by {
        if next.running.contains(other) {
            let k = choose|k: int| 0 <= k < next.running.len() && next.running[k] == other;
            let origin = if k < at {
                k
            } else {
                k + 1
            };
            assert(state.running[origin] == other);
        }
        if state.running.contains(other) {
            let k = choose|k: int| 0 <= k < state.running.len() && state.running[k] == other;
            let target = if k < at {
                k
            } else {
                k - 1
            };
            assert(next.running[target] == other);
        }
    }
    assert forall|other: nat| other != row implies (#[trigger] next.has_success(other)
        <==> state.has_success(other)) by {
        if next.has_success(other) {
            let j = choose|j: int|
                0 <= j < next.outcomes.len() && (#[trigger] next.outcomes[j]).row == other
                    && next.outcomes[j].succeeded();
            assert(state.outcomes[j] == next.outcomes[j]);
        }
        if state.has_success(other) {
            let j = choose|j: int|
                0 <= j < state.outcomes.len() && (#[trigger] state.outcomes[j]).row == other
                    && state.outcomes[j].succeeded();
            assert(next.outcomes[j] == state.outcomes[j]);
        }
    }
}

/// Tasks only move forward. In one step a task keeps its state or passes to
/// a later one: a decoded task to running, a running task to completed or
/// failed, a task that did not decode to failed. No task runs twice, and none
/// leaves a final state.
pub proof fn lemma_tasks_only_advance(state: SchedulerState, step: Step, row: nat)
    requires
        state.wf(),
        1 <= row <= state.tasks.len(),
    ensures
        state.after_step(step).state_of(row) == state.state_of(row) || may_become(
            state.state_of(row),
            state.after_step(step).state_of(row),
        ),
{
    let next = state.after_step(step);
    match step {
        Step::Next => {
            if state.can_take() {
                lemma_next_touches_one_row(state);
                if row == state.started + 1 {
                    if state.next_action() is Start {
                        lemma_start_takes_next_task(state);
                    } else {
                        lemma_rejection_fails_next_task(state);
                    }
                } else {
                    assert(next.running.contains(row) <==> state.running.contains(row));
                    assert(next.has_success(row) <==> state.has_success(row));
                }
            }
        },
        Step::Complete { row: done, result } => {
            if state.expects(done) {
                lemma_completion_touches_one_row(state, done, result);
                if row == done {
                    let at = state.running.index_of(done);
                    assert(0 <= at < state.running.len() && state.running[at] == done);
                    assert(state.running_fits(at));
                } else {
                    assert(next.running.contains(row) <==> state.running.contains(row));
                    assert(next.has_success(row) <==> state.has_success(row));
                }
            }
        },
    }
}

/// A task that did not decode never runs and is never counted as copied.
pub proof fn lemma_undecoded_rows_never_run(state: SchedulerState, row: nat)
    requires
        state.wf(),
        1 <= row <= state.tasks.len(),
        state.task(row).instruction is Err,
    ensures
        state.state_of(row) is DecodeFailed || state.state_of(row) is Failed,
{
    if row <= state.started {
        if state.running.contains(row) {
            let k = choose|k: int| 0 <= k < state.running.len() && state.running[k] == row;
            assert(state.running_fits(k));
        }
        if state.has_success(row) {
            let j = choose|j: int|
                0 <= j < state.outcomes.len() && (#[trigger] state.outcomes[j]).row == row
                    && state.outcomes[j].succeeded();
            assert(state.outcome_fits(j));
        }
    }
}

/// With a bound of one, a task is started only when every task before it has
/// its outcome: nothing is running, and the outcomes so far are those of the
/// rows before it, in input order.
pub proof fn lemma_sequential_start_follows_outcomes(state: SchedulerState)
    requires
        state.wf(),
        state.bound == 1,
        state.next_action() is Start,
    ensures
        state.running.len() == 0,
        state.outcomes.len() == state.next_action()->Start_0.row - 1,
        state.in_input_order(),
{
}

/// The scheduler never idles below the bound: the caller is told to wait
/// only when as many tasks are running as the bound allows, or when every
/// task has been taken.
pub proof fn lemma_wait_only_when_full_or_exhausted(state: SchedulerState)
    requires
        state.wf(),
        state.next_action() is Wait,
    ensures
        state.running.len() == state.bound || state.started == state.tasks.len(),
        state.running.len() > 0,
        state.after_next() == state,
{
}

/// The counts of a run do not depend on the order in which its copies
/// complete: two runs whose rows ended the same way, in whatever order, have
/// the same counts.
pub proof fn lemma_counts_ignore_completion_order(first: SchedulerState, second: SchedulerState)
    requires
        first.wf(),
        second.wf(),
        forall|outcome: OutcomeView|
            first.outcomes.contains(outcome) <==> second.outcomes.contains(outcome),
    ensures
        first.outcomes.len() == second.outcomes.len(),
        count_ok(first.outcomes) == count_ok(second.outcomes),
        count_err(first.outcomes) == count_err(second.outcomes),
{
    let left = first.outcomes;
    let right = second.outcomes;
    assert(left.no_duplicates()) by {
        assert forall|i: int, j: int| 0 <= i < left.len() && 0 <= j < left.len() && i
            != j implies left[i] != left[j] by {
            if i < j {
                assert(left[i].row != left[j].row);
            } else {
                assert(left[j].row != left[i].row);
            }
        }
    }
    assert(right.no_duplicates()) by {
        assert forall|i: int, j: int| 0 <= i < right.len() && 0 <= j < right.len() && i
            != j implies right[i] != right[j] by {
            if i < j {
                assert(right[i].row != right[j].row);
            } else {
                assert(right[j].row != right[i].row);
            }
        }
    }
    left.lemma_multiset_has_no_duplicates();
    right.lemma_multiset_has_no_duplicates();
    left.to_multiset_ensures();
    right.to_multiset_ensures();
    assert forall|outcome: OutcomeView|
        left.to_multiset().count(outcome) == right.to_multiset().count(outcome) by {
        if left.contains(outcome) {
            assert(right.contains(outcome));
            assert(left.to_multiset().contains(outcome));
            assert(right.to_multiset().contains(outcome));
        } else {
            assert(!right.contains(outcome));
        }
    }
    assert(left.to_multiset() =~= right.to_multiset());
    lemma_tally_ignores_order(left, right);
}

} // verus!
