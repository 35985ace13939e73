//! The scheduler: the state of a run, and the two steps that drive it.
//!
//! The scheduler requests nothing itself. Its caller asks what to do next,
//! requests the copy it is handed, and reports each completion; the scheduler
//! decides what may start and keeps the outcomes.

use crate::address::CopyRequest;
use crate::config::RunConfig;
use crate::outcome::{outcome_views, CopyError, CopyOutcome, RowError};
use crate::record::{are_numbered, rows_numbered, task_views, CopyTask, DecodeError};
use crate::schedule::{
    lemma_completion_preserves_wf, lemma_counts_cover_the_tasks, lemma_index_of_unique,
    lemma_initial_wf, lemma_next_preserves_wf, ActionView, SchedulerState,
};
use crate::tally::{count_err, count_ok, RunResult};
use vstd::prelude::*;

verus! {

/// What the caller is to do next.
#[derive(Debug, PartialEq, Eq)]
pub enum Action {
    /// Request this copy, and report its completion under the request's row.
    Start(CopyRequest),
    /// The row did not decode. Its failure has been recorded; nothing is to
    /// be requested for it.
    Rejected { row: u64, error: DecodeError },
    /// Nothing can be started: wait for a running copy to complete.
    Wait,
    /// Every task has its outcome.
    Finished,
}

impl View for Action {
    type V = ActionView;

    open spec fn view(&self) -> ActionView {
        match self {
            Action::Start(request) => ActionView::Start(request@),
            Action::Rejected { row, error } => ActionView::Rejected {
                row: *row as nat,
                error: error@,
            },
            Action::Wait => ActionView::Wait,
            Action::Finished => ActionView::Finished,
        }
    }
}

/// What the caller reports of a copy, as text.
pub open spec fn report_view(result: Result<(), CopyError>) -> Result<(), Seq<char>> {
    match result {
        Ok(_) => Ok(()),
        Err(error) => Err(error@),
    }
}

/// The rows as numbers.
pub open spec fn row_numbers(rows: Seq<u64>) -> Seq<nat> {
    rows.map_values(|row: u64| row as nat)
}

/// A run: its tasks, what is running, and the outcomes so far.
pub struct Scheduler {
    tasks: Vec<CopyTask>,
    bound: usize,
    started: usize,
    running: Vec<u64>,
    outcomes: Vec<CopyOutcome>,
}

impl View for Scheduler {
    type V = SchedulerState;

    closed spec fn view(&self) -> SchedulerState {
        SchedulerState {
            tasks: task_views(self.tasks@),
            bound: self.bound as nat,
            started: self.started as nat,
            running: row_numbers(self.running@),
            outcomes: outcome_views(self.outcomes@),
        }
    }
}

/// Where the row stands among the running rows.
fn position(running: &Vec<u64>, row: u64) -> (found: Option<usize>)
    ensures
        match found {
            Some(at) => at < running@.len() && running@[at as int] == row,
            None => !row_numbers(running@).contains(row as nat),
        },
{
    let mut i: usize = 0;
    while i < running.len()
        invariant
            i <= running.len(),
            forall|k: int| 0 <= k < i ==> running@[k] != row,
        decreases running.len() - i,
    {
        if running[i] == row {
            return Some(i);
        }
        i = i + 1;
    }
    None
}

impl Scheduler {
    /// Sets up a run of the tasks under the bound that the configuration
    /// gives. The tasks must be numbered from one in input order, as the
    /// decoder numbers them; other tasks are refused.
    pub fn new(config: &RunConfig, tasks: Vec<CopyTask>) -> (scheduler: Option<Scheduler>)
        ensures
            scheduler is Some <==> rows_numbered(task_views(tasks@)),
            scheduler matches Some(run) ==> run@ == SchedulerState::initial(
                task_views(tasks@),
                config.bound(),
            ) && run@.wf(),
    {
        if !are_numbered(&tasks) {
            return None;
        }
        let bound = config.effective_bound();
        let run = Scheduler {
            tasks,
            bound,
            started: 0,
            running: Vec::new(),
            outcomes: Vec::new(),
        };
        proof {
            assert(run@.running =~= Seq::<nat>::empty());
            assert(run@.outcomes =~= Seq::empty());
            lemma_initial_wf(run@.tasks, run@.bound);
        }
        Some(run)
    }

    /// Says what the caller is to do next, and takes the next task where one
    /// can be taken. A task whose row decoded is started: the caller gets its
    /// request. A task whose row did not decode fails at once, without a
    /// request. Where the bound is reached, or all tasks are taken and some
    /// still run, the caller is to wait for a completion.
    pub fn next_action(&mut self) -> (action: Action)
        requires
            old(self)@.wf(),
        ensures
            action@ == old(self)@.next_action(),
            final(self)@ == old(self)@.after_next(),
            final(self)@.wf(),
    {
        proof {
            lemma_next_preserves_wf(self@);
        }
        if self.started < self.tasks.len() && self.running.len() < self.bound {
            let ghost before = self@;
            let row: u64 = self.tasks[self.started].row;
            assert(task_views(self.tasks@)[self.started as int] == self.tasks@[self.started as int]@);
            match &self.tasks[self.started].instruction {
                Ok(instruction) => {
                    let request = CopyRequest::new(row, instruction);
                    self.running.push(row);
                    self.started = self.started + 1;
                    assert(self@.running =~= before.running.push(row as nat));
                    Action::Start(request)
                },
                Err(error) => {
                    let reported = error.clone();
                    let recorded = error.clone();
                    self.outcomes.push(CopyOutcome { row, result: Err(RowError::Decode(recorded)) });
                    self.started = self.started + 1;
                    assert(self@.outcomes =~= before.after_next().outcomes);
                    Action::Rejected { row, error: reported }
                },
            }
        } else if self.running.len() > 0 {
            Action::Wait
        } else {
            Action::Finished
        }
    }

    /// Takes the report that the copy of a row has completed. Where the row
    /// is running, its outcome is recorded and its place is free again. A
    /// report for a row that is not running is refused and changes nothing.
    pub fn complete(&mut self, row: u64, result: Result<(), CopyError>) -> (accepted: bool)
        requires
            old(self)@.wf(),
        ensures
            accepted == old(self)@.expects(row as nat),
            final(self)@ == old(self)@.after_completion(row as nat, report_view(result)),
            final(self)@.wf(),
    {
        let ghost before = self@;
        proof {
            lemma_completion_preserves_wf(before, row as nat, report_view(result));
        }
        match position(&self.running, row) {
            Some(at) => {
                proof {
                    lemma_index_of_unique(before.running, at as int);
                }
                let ghost report = report_view(result);
                self.running.remove(at);
                let recorded = match result {
                    Ok(_) => Ok(()),
                    Err(error) => Err(RowError::Copy(error)),
                };
                self.outcomes.push(CopyOutcome { row, result: recorded });
                assert(self@.running =~= before.running.remove(at as int));
                assert(self@.outcomes =~= before.after_completion(row as nat, report).outcomes);
                true
            },
            None => false,
        }
    }

    /// Whether the run is over: every task taken, none running.
    pub fn is_finished(&self) -> (finished: bool)
        ensures
            finished == self@.finished(),
    {
        self.started == self.tasks.len() && self.running.len() == 0
    }

    /// The number of tasks of the run.
    pub fn submitted(&self) -> (count: usize)
        ensures
            count == self@.tasks.len(),
    {
        self.tasks.len()
    }

    /// The number of tasks that may run at the same time.
    pub fn bound(&self) -> (bound: usize)
        ensures
            bound == self@.bound,
    {
        self.bound
    }

    /// The number of tasks that are running.
    pub fn running(&self) -> (count: usize)
        ensures
            count == self@.running.len(),
    {
        self.running.len()
    }

    /// The outcomes so far, in the order in which they came. While the run
    /// is not over they are a part of its outcomes only; they serve to report
    /// each failure when it happens.
    pub fn outcomes(&self) -> (outcomes: &Vec<CopyOutcome>)
        ensures
            outcome_views(outcomes@) == self@.outcomes,
    {
        &self.outcomes
    }

    /// The counts of the run, once it is over. A run that is not over has no
    /// result.
    pub fn result(&self) -> (result: Option<RunResult>)
        requires
            self@.wf(),
        ensures
            result is Some <==> self@.finished(),
            result matches Some(counts) ==> {
                &&& counts.ok_cnt == count_ok(self@.outcomes)
                &&& counts.err_cnt == count_err(self@.outcomes)
                &&& counts.ok_cnt + counts.err_cnt == self@.tasks.len()
            },
    {
        if self.is_finished() {
            proof {
                lemma_counts_cover_the_tasks(self@);
            }
            Some(RunResult::tally(&self.outcomes))
        } else {
            None
        }
    }

    /// Ends the run and hands over its outcomes, one for each task, in the
    /// order in which they came. A run that is not over hands over nothing.
    pub fn finish(self) -> (outcomes: Option<Vec<CopyOutcome>>)
        requires
            self@.wf(),
        ensures
            outcomes is Some <==> self@.finished(),
            outcomes matches Some(all) ==> outcome_views(all@) == self@.outcomes && all@.len()
                == self@.tasks.len(),
    {
        if self.is_finished() {
            Some(self.outcomes)
        } else {
            None
        }
    }
}

} // verus!
