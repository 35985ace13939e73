//! The runner: the settings of a batch, and the start of a run over an input.

use crate::config::RunConfig;
use crate::reader::{csv_rows, decode_rows};
use crate::record::tasks_of_rows;
use crate::schedule::SchedulerState;
use crate::scheduler::Scheduler;
use vstd::prelude::*;

verus! {

/// Runs batches under one configuration. The runner holds no connection to
/// the object store: a run hands out the requests, and its caller sends them.
pub struct Runner {
    config: RunConfig,
}

impl View for Runner {
    type V = RunConfig;

    closed spec fn view(&self) -> RunConfig {
        self.config
    }
}

impl Runner {
    /// A runner with the given configuration.
    pub fn new(config: RunConfig) -> (runner: Runner)
        ensures
            runner@ == config,
    {
        Runner { config }
    }

    /// The configuration of the runner.
    pub fn config(&self) -> (config: &RunConfig)
        ensures
            *config == self@,
    {
        &self.config
    }

    /// Starts a run over an input: decodes its rows into tasks, numbered from
    /// one, and sets up their scheduling under the bound of the
    /// configuration. Nothing has been taken yet, and nothing is requested
    /// here: the caller drives the run with [`Scheduler::next_action`] and
    /// [`Scheduler::complete`], and reads its counts from
    /// [`Scheduler::result`] when it is over.
    pub fn run(&self, input: &[u8]) -> (run: Scheduler)
        ensures
            run@ == SchedulerState::initial(tasks_of_rows(csv_rows(input@)), self@.bound()),
            run@.wf(),
    {
        let tasks = decode_rows(input);
        let started = Scheduler::new(&self.config, tasks);
        started.unwrap()
    }
}

} // verus!
