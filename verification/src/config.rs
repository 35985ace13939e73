//! Settings of one batch run.

use vstd::prelude::*;

verus! {

/// The bound on in-flight copies that is used when none is given.
pub const DEFAULT_MAX_PENDING: usize = 128;

/// How a batch is run.
#[derive(Debug, PartialEq, Eq)]
pub struct RunConfig {
    /// Copy one object at a time, in input order.
    pub sync: bool,
    /// Announce each copy before it is requested.
    pub show_verbose: bool,
    /// Upper limit of copies in flight at the same time.
    pub max_pending: usize,
}

impl RunConfig {
    /// Whether tasks run one at a time: when that is asked for, or when the
    /// limit leaves room for one task only.
    pub open spec fn sequential(&self) -> bool {
        self.sync || self.max_pending <= 1
    }

    /// The number of tasks that may be running at the same time.
    pub open spec fn bound(&self) -> nat {
        if self.sequential() {
            1
        } else {
            self.max_pending as nat
        }
    }

    /// Whether tasks run one at a time.
    pub fn is_sequential(&self) -> (sequential: bool)
        ensures
            sequential == self.sequential(),
    {
        self.sync || self.max_pending <= 1
    }

    /// The number of tasks that may be running at the same time.
    pub fn effective_bound(&self) -> (bound: usize)
        ensures
            bound == self.bound(),
            bound >= 1,
            bound == 1 <==> self.sequential(),
    {
        if self.is_sequential() {
            1
        } else {
            self.max_pending
        }
    }
}

impl Clone for RunConfig {
    fn clone(&self) -> (copy: Self)
        ensures
            copy == *self,
    {
        RunConfig { sync: self.sync, show_verbose: self.show_verbose, max_pending: self.max_pending }
    }
}

impl Default for RunConfig {
    fn default() -> (config: Self)
        ensures
            config == (RunConfig { sync: false, show_verbose: false, max_pending: DEFAULT_MAX_PENDING }),
    {
        RunConfig { sync: false, show_verbose: false, max_pending: DEFAULT_MAX_PENDING }
    }
}

} // verus!
