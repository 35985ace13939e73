//! What becomes of a task: the outcome of one row.

use crate::record::{DecodeError, DecodeErrorView};
use vstd::prelude::*;

verus! {

/// The failure of a remote copy. The object store's reason is kept as text
/// and never looked into.
#[derive(Debug, PartialEq, Eq)]
pub struct CopyError {
    pub message: String,
}

impl View for CopyError {
    type V = Seq<char>;

    open spec fn view(&self) -> Seq<char> {
        self.message@
    }
}

impl Clone for CopyError {
    fn clone(&self) -> (copy: Self)
        ensures
            copy == *self,
    {
        CopyError { message: self.message.clone() }
    }
}

/// Why a row failed: it could not be decoded, or its copy failed.
#[derive(Debug, PartialEq, Eq)]
pub enum RowError {
    Decode(DecodeError),
    Copy(CopyError),
}

/// The content of a [`RowError`].
pub enum RowErrorView {
    Decode(DecodeErrorView),
    Copy(Seq<char>),
}

impl View for RowError {
    type V = RowErrorView;

    open spec fn view(&self) -> RowErrorView {
        match self {
            RowError::Decode(error) => RowErrorView::Decode(error@),
            RowError::Copy(error) => RowErrorView::Copy(error@),
        }
    }
}

impl Clone for RowError {
    fn clone(&self) -> (copy: Self)
        ensures
            copy == *self,
    {
        match self {
            RowError::Decode(error) => RowError::Decode(error.clone()),
            RowError::Copy(error) => RowError::Copy(error.clone()),
        }
    }
}

/// The outcome of one task, under the number of the row it came from.
#[derive(Debug, PartialEq, Eq)]
pub struct CopyOutcome {
    pub row: u64,
    pub result: Result<(), RowError>,
}

/// The content of a [`CopyOutcome`].
pub struct OutcomeView {
    pub row: nat,
    pub result: Result<(), RowErrorView>,
}

impl OutcomeView {
    /// Whether the row was copied.
    pub open spec fn succeeded(self) -> bool {
        self.result is Ok
    }
}

impl View for CopyOutcome {
    type V = OutcomeView;

    open spec fn view(&self) -> OutcomeView {
        OutcomeView {
            row: self.row as nat,
            result: match self.result {
                Ok(_) => Ok(()),
                Err(error) => Err(error@),
            },
        }
    }
}

impl Clone for CopyOutcome {
    fn clone(&self) -> (copy: Self)
        ensures
            copy == *self,
    {
        CopyOutcome {
            row: self.row,
            result: match &self.result {
                Ok(done) => Ok(*done),
                Err(error) => Err(error.clone()),
            },
        }
    }
}

impl CopyOutcome {
    /// Whether the row was copied.
    pub fn is_ok(&self) -> (ok: bool)
        ensures
            ok == self@.succeeded(),
    {
        match &self.result {
            Ok(_) => true,
            Err(_) => false,
        }
    }
}

/// The content of each outcome.
pub open spec fn outcome_views(outcomes: Seq<CopyOutcome>) -> Seq<OutcomeView> {
    outcomes.map_values(|outcome: CopyOutcome| outcome@)
}

} // verus!
