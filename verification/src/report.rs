//! The lines that a run writes: one for each failed row, one before each copy
//! where that is asked for, and the summary at the end.

use crate::address::{CopyRequest, RequestView};
use crate::config::RunConfig;
use crate::outcome::{CopyOutcome, OutcomeView, RowError, RowErrorView};
use crate::record::{DecodeError, DecodeErrorView};
use crate::tally::RunResult;
use vstd::prelude::*;
use vstd::string::StringExecFns;

verus! {

/// The decimal digit of a number below ten.
pub open spec fn digit(value: nat) -> char {
    ((0x30 + value) as u8) as char
}

/// The decimal numeral of a number, without leading zeros.
pub open spec fn decimal(value: nat) -> Seq<char>
    decreases value,
{
    if value < 10 {
        seq![digit(value)]
    } else {
        decimal(value / 10).push(digit(value % 10))
    }
}

/// The text of a digit.
fn digit_text(value: u8) -> (text: &'static str)
    requires
        value < 10,
    ensures
        text@ == seq![digit(value as nat)],
{
    proof {
        reveal_strlit("0");
        reveal_strlit("1");
        reveal_strlit("2");
        reveal_strlit("3");
        reveal_strlit("4");
        reveal_strlit("5");
        reveal_strlit("6");
        reveal_strlit("7");
        reveal_strlit("8");
        reveal_strlit("9");
    }
    let text = match value {
        0 => "0",
        1 => "1",
        2 => "2",
        3 => "3",
        4 => "4",
        5 => "5",
        6 => "6",
        7 => "7",
        8 => "8",
        _ => "9",
    };
    assert(text@ =~= seq![digit(value as nat)]);
    text
}

/// Writes a number as a decimal numeral.
pub fn decimal_text(value: u64) -> (text: String)
    ensures
        text@ == decimal(value as nat),
    decreases value,
{
    let last = digit_text((value % 10) as u8);
    if value < 10 {
        String::from_str(last)
    } else {
        let text = decimal_text(value / 10).concat(last);
        assert(text@ =~= decimal(value as nat));
        text
    }
}

/// What a decode error says.
pub open spec fn decode_error_text(error: DecodeErrorView) -> Seq<char> {
    match error {
        DecodeErrorView::FieldCount { found } => "expected 3 or 4 fields, found "@ + decimal(found),
        DecodeErrorView::Malformed { diagnostic } => diagnostic,
    }
}

/// What the error of a row says: the decode error, or the object store's
/// reason as it came.
pub open spec fn row_error_text(error: RowErrorView) -> Seq<char> {
    match error {
        RowErrorView::Decode(error) => decode_error_text(error),
        RowErrorView::Copy(reason) => reason,
    }
}

/// The line that reports a failed row: the row number, a colon and a space,
/// and what the error says. A row that was copied has no such line.
pub open spec fn failure_text(outcome: OutcomeView) -> Option<Seq<char>> {
    match outcome.result {
        Ok(_) => None,
        Err(error) => Some(decimal(outcome.row) + ": "@ + row_error_text(error)),
    }
}

/// The line that announces a copy: the time, the source as the row names it,
/// and the destination.
pub open spec fn progress_text(timestamp: Seq<char>, request: RequestView) -> Seq<char> {
    timestamp + " copy from "@ + request.source + " to "@ + request.dst_bucket + "/"@
        + request.dst_key
}

/// The line that sums up a run.
pub open spec fn summary_text(ok_cnt: nat, err_cnt: nat, elapsed_secs: nat) -> Seq<char> {
    "Copied: "@ + decimal(ok_cnt) + "  Errors: "@ + decimal(err_cnt) + "  took "@ + decimal(
        elapsed_secs,
    ) + "s"@
}

impl DecodeError {
    /// What the error says.
    pub fn message(&self) -> (text: String)
        ensures
            text@ == decode_error_text(self@),
    {
        match self {
            DecodeError::FieldCount { found } => {
                let count = decimal_text(*found as u64);
                String::from_str("expected 3 or 4 fields, found ").concat(count.as_str())
            },
            DecodeError::Malformed { diagnostic } => diagnostic.clone(),
        }
    }
}

impl RowError {
    /// What the error says.
    pub fn message(&self) -> (text: String)
        ensures
            text@ == row_error_text(self@),
    {
        match self {
            RowError::Decode(error) => error.message(),
            RowError::Copy(error) => error.message.clone(),
        }
    }
}

impl CopyOutcome {
    /// The line that reports the row where it failed, and nothing where it
    /// was copied.
    pub fn failure_line(&self) -> (line: Option<String>)
        ensures
            match line {
                Some(text) => failure_text(self@) == Some(text@),
                None => failure_text(self@) is None,
            },
    {
        match &self.result {
            Ok(_) => None,
            Err(error) => {
                let reason = error.message();
                Some(decimal_text(self.row).concat(": ").concat(reason.as_str()))
            },
        }
    }
}

/// Writes the line that announces a copy at the given time.
pub fn progress_line(timestamp: &str, request: &CopyRequest) -> (line: String)
    ensures
        line@ == progress_text(timestamp@, request@),
{
    String::from_str(timestamp).concat(" copy from ").concat(request.source.as_str()).concat(
        " to ",
    ).concat(request.dst_bucket.as_str()).concat("/").concat(request.dst_key.as_str())
}

/// Reads the clock: `chrono::Local::now`, written by
/// `DateTime::to_rfc3339_opts` with milliseconds and a numeric offset.
/// Trusted, and nothing is claimed of the text: it depends on the clock and
/// on the time zone of the machine. `Local::now` panics where the clock
/// stands before 1970.
#[verifier::external_body]
fn local_timestamp() -> (timestamp: String) {
    chrono::Local::now().to_rfc3339_opts(chrono::SecondsFormat::Millis, false)
}

/// The line to write before a copy is requested: where the run is verbose,
/// the announcement of the copy at the time of the call; otherwise none.
pub fn announce(config: &RunConfig, request: &CopyRequest) -> (line: Option<String>)
    ensures
        line is Some <==> config.show_verbose,
        line matches Some(text) ==> exists|timestamp: Seq<char>|
            text@ == progress_text(timestamp, request@),
{
    if config.show_verbose {
        let timestamp = local_timestamp();
        Some(progress_line(timestamp.as_str(), request))
    } else {
        None
    }
}

/// Writes the line that sums up a run that took the given number of seconds.
pub fn summary_line(result: &RunResult, elapsed_secs: u64) -> (line: String)
    ensures
        line@ == summary_text(result.ok_cnt as nat, result.err_cnt as nat, elapsed_secs as nat),
{
    let copied = decimal_text(result.ok_cnt as u64);
    let errors = decimal_text(result.err_cnt as u64);
    let seconds = decimal_text(elapsed_secs);
    String::from_str("Copied: ").concat(copied.as_str()).concat("  Errors: ").concat(
        errors.as_str(),
    ).concat("  took ").concat(seconds.as_str()).concat("s")
}

} // verus!
