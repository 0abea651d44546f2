use vstd::prelude::*;
use chrono::format::ParseErrorKind;
use crate::extract::{extraction, CompiledFormat, ExtractError};
use crate::runner::{emitted, next_state, recorded, Runner, RunnerState};
use crate::settings::Args;
use crate::table::{views, Row};

verus! {

/// What a line of input came to.
#[derive(Debug, PartialEq, Eq)]
pub enum LineOutcome {
    /// The line has no timestamp at the wanted place; it is passed over.
    Skipped,
    /// The line has text in the shape of a timestamp that does not read as
    /// a date and time; the line is passed over, and the user is told.
    Unreadable(ParseErrorKind),
    /// The entry of the line is counted, and these rows are due.
    Counted(Vec<Row>),
    /// The entry of the line goes against the expected order, which ends
    /// the run.
    NonMonotonic,
    /// The count of the line's bucket is at the limit of the machine; the
    /// entry is not counted.
    Saturated,
}

/// The outcome with its rows as pairs of a timestamp and a count.
pub enum LineResult {
    Skipped,
    Unreadable(ParseErrorKind),
    Counted(Seq<(int, nat)>),
    NonMonotonic,
    Saturated,
}

impl View for LineOutcome {
    type V = LineResult;

    open spec fn view(&self) -> LineResult {
        match *self {
            LineOutcome::Skipped => LineResult::Skipped,
            LineOutcome::Unreadable(kind) => LineResult::Unreadable(kind),
            LineOutcome::Counted(rows) => LineResult::Counted(views(rows@)),
            LineOutcome::NonMonotonic => LineResult::NonMonotonic,
            LineOutcome::Saturated => LineResult::Saturated,
        }
    }
}

/// What a line comes to, given what was found in it and the state of the
/// run: a line without a timestamp is skipped, one with a timestamp that
/// does not read is reported, and the entry of any other line goes into the
/// bucket that holds its instant.
pub open spec fn line_result(
    found: Result<int, ExtractError>,
    state: RunnerState,
    args: Args,
) -> LineResult {
    match found {
        Err(ExtractError::NoMatch) => LineResult::Skipped,
        Err(ExtractError::ParseFailure(kind)) => LineResult::Unreadable(kind),
        Ok(timestamp) => {
            let bucket = args.granularity.floor(timestamp);
            if recorded(state, bucket) >= u64::MAX {
                LineResult::Saturated
            } else {
                match emitted(state, bucket, args) {
                    Ok(rows) => LineResult::Counted(rows),
                    Err(_) => LineResult::NonMonotonic,
                }
            }
        },
    }
}

/// The state of the run after a line: changed only where the line's entry
/// was counted.
pub open spec fn state_after_line(
    found: Result<int, ExtractError>,
    state: RunnerState,
    args: Args,
) -> RunnerState {
    match found {
        Ok(timestamp) => {
            let bucket = args.granularity.floor(timestamp);
            if recorded(state, bucket) >= u64::MAX {
                state
            } else {
                next_state(state, bucket, args)
            }
        },
        Err(_) => state,
    }
}

/// Takes one line of input through the run: finds its timestamp, floors the
/// instant to its bucket and counts the entry.
pub fn process_line(runner: &mut Runner, format: &CompiledFormat, args: &Args, line: &str) -> (outcome:
    LineOutcome)
    requires
        old(runner).wf(),
        args.granularity.wf(),
    ensures
        final(runner).wf(),
        outcome@ == line_result(
            extraction(format.tokens(), args.match_index as int, line@),
            old(runner)@,
            *args,
        ),
        final(runner)@ == state_after_line(
            extraction(format.tokens(), args.match_index as int, line@),
            old(runner)@,
            *args,
        ),
{
    let instant = match format.extract(args.match_index, line) {
        Ok(instant) => instant,
        Err(ExtractError::NoMatch) => {
            return LineOutcome::Skipped;
        },
        Err(ExtractError::ParseFailure(kind)) => {
            return LineOutcome::Unreadable(kind);
        },
    };
    let bucket = args.granularity.bucketize(&instant);
    if runner.count(&bucket) == u64::MAX {
        return LineOutcome::Saturated;
    }
    match runner.handle_bucket_entry(bucket, args) {
        Ok(rows) => LineOutcome::Counted(rows),
        Err(_) => LineOutcome::NonMonotonic,
    }
}

} // verus!
