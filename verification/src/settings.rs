use vstd::prelude::*;
use crate::granularity::{parsed_granularity, Granularity};
use crate::text::{decimal_usize, parse_decimal_usize};

verus! {

/// Whether the counts are printed at the end or as the buckets close.
#[derive(Debug, Clone, Copy, PartialEq, Eq, Structural)]
pub enum Mode {
    Normal,
    Stream,
}

/// The order in which entries are expected in stream mode, and in which
/// buckets are listed in normal mode.
#[derive(Debug, Clone, Copy, PartialEq, Eq, Structural)]
pub enum DateTimeOrder {
    Ascending,
    Descending,
}

/// The settings of a run.
#[derive(Debug, Clone, Copy, PartialEq, Eq, Structural)]
pub struct Args {
    pub match_index: usize,
    pub granularity: Granularity,
    pub fill_empty_buckets: bool,
    pub mode: Mode,
    pub order: DateTimeOrder,
    pub tolerant: bool,
}

/// Why the options of a run cannot be used.
#[derive(Debug, Clone, Copy, PartialEq, Eq, Structural)]
pub enum OptionError {
    /// The index of the match is no number that fits in a machine word.
    MatchIndex,
    /// The granularity is no positive count of seconds, minutes or hours.
    Granularity,
    /// Entries out of order are to be tolerated, which only stream mode can
    /// do, but the mode is normal.
    Tolerance,
}

/// The settings that the options of a run stand for, or the first reason why
/// they cannot be used.
pub open spec fn settings(
    match_index: Seq<char>,
    granularity: Seq<char>,
    no_fill: bool,
    stream: bool,
    descending: bool,
    tolerant: bool,
) -> Result<Args, OptionError> {
    match (decimal_usize(match_index), parsed_granularity(granularity)) {
        (None, _) => Err(OptionError::MatchIndex),
        (Some(_), None) => Err(OptionError::Granularity),
        (Some(index), Some(width)) => if tolerant && !stream {
            Err(OptionError::Tolerance)
        } else {
            Ok(
                Args {
                    match_index: index,
                    granularity: width,
                    fill_empty_buckets: !no_fill,
                    mode: if stream {
                        Mode::Stream
                    } else {
                        Mode::Normal
                    },
                    order: if descending {
                        DateTimeOrder::Descending
                    } else {
                        DateTimeOrder::Ascending
                    },
                    tolerant,
                },
            )
        },
    }
}

impl Args {
    /// The settings for the options as they were given: the index of the
    /// match and the granularity as text, the rest as switches.
    pub fn from_options(
        match_index: &str,
        granularity: &str,
        no_fill: bool,
        stream: bool,
        descending: bool,
        tolerant: bool,
    ) -> (args: Result<Args, OptionError>)
        ensures
            args == settings(match_index@, granularity@, no_fill, stream, descending, tolerant),
            args matches Ok(made) ==> made.granularity.wf(),
    {
        let index = match parse_decimal_usize(match_index) {
            Some(index) => index,
            None => {
                return Err(OptionError::MatchIndex);
            },
        };
        let width = match Granularity::parse(granularity) {
            Some(width) => width,
            None => {
                return Err(OptionError::Granularity);
            },
        };
        if tolerant && !stream {
            return Err(OptionError::Tolerance);
        }
        Ok(
            Args {
                match_index: index,
                granularity: width,
                fill_empty_buckets: !no_fill,
                mode: if stream {
                    Mode::Stream
                } else {
                    Mode::Normal
                },
                order: if descending {
                    DateTimeOrder::Descending
                } else {
                    DateTimeOrder::Ascending
                },
                tolerant,
            },
        )
    }
}

} // verus!
