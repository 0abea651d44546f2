//! Counts the timestamps found in lines of text by buckets of time.
//!
//! A format string in the manner of `strftime` is compiled into a search
//! pattern, which finds a timestamp in a line, and a parser, which reads it as
//! an instant in UTC. The instant is floored to the start of its bucket, and
//! the entries of each bucket are counted: all at once, for a table at the
//! end, or as a stream, in which each bucket is listed as soon as it closes.

pub mod agreement;
pub mod counts;
pub mod emit;
pub mod extract;
pub mod format;
pub mod granularity;
pub mod instant;
pub mod items;
pub mod pattern;
pub mod run;
pub mod runner;
pub mod settings;
pub mod table;
pub mod text;
