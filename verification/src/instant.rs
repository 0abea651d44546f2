use vstd::prelude::*;

verus! {

/// Seconds in a minute.
pub const MINUTE: i64 = 60;

/// Seconds in an hour.
pub const HOUR: i64 = 3_600;

/// The earliest timestamp an `Instant` can hold: midnight, one hundred
/// billion days before the epoch.
pub const MIN_TIMESTAMP: i64 = -8_640_000_000_000_000;

/// The latest timestamp an `Instant` can hold: the last second of the day one
/// hundred billion days after the epoch.
pub const MAX_TIMESTAMP: i64 = 8_640_000_000_086_399;

/// Whether `timestamp` lies in the span that an `Instant` can hold.
pub open spec fn in_span(timestamp: int) -> bool {
    MIN_TIMESTAMP <= timestamp <= MAX_TIMESTAMP
}

/// A point in time in UTC, to the second: the count of seconds since
/// 1970-01-01 00:00:00, leap seconds not counted.
#[derive(Debug, Clone, Copy, PartialEq, Eq, Structural)]
pub struct Instant {
    timestamp: i64,
}

impl View for Instant {
    type V = int;

    /// The instant's timestamp.
    closed spec fn view(&self) -> int {
        self.timestamp as int
    }
}

/// The second within its minute of the instant at `timestamp`.
pub open spec fn second_of(timestamp: int) -> int {
    timestamp % 60
}

/// The minute within its hour of the instant at `timestamp`.
pub open spec fn minute_of(timestamp: int) -> int {
    (timestamp / 60) % 60
}

/// The hour within its day of the instant at `timestamp`.
pub open spec fn hour_of(timestamp: int) -> int {
    (timestamp / 3_600) % 24
}

/// Instants at the same timestamp are the same instant.
pub proof fn lemma_instants_by_timestamp(one: Instant, other: Instant)
    ensures
        one@ == other@ <==> one == other,
{
}

/// Counting from the start of the span instead of from the epoch leaves the
/// readings of the clock as they are, since the span starts at a midnight.
proof fn lemma_clock_from_span_start(timestamp: int)
    ensures
        (timestamp - MIN_TIMESTAMP) % 60 == second_of(timestamp),
        ((timestamp - MIN_TIMESTAMP) / 60) % 60 == minute_of(timestamp),
        ((timestamp - MIN_TIMESTAMP) / 3_600) % 24 == hour_of(timestamp),
{
    let shifted = timestamp - MIN_TIMESTAMP;
    vstd::arithmetic::div_mod::lemma_fundamental_div_mod(timestamp, 60);
    vstd::arithmetic::div_mod::lemma_mod_bound(timestamp, 60);
    vstd::arithmetic::div_mod::lemma_fundamental_div_mod_converse(
        shifted,
        60,
        timestamp / 60 + 144_000_000_000_000,
        timestamp % 60,
    );
    vstd::arithmetic::div_mod::lemma_mod_multiples_vanish(2_400_000_000_000, timestamp / 60, 60);
    vstd::arithmetic::div_mod::lemma_fundamental_div_mod(timestamp, 3_600);
    vstd::arithmetic::div_mod::lemma_mod_bound(timestamp, 3_600);
    vstd::arithmetic::div_mod::lemma_fundamental_div_mod_converse(
        shifted,
        3_600,
        timestamp / 3_600 + 2_400_000_000_000,
        timestamp % 3_600,
    );
    vstd::arithmetic::div_mod::lemma_mod_multiples_vanish(100_000_000_000, timestamp / 3_600, 24);
}

impl Instant {
    /// Whether the instant lies in the span. It holds of every `Instant` that
    /// executable code gets hold of.
    #[verifier::type_invariant]
    pub open spec fn wf(&self) -> bool {
        in_span(self@)
    }

    /// The instant at `timestamp`, where the span holds it.
    pub fn from_timestamp(timestamp: i64) -> (instant: Option<Instant>)
        ensures
            match instant {
                Some(found) => in_span(timestamp as int) && found@ == timestamp,
                None => !in_span(timestamp as int),
            },
    {
        if MIN_TIMESTAMP <= timestamp && timestamp <= MAX_TIMESTAMP {
            Some(Instant { timestamp })
        } else {
            None
        }
    }

    /// The instant at `timestamp`, which the span is known to hold.
    pub(crate) fn at(timestamp: i64) -> (instant: Instant)
        requires
            in_span(timestamp as int),
        ensures
            instant@ == timestamp,
    {
        Instant { timestamp }
    }

    /// The count of seconds since the epoch.
    pub fn timestamp(&self) -> (timestamp: i64)
        ensures
            timestamp == self@,
            in_span(self@),
    {
        proof {
            use_type_invariant(self);
        }
        self.timestamp
    }

    /// The hour of the day, from 0 to 23.
    pub fn hour(&self) -> (hour: u32)
        ensures
            hour == hour_of(self@),
            hour < 24,
    {
        proof {
            use_type_invariant(self);
            lemma_clock_from_span_start(self.timestamp as int);
        }
        let shifted: i64 = self.timestamp - MIN_TIMESTAMP;
        ((shifted / HOUR) % 24) as u32
    }

    /// The minute of the hour, from 0 to 59.
    pub fn minute(&self) -> (minute: u32)
        ensures
            minute == minute_of(self@),
            minute < 60,
    {
        proof {
            use_type_invariant(self);
            lemma_clock_from_span_start(self.timestamp as int);
        }
        let shifted: i64 = self.timestamp - MIN_TIMESTAMP;
        ((shifted / MINUTE) % 60) as u32
    }

    /// The second of the minute, from 0 to 59.
    pub fn second(&self) -> (second: u32)
        ensures
            second == second_of(self@),
            second < 60,
    {
        proof {
            use_type_invariant(self);
            lemma_clock_from_span_start(self.timestamp as int);
        }
        let shifted: i64 = self.timestamp - MIN_TIMESTAMP;
        (shifted % MINUTE) as u32
    }
}

} // verus!
