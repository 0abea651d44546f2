use vstd::prelude::*;
use crate::instant::{
    hour_of, in_span, minute_of, second_of, Instant, HOUR, MAX_TIMESTAMP, MINUTE, MIN_TIMESTAMP,
};
use crate::text::{decimal_u32, find_char, parse_decimal_u32, to_chars};

verus! {

/// The fixed width of a bucket: a positive count of seconds, minutes or hours.
#[derive(Debug, Clone, Copy, PartialEq, Eq, Structural)]
pub enum Granularity {
    Second(u32),
    Minute(u32),
    Hour(u32),
}

/// The count that `numeral` writes: a decimal number of at most 32 bits that
/// is not zero.
pub open spec fn positive_count(numeral: Seq<char>) -> Option<u32> {
    match decimal_u32(numeral) {
        Some(count) if count > 0 => Some(count),
        _ => None,
    }
}

/// The granularity that `text` denotes. The first `s` in `text` makes it a
/// count of seconds; without any `s` the first `m` makes it a count of
/// minutes; without either the first `h` makes it a count of hours. The count
/// is what stands before that letter, and whatever follows it is ignored.
pub open spec fn parsed_granularity(text: Seq<char>) -> Option<Granularity> {
    if let Some(at) = text.index_of_first('s') {
        match positive_count(text.take(at)) {
            Some(count) => Some(Granularity::Second(count)),
            None => None,
        }
    } else if let Some(at) = text.index_of_first('m') {
        match positive_count(text.take(at)) {
            Some(count) => Some(Granularity::Minute(count)),
            None => None,
        }
    } else if let Some(at) = text.index_of_first('h') {
        match positive_count(text.take(at)) {
            Some(count) => Some(Granularity::Hour(count)),
            None => None,
        }
    } else {
        None
    }
}

/// The largest multiple of `count` that is not above `field`.
pub open spec fn whole_multiple(field: int, count: int) -> int {
    (field / count) * count
}

impl Granularity {
    /// The count of units in one bucket.
    pub open spec fn count(&self) -> int {
        match *self {
            Granularity::Second(n) => n as int,
            Granularity::Minute(n) => n as int,
            Granularity::Hour(n) => n as int,
        }
    }

    /// The length of the unit in seconds.
    pub open spec fn unit(&self) -> int {
        match *self {
            Granularity::Second(_) => 1,
            Granularity::Minute(_) => 60,
            Granularity::Hour(_) => 3_600,
        }
    }

    /// How many units make up the next larger unit of the clock: the seconds
    /// of a minute, the minutes of an hour, the hours of a day.
    pub open spec fn period(&self) -> int {
        match *self {
            Granularity::Second(_) => 60,
            Granularity::Minute(_) => 60,
            Granularity::Hour(_) => 24,
        }
    }

    /// The length in seconds of the next larger unit of the clock.
    pub open spec fn scope(&self) -> int {
        match *self {
            Granularity::Second(_) => 60,
            Granularity::Minute(_) => 3_600,
            Granularity::Hour(_) => 86_400,
        }
    }

    /// A granularity is well formed when its count is positive.
    pub open spec fn wf(&self) -> bool {
        self.count() > 0
    }

    /// The width of a bucket in seconds.
    pub open spec fn step(&self) -> int {
        self.count() * self.unit()
    }

    /// The field of the clock that the granularity counts, read at
    /// `timestamp`: the second of the minute, the minute of the hour or the
    /// hour of the day.
    pub open spec fn field(&self, timestamp: int) -> int {
        match *self {
            Granularity::Second(_) => second_of(timestamp),
            Granularity::Minute(_) => minute_of(timestamp),
            Granularity::Hour(_) => hour_of(timestamp),
        }
    }

    /// The start of the bucket that holds `timestamp`. The date and the
    /// fields above the counted one stay, the fields below it become zero,
    /// and the counted field goes down to a multiple of the count.
    pub open spec fn floor(&self, timestamp: int) -> int {
        match *self {
            Granularity::Second(n) => timestamp - second_of(timestamp) + whole_multiple(
                second_of(timestamp),
                n as int,
            ),
            Granularity::Minute(n) => timestamp - second_of(timestamp) - 60 * minute_of(timestamp)
                + 60 * whole_multiple(minute_of(timestamp), n as int),
            Granularity::Hour(n) => timestamp - second_of(timestamp) - 60 * minute_of(timestamp)
                - 3_600 * hour_of(timestamp) + 3_600 * whole_multiple(
                hour_of(timestamp),
                n as int,
            ),
        }
    }

    /// The timestamp one bucket width after `timestamp`.
    pub open spec fn next(&self, timestamp: int) -> int {
        timestamp + self.step()
    }

    /// Whether `timestamp` is the start of a bucket: flooring leaves it as
    /// it is.
    pub open spec fn is_bucket(&self, timestamp: int) -> bool {
        self.floor(timestamp) == timestamp
    }

    /// Whether the clock at `timestamp` reads a multiple of the count in the
    /// counted field and zero in every field below it.
    pub open spec fn aligned(&self, timestamp: int) -> bool {
        match *self {
            Granularity::Second(n) => second_of(timestamp) % (n as int) == 0,
            Granularity::Minute(n) => second_of(timestamp) == 0 && minute_of(timestamp) % (
            n as int) == 0,
            Granularity::Hour(n) => second_of(timestamp) == 0 && minute_of(timestamp) == 0
                && hour_of(timestamp) % (n as int) == 0,
        }
    }

    /// Whether buckets follow one another without a remainder: the count
    /// divides the period of its unit, or is a multiple of it.
    pub open spec fn regular(&self) -> bool {
        self.period() % self.count() == 0 || self.count() % self.period() == 0
    }

    /// The timestamp reached from `timestamp` by taking the successor
    /// `times` times.
    pub open spec fn advance(&self, timestamp: int, times: nat) -> int
        decreases times,
    {
        if times == 0 {
            timestamp
        } else {
            self.next(self.advance(timestamp, (times - 1) as nat))
        }
    }
}

impl Granularity {
    /// The width of a bucket in seconds.
    pub fn step_seconds(&self) -> (step: i64)
        requires
            self.wf(),
        ensures
            step == self.step(),
            0 < step <= 3_600 * u32::MAX,
    {
        match self {
            Granularity::Second(s) => *s as i64,
            Granularity::Minute(m) => *m as i64 * MINUTE,
            Granularity::Hour(h) => *h as i64 * HOUR,
        }
    }

    /// The start of the bucket that holds `instant`.
    pub fn bucketize(&self, instant: &Instant) -> (bucket: Instant)
        requires
            self.wf(),
        ensures
            bucket@ == self.floor(instant@),
            bucket@ <= instant@,
            self.is_bucket(bucket@),
            self.aligned(bucket@),
    {
        let timestamp = instant.timestamp();
        proof {
            self.lemma_floor_fields(instant@);
            self.lemma_floor_idempotent(instant@);
            self.lemma_floor_in_span(instant@);
        }
        match self {
            Granularity::Second(s) => {
                let second = instant.second();
                proof {
                    lemma_whole_multiple(second as int, *s as int);
                }
                Instant::at(timestamp - second as i64 + (second / *s * *s) as i64)
            },
            Granularity::Minute(m) => {
                let minute = instant.minute();
                proof {
                    lemma_whole_multiple(minute as int, *m as int);
                }
                Instant::at(
                    timestamp - instant.second() as i64 - MINUTE * minute as i64 + MINUTE * (minute
                        / *m * *m) as i64,
                )
            },
            Granularity::Hour(h) => {
                let hour = instant.hour();
                proof {
                    lemma_whole_multiple(hour as int, *h as int);
                }
                Instant::at(
                    timestamp - instant.second() as i64 - MINUTE * instant.minute() as i64 - HOUR
                        * hour as i64 + HOUR * (hour / *h * *h) as i64,
                )
            },
        }
    }

    /// The instant one bucket width after `instant`, where the span holds
    /// it.
    pub fn checked_successor(&self, instant: &Instant) -> (next: Option<Instant>)
        requires
            self.wf(),
        ensures
            match next {
                Some(later) => later@ == self.next(instant@) && later@ > instant@,
                None => !in_span(self.next(instant@)),
            },
    {
        let step = self.step_seconds();
        let timestamp = instant.timestamp();
        if timestamp <= MAX_TIMESTAMP - step {
            Some(Instant::at(timestamp + step))
        } else {
            None
        }
    }

    /// The instant one bucket width after `instant`.
    pub fn successor(&self, instant: &Instant) -> (next: Instant)
        requires
            self.wf(),
            in_span(self.next(instant@)),
        ensures
            next@ == self.next(instant@),
            next@ > instant@,
    {
        let step = self.step_seconds();
        Instant::at(instant.timestamp() + step)
    }

    /// Reads a granularity such as `5s`, `1m` or `2h`.
    pub fn parse(text: &str) -> (granularity: Option<Granularity>)
        ensures
            granularity == parsed_granularity(text@),
            granularity matches Some(g) ==> g.wf(),
    {
        let chars = to_chars(text);
        if let Some(at) = find_char(&chars, 's') {
            match parse_decimal_u32(&chars, at) {
                Some(count) if count > 0 => Some(Granularity::Second(count)),
                _ => None,
            }
        } else if let Some(at) = find_char(&chars, 'm') {
            match parse_decimal_u32(&chars, at) {
                Some(count) if count > 0 => Some(Granularity::Minute(count)),
                _ => None,
            }
        } else if let Some(at) = find_char(&chars, 'h') {
            match parse_decimal_u32(&chars, at) {
                Some(count) if count > 0 => Some(Granularity::Hour(count)),
                _ => None,
            }
        } else {
            None
        }
    }
}

/// Truncating a field of a clock to a multiple of a positive count keeps it
/// between zero and the field, and truncating again changes nothing.
pub proof fn lemma_whole_multiple(field: int, count: int)
    requires
        0 <= field,
        0 < count,
    ensures
        0 <= whole_multiple(field, count) <= field,
        field - whole_multiple(field, count) < count,
        whole_multiple(field, count) % count == 0,
        whole_multiple(whole_multiple(field, count), count) == whole_multiple(field, count),
{
    let quotient = field / count;
    vstd::arithmetic::div_mod::lemma_fundamental_div_mod(field, count);
    vstd::arithmetic::div_mod::lemma_mod_bound(field, count);
    vstd::arithmetic::div_mod::lemma_div_pos_is_pos(field, count);
    vstd::arithmetic::mul::lemma_mul_is_commutative(quotient, count);
    vstd::arithmetic::mul::lemma_mul_nonnegative(quotient, count);
    vstd::arithmetic::div_mod::lemma_div_multiples_vanish(quotient, count);
    vstd::arithmetic::div_mod::lemma_mod_multiples_basic(quotient, count);
}

/// A field that is a multiple of `count` is its own largest multiple.
pub proof fn lemma_multiple_is_whole(field: int, count: int)
    requires
        0 < count,
        field % count == 0,
    ensures
        whole_multiple(field, count) == field,
{
    vstd::arithmetic::div_mod::lemma_fundamental_div_mod(field, count);
    vstd::arithmetic::mul::lemma_mul_is_commutative(field / count, count);
}

/// The seconds that have passed of the running hour are those of the
/// running minute and sixty for each full minute before it.
pub proof fn lemma_seconds_of_hour(timestamp: int)
    ensures
        timestamp % 3_600 == 60 * minute_of(timestamp) + second_of(timestamp),
{
    let minutes = timestamp / 60;
    let hours = minutes / 60;
    vstd::arithmetic::div_mod::lemma_fundamental_div_mod(timestamp, 60);
    vstd::arithmetic::div_mod::lemma_fundamental_div_mod(minutes, 60);
    vstd::arithmetic::div_mod::lemma_mod_bound(timestamp, 60);
    vstd::arithmetic::div_mod::lemma_mod_bound(minutes, 60);
    assert(timestamp == hours * 3_600 + (60 * (minutes % 60) + timestamp % 60));
    vstd::arithmetic::div_mod::lemma_fundamental_div_mod_converse(
        timestamp,
        3_600,
        hours,
        60 * (minutes % 60) + timestamp % 60,
    );
}

impl Granularity {
    /// What flooring does to the clock: the counted field becomes the largest
    /// multiple of the count below it, the fields under it become zero, the
    /// fields above it and the date stay; the result is not after the input
    /// and less than one period of the counted unit before it.
    pub proof fn lemma_floor_fields(&self, timestamp: int)
        requires
            self.wf(),
        ensures
            self.floor(timestamp) <= timestamp,
            timestamp - self.floor(timestamp) < self.scope(),
            self.field(self.floor(timestamp)) == whole_multiple(
                self.field(timestamp),
                self.count(),
            ),
            self.floor(timestamp) % self.unit() == 0,
            self.floor(timestamp) / self.scope() == timestamp / self.scope(),
            self.aligned(self.floor(timestamp)),
    {
        let field = self.field(timestamp);
        let kept = whole_multiple(field, self.count());
        let floor = self.floor(timestamp);
        lemma_whole_multiple(field, self.count());
        match *self {
            Granularity::Second(_) => {
                let minutes = timestamp / 60;
                vstd::arithmetic::div_mod::lemma_fundamental_div_mod(timestamp, 60);
                assert(floor == minutes * 60 + kept);
                vstd::arithmetic::div_mod::lemma_fundamental_div_mod_converse(
                    floor,
                    60,
                    minutes,
                    kept,
                );
            },
            Granularity::Minute(_) => {
                let minutes = timestamp / 60;
                let hours = minutes / 60;
                vstd::arithmetic::div_mod::lemma_fundamental_div_mod(timestamp, 60);
                vstd::arithmetic::div_mod::lemma_fundamental_div_mod(minutes, 60);
                assert(floor == (hours * 60 + kept) * 60 + 0);
                vstd::arithmetic::div_mod::lemma_fundamental_div_mod_converse(
                    floor,
                    60,
                    hours * 60 + kept,
                    0,
                );
                vstd::arithmetic::div_mod::lemma_fundamental_div_mod_converse(
                    hours * 60 + kept,
                    60,
                    hours,
                    kept,
                );
                assert(floor == hours * 3_600 + 60 * kept);
                vstd::arithmetic::div_mod::lemma_fundamental_div_mod_converse(
                    floor,
                    3_600,
                    hours,
                    60 * kept,
                );
                assert(timestamp == hours * 3_600 + (60 * field + timestamp % 60));
                vstd::arithmetic::div_mod::lemma_fundamental_div_mod_converse(
                    timestamp,
                    3_600,
                    hours,
                    60 * field + timestamp % 60,
                );
            },
            Granularity::Hour(_) => {
                let hours = timestamp / 3_600;
                let days = hours / 24;
                let below = timestamp % 3_600;
                vstd::arithmetic::div_mod::lemma_fundamental_div_mod(timestamp, 3_600);
                vstd::arithmetic::div_mod::lemma_fundamental_div_mod(hours, 24);
                lemma_seconds_of_hour(timestamp);
                assert(floor == (days * 24 + kept) * 3_600 + 0);
                vstd::arithmetic::div_mod::lemma_fundamental_div_mod_converse(
                    floor,
                    3_600,
                    days * 24 + kept,
                    0,
                );
                vstd::arithmetic::div_mod::lemma_fundamental_div_mod_converse(
                    days * 24 + kept,
                    24,
                    days,
                    kept,
                );
                lemma_seconds_of_hour(floor);
                assert(floor == days * 86_400 + 3_600 * kept);
                vstd::arithmetic::div_mod::lemma_fundamental_div_mod_converse(
                    floor,
                    86_400,
                    days,
                    3_600 * kept,
                );
                assert(timestamp == days * 86_400 + (3_600 * field + below));
                vstd::arithmetic::div_mod::lemma_fundamental_div_mod_converse(
                    timestamp,
                    86_400,
                    days,
                    3_600 * field + below,
                );
            },
        }
    }

    /// Flooring does not leave the span, which starts at a midnight.
    pub proof fn lemma_floor_in_span(&self, timestamp: int)
        requires
            self.wf(),
            in_span(timestamp),
        ensures
            in_span(self.floor(timestamp)),
    {
        self.lemma_floor_fields(timestamp);
        let floor = self.floor(timestamp);
        let scope = self.scope();
        let whole = (MIN_TIMESTAMP as int) / scope;
        vstd::arithmetic::div_mod::lemma_div_is_ordered(MIN_TIMESTAMP as int, timestamp, scope);
        vstd::arithmetic::div_mod::lemma_fundamental_div_mod(floor, scope);
        vstd::arithmetic::div_mod::lemma_mod_bound(floor, scope);
        match *self {
            Granularity::Second(_) => {
                vstd::arithmetic::div_mod::lemma_fundamental_div_mod_converse(
                    MIN_TIMESTAMP as int,
                    60,
                    -144_000_000_000_000,
                    0,
                );
            },
            Granularity::Minute(_) => {
                vstd::arithmetic::div_mod::lemma_fundamental_div_mod_converse(
                    MIN_TIMESTAMP as int,
                    3_600,
                    -2_400_000_000_000,
                    0,
                );
            },
            Granularity::Hour(_) => {
                vstd::arithmetic::div_mod::lemma_fundamental_div_mod_converse(
                    MIN_TIMESTAMP as int,
                    86_400,
                    -100_000_000_000,
                    0,
                );
            },
        }
        vstd::arithmetic::mul::lemma_mul_inequality(whole, floor / scope, scope);
        vstd::arithmetic::mul::lemma_mul_is_commutative(whole, scope);
        vstd::arithmetic::mul::lemma_mul_is_commutative(floor / scope, scope);
    }

    /// Flooring twice is flooring once.
    pub proof fn lemma_floor_idempotent(&self, timestamp: int)
        requires
            self.wf(),
        ensures
            self.floor(self.floor(timestamp)) == self.floor(timestamp),
            self.is_bucket(self.floor(timestamp)),
    {
        self.lemma_floor_fields(timestamp);
        lemma_whole_multiple(self.field(timestamp), self.count());
    }

    /// The starts of buckets are the timestamps at which the clock is
    /// aligned.
    pub proof fn lemma_bucket_iff_aligned(&self, timestamp: int)
        requires
            self.wf(),
        ensures
            self.is_bucket(timestamp) <==> self.aligned(timestamp),
    {
        if self.aligned(timestamp) {
            lemma_multiple_is_whole(self.field(timestamp), self.count());
        }
        if self.is_bucket(timestamp) {
            self.lemma_floor_fields(timestamp);
        }
    }

    /// The successor of a timestamp lies strictly after it, and so does the
    /// successor of the bucket that holds it.
    pub proof fn lemma_next_is_later(&self, timestamp: int)
        requires
            self.wf(),
        ensures
            self.next(timestamp) > timestamp,
            self.next(self.floor(timestamp)) > self.floor(timestamp),
    {
        vstd::arithmetic::mul::lemma_mul_strictly_positive(self.count(), self.unit());
    }

    /// Taking the successor of an aligned timestamp moves the counted
    /// field on by the count, wrapped at the period, and leaves the fields
    /// below it at zero.
    pub proof fn lemma_next_field(&self, timestamp: int)
        requires
            self.wf(),
            timestamp % self.unit() == 0,
        ensures
            self.next(timestamp) % self.unit() == 0,
            self.field(self.next(timestamp)) == (self.field(timestamp) + self.count())
                % self.period(),
    {
        let moved = self.field(timestamp) + self.count();
        match *self {
            Granularity::Second(n) => {
                assert(self.next(timestamp) == timestamp + n) by {
                    vstd::arithmetic::mul::lemma_mul_basics(n as int);
                }
                vstd::arithmetic::div_mod::lemma_fundamental_div_mod(timestamp, 60);
                vstd::arithmetic::div_mod::lemma_mod_multiples_vanish(timestamp / 60, moved, 60);
                assert(timestamp + n == 60 * (timestamp / 60) + moved);
                vstd::arithmetic::div_mod::lemma_small_mod(0, 1);
                assert((timestamp + n) % 1 == 0);
            },
            Granularity::Minute(n) => {
                let minutes = timestamp / 60;
                assert(self.next(timestamp) == timestamp + n * 60);
                vstd::arithmetic::div_mod::lemma_fundamental_div_mod(timestamp, 60);
                assert(timestamp + n * 60 == (minutes + n) * 60 + 0);
                vstd::arithmetic::div_mod::lemma_fundamental_div_mod_converse(
                    timestamp + n * 60,
                    60,
                    minutes + n,
                    0,
                );
                vstd::arithmetic::div_mod::lemma_fundamental_div_mod(minutes, 60);
                assert(minutes + n == 60 * (minutes / 60) + moved);
                vstd::arithmetic::div_mod::lemma_mod_multiples_vanish(minutes / 60, moved, 60);
            },
            Granularity::Hour(n) => {
                let hours = timestamp / 3_600;
                assert(self.next(timestamp) == timestamp + n * 3_600);
                vstd::arithmetic::div_mod::lemma_fundamental_div_mod(timestamp, 3_600);
                assert(timestamp + n * 3_600 == (hours + n) * 3_600 + 0);
                vstd::arithmetic::div_mod::lemma_fundamental_div_mod_converse(
                    timestamp + n * 3_600,
                    3_600,
                    hours + n,
                    0,
                );
                vstd::arithmetic::div_mod::lemma_fundamental_div_mod(hours, 24);
                assert(hours + n == 24 * (hours / 24) + moved);
                vstd::arithmetic::div_mod::lemma_mod_multiples_vanish(hours / 24, moved, 24);
            },
        }
    }

    /// A timestamp is aligned exactly when it is a whole number of units
    /// and its counted field is a multiple of the count.
    pub proof fn lemma_aligned_by_unit(&self, timestamp: int)
        requires
            self.wf(),
        ensures
            self.aligned(timestamp) <==> timestamp % self.unit() == 0 && self.field(timestamp)
                % self.count() == 0,
    {
        match *self {
            Granularity::Second(_) => {
                vstd::arithmetic::div_mod::lemma_fundamental_div_mod(timestamp, 1);
                vstd::arithmetic::div_mod::lemma_mod_bound(timestamp, 1);
            },
            Granularity::Minute(_) => {},
            Granularity::Hour(_) => {
                lemma_seconds_of_hour(timestamp);
                vstd::arithmetic::div_mod::lemma_mod_bound(timestamp / 60, 60);
                vstd::arithmetic::div_mod::lemma_mod_bound(timestamp, 60);
            },
        }
    }

    /// The successor of a bucket is a bucket exactly when the counted field,
    /// moved on by the count and wrapped at the period, is again a multiple
    /// of the count.
    pub proof fn lemma_next_bucket(&self, bucket: int)
        requires
            self.wf(),
            self.is_bucket(bucket),
        ensures
            self.is_bucket(self.next(bucket)) <==> ((self.field(bucket) + self.count())
                % self.period()) % self.count() == 0,
    {
        self.lemma_bucket_iff_aligned(bucket);
        self.lemma_bucket_iff_aligned(self.next(bucket));
        self.lemma_aligned_by_unit(bucket);
        self.lemma_aligned_by_unit(self.next(bucket));
        self.lemma_next_field(bucket);
    }

    /// Under a regular granularity the successor of a bucket is a bucket.
    pub proof fn lemma_next_bucket_regular(&self, bucket: int)
        requires
            self.wf(),
            self.regular(),
            self.is_bucket(bucket),
        ensures
            self.is_bucket(self.next(bucket)),
            self.next(bucket) > bucket,
    {
        self.lemma_next_is_later(bucket);
        self.lemma_next_bucket(bucket);
        self.lemma_bucket_iff_aligned(bucket);
        let field = self.field(bucket);
        let count = self.count();
        let period = self.period();
        let moved = field + count;
        assert(0 <= field < period);
        assert(field % count == 0);
        if period % count == 0 {
            let parts = period / count;
            vstd::arithmetic::div_mod::lemma_fundamental_div_mod(period, count);
            assert(period == count * parts);
            assert(parts > 0) by (nonlinear_arith)
                requires
                    period == count * parts,
                    period > 0,
                    count > 0,
            ;
            vstd::arithmetic::div_mod::lemma_mod_mod(moved, count, parts);
            vstd::arithmetic::div_mod::lemma_mod_multiples_vanish(1, field, count);
            assert(count * 1 + field == moved);
        } else {
            let parts = count / period;
            vstd::arithmetic::div_mod::lemma_fundamental_div_mod(count, period);
            assert(count == period * parts);
            vstd::arithmetic::div_mod::lemma_mod_multiples_vanish(parts, field, period);
            vstd::arithmetic::div_mod::lemma_small_mod(field as nat, period as nat);
            assert(moved % period == field);
            assert(count >= period) by (nonlinear_arith)
                requires
                    count == period * parts,
                    period > 0,
                    count > 0,
            ;
            vstd::arithmetic::div_mod::lemma_small_mod(field as nat, count as nat);
        }
    }

    /// A chain of successors climbs strictly.
    pub proof fn lemma_advance_climbs(&self, timestamp: int, fewer: nat, more: nat)
        requires
            self.wf(),
            fewer < more,
        ensures
            self.advance(timestamp, fewer) < self.advance(timestamp, more),
        decreases more,
    {
        self.lemma_next_is_later(self.advance(timestamp, (more - 1) as nat));
        if fewer < more - 1 {
            self.lemma_advance_climbs(timestamp, fewer, (more - 1) as nat);
        }
    }

    /// Under a regular granularity every member of the chain of successors
    /// that starts at a bucket is a bucket.
    pub proof fn lemma_advance_stays_bucket(&self, bucket: int, times: nat)
        requires
            self.wf(),
            self.regular(),
            self.is_bucket(bucket),
        ensures
            self.is_bucket(self.advance(bucket, times)),
        decreases times,
    {
        if times > 0 {
            self.lemma_advance_stays_bucket(bucket, (times - 1) as nat);
            self.lemma_next_bucket_regular(self.advance(bucket, (times - 1) as nat));
        }
    }

    /// Taking the successor `times` times moves on by that many bucket
    /// widths.
    pub proof fn lemma_advance_is_steps(&self, timestamp: int, times: nat)
        ensures
            self.advance(timestamp, times) == timestamp + times * self.step(),
        decreases times,
    {
        if times > 0 {
            self.lemma_advance_is_steps(timestamp, (times - 1) as nat);
            vstd::arithmetic::mul::lemma_mul_is_distributive_add_other_way(
                self.step(),
                times - 1,
                1,
            );
        } else {
            vstd::arithmetic::mul::lemma_mul_basics(self.step());
        }
    }

    /// Under a granularity that is not regular there is a bucket whose
    /// successor is no bucket: the lemma hands one back.
    pub proof fn lemma_irregular_leaves_buckets(&self) -> (bucket: int)
        requires
            self.wf(),
            !self.regular(),
        ensures
            self.is_bucket(bucket),
            !self.is_bucket(self.next(bucket)),
    {
        let count = self.count();
        let period = self.period();
        let field = if count < period {
            whole_multiple(period - 1, count)
        } else {
            0
        };
        let moved = field + count;
        if count < period {
            lemma_whole_multiple(period - 1, count);
            vstd::arithmetic::div_mod::lemma_mod_multiples_vanish(1, field, count);
            assert(count * 1 + field == moved);
            assert(moved % count == 0);
            assert(moved != period);
            vstd::arithmetic::div_mod::lemma_fundamental_div_mod_converse(
                moved,
                period,
                1,
                moved - period,
            );
            vstd::arithmetic::div_mod::lemma_small_mod((moved - period) as nat, count as nat);
        } else {
            assert(0int % count == 0);
            vstd::arithmetic::div_mod::lemma_mod_bound(count, period);
            vstd::arithmetic::div_mod::lemma_small_mod((count % period) as nat, count as nat);
        }
        let bucket = field * self.unit();
        assert(self.field(bucket) == field && self.aligned(bucket)) by {
            match *self {
                Granularity::Second(_) => {
                    vstd::arithmetic::div_mod::lemma_small_mod(field as nat, 60);
                },
                Granularity::Minute(_) => {
                    vstd::arithmetic::div_mod::lemma_fundamental_div_mod_converse(
                        bucket,
                        60,
                        field,
                        0,
                    );
                    vstd::arithmetic::div_mod::lemma_small_mod(field as nat, 60);
                },
                Granularity::Hour(_) => {
                    vstd::arithmetic::div_mod::lemma_fundamental_div_mod_converse(
                        bucket,
                        3_600,
                        field,
                        0,
                    );
                    vstd::arithmetic::div_mod::lemma_small_mod(field as nat, 24);
                    vstd::arithmetic::div_mod::lemma_fundamental_div_mod_converse(
                        bucket,
                        60,
                        60 * field,
                        0,
                    );
                    vstd::arithmetic::div_mod::lemma_fundamental_div_mod_converse(
                        60 * field,
                        60,
                        field,
                        0,
                    );
                },
            }
        }
        self.lemma_bucket_iff_aligned(bucket);
        self.lemma_next_bucket(bucket);
        bucket
    }
}

} // verus!
