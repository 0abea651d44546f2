use chrono::{NaiveDate, Timelike};
use tbuck::granularity::Granularity;
use tbuck::instant::{Instant, MAX_TIMESTAMP, MIN_TIMESTAMP};

fn instant(year: i32, month: u32, day: u32, hour: u32, minute: u32, second: u32) -> Instant {
    let datetime = NaiveDate::from_ymd_opt(year, month, day)
        .unwrap()
        .and_hms_opt(hour, minute, second)
        .unwrap()
        .and_utc();
    Instant::from_timestamp(datetime.timestamp()).unwrap()
}

fn time_of(instant: &Instant) -> chrono::NaiveTime {
    chrono::DateTime::from_timestamp(instant.timestamp(), 0).unwrap().time()
}

#[test]
fn main_parses() {
    let cases = vec![
        ("1s", Granularity::Second(1)),
        ("5s", Granularity::Second(5)),
        ("1m", Granularity::Minute(1)),
        ("3m", Granularity::Minute(3)),
        ("1h", Granularity::Hour(1)),
        ("10h", Granularity::Hour(10)),
    ];
    for (input, expected) in cases {
        assert_eq!(Granularity::parse(input).unwrap(), expected);
    }
}

#[test]
fn bad_parses() {
    let cases = vec!["1", "-1s", "m"];
    for input in cases {
        assert!(Granularity::parse(input).is_none());
    }
}

#[test]
fn bucketize() {
    for granularity_seconds in 1..100 {
        let granularity = Granularity::Second(granularity_seconds);
        for input_second in 0..60 {
            let expected_bucket_second = input_second / granularity_seconds * granularity_seconds;
            let input = instant(1991, 8, 10, 10, 30, input_second);
            let bucket = granularity.bucketize(&input);
            assert!(time_of(&bucket).second() % granularity_seconds == 0);
            assert_eq!(expected_bucket_second, time_of(&bucket).second());
            assert_eq!(expected_bucket_second, bucket.second());
        }
    }

    for granularity_minutes in 1..100 {
        let granularity = Granularity::Minute(granularity_minutes);
        for input_minute in 0..60 {
            let expected_bucket_minute = input_minute / granularity_minutes * granularity_minutes;
            let input = instant(1991, 8, 10, 10, input_minute, 15);
            let bucket = granularity.bucketize(&input);
            assert!(time_of(&bucket).minute() % granularity_minutes == 0);
            assert_eq!(expected_bucket_minute, time_of(&bucket).minute());
            assert_eq!(0, time_of(&bucket).second());
            assert_eq!(expected_bucket_minute, bucket.minute());
        }
    }

    for granularity_hours in 1..100 {
        let granularity = Granularity::Hour(granularity_hours);
        for input_hour in 0..24 {
            let expected_bucket_hour = input_hour / granularity_hours * granularity_hours;
            let input = instant(1991, 8, 10, input_hour, 43, 15);
            let bucket = granularity.bucketize(&input);
            assert!(time_of(&bucket).hour() % granularity_hours == 0);
            assert_eq!(expected_bucket_hour, time_of(&bucket).hour());
            assert_eq!(0, time_of(&bucket).second());
            assert_eq!(0, time_of(&bucket).minute());
            assert_eq!(expected_bucket_hour, bucket.hour());
        }
    }
}

#[test]
fn parse_reads_the_numeral_before_the_first_unit_letter() {
    assert_eq!(Granularity::parse("+5s"), Some(Granularity::Second(5)));
    assert_eq!(Granularity::parse("007m"), Some(Granularity::Minute(7)));
    assert_eq!(Granularity::parse("2h"), Some(Granularity::Hour(2)));
    assert_eq!(Granularity::parse("5s and more"), Some(Granularity::Second(5)));
    assert_eq!(Granularity::parse("10mh"), Some(Granularity::Minute(10)));
    assert_eq!(Granularity::parse("3hm"), None);
    assert_eq!(Granularity::parse("1h30m"), None);
    assert_eq!(Granularity::parse("1m30s"), None);
    assert_eq!(Granularity::parse("4294967295s"), Some(Granularity::Second(4294967295)));
}

#[test]
fn parse_rejects_what_is_no_positive_count() {
    for input in ["", "s", "0s", "0m", "000h", "+s", "+-1s", "1.5s", "4294967296s", " 1s", "1 s", "x", "５s"] {
        assert_eq!(Granularity::parse(input), None, "{:?}", input);
    }
}

#[test]
fn instant_reads_the_clock() {
    let at = instant(2019, 3, 14, 16, 59, 34);
    assert_eq!((at.hour(), at.minute(), at.second()), (16, 59, 34));
    let before_epoch = Instant::from_timestamp(-1).unwrap();
    assert_eq!((before_epoch.hour(), before_epoch.minute(), before_epoch.second()), (23, 59, 59));
    let epoch = Instant::from_timestamp(0).unwrap();
    assert_eq!((epoch.hour(), epoch.minute(), epoch.second()), (0, 0, 0));
}

#[test]
fn instant_span_has_both_ends() {
    assert_eq!(Instant::from_timestamp(MIN_TIMESTAMP).unwrap().timestamp(), MIN_TIMESTAMP);
    assert_eq!(Instant::from_timestamp(MAX_TIMESTAMP).unwrap().timestamp(), MAX_TIMESTAMP);
    assert!(Instant::from_timestamp(MIN_TIMESTAMP - 1).is_none());
    assert!(Instant::from_timestamp(MAX_TIMESTAMP + 1).is_none());
    assert!(Instant::from_timestamp(i64::MIN).is_none());
    assert!(Instant::from_timestamp(i64::MAX).is_none());
    let first = Instant::from_timestamp(MIN_TIMESTAMP).unwrap();
    assert_eq!((first.hour(), first.minute(), first.second()), (0, 0, 0));
    let last = Instant::from_timestamp(MAX_TIMESTAMP).unwrap();
    assert_eq!((last.hour(), last.minute(), last.second()), (23, 59, 59));
}

#[test]
fn bucketize_before_the_epoch() {
    let at = Instant::from_timestamp(-1).unwrap();
    assert_eq!(Granularity::Minute(1).bucketize(&at).timestamp(), -60);
    assert_eq!(Granularity::Second(7).bucketize(&at).timestamp(), -4);
    assert_eq!(Granularity::Hour(5).bucketize(&at).timestamp(), -14_400);
}

#[test]
fn bucketize_gives_exact_timestamps() {
    let at = instant(2019, 3, 14, 16, 59, 34);
    let midnight = instant(2019, 3, 14, 0, 0, 0).timestamp();
    assert_eq!(Granularity::Second(15).bucketize(&at).timestamp(), midnight + 16 * 3600 + 59 * 60 + 30);
    assert_eq!(Granularity::Minute(15).bucketize(&at).timestamp(), midnight + 16 * 3600 + 45 * 60);
    assert_eq!(Granularity::Hour(6).bucketize(&at).timestamp(), midnight + 12 * 3600);
    assert_eq!(Granularity::Second(100).bucketize(&at).timestamp(), midnight + 16 * 3600 + 59 * 60);
    assert_eq!(Granularity::Hour(24).bucketize(&at).timestamp(), midnight);
    assert_eq!(Granularity::Hour(u32::MAX).bucketize(&at).timestamp(), midnight);
}

#[test]
fn bucketize_at_the_ends_of_the_span() {
    let first = Instant::from_timestamp(MIN_TIMESTAMP).unwrap();
    assert_eq!(Granularity::Hour(7).bucketize(&first).timestamp(), MIN_TIMESTAMP);
    let last = Instant::from_timestamp(MAX_TIMESTAMP).unwrap();
    assert_eq!(Granularity::Hour(24).bucketize(&last).timestamp(), MAX_TIMESTAMP - 86_399);
    assert!(Granularity::Second(1).checked_successor(&last).is_none());
    assert_eq!(
        Granularity::Second(1)
            .checked_successor(&Instant::from_timestamp(MAX_TIMESTAMP - 1).unwrap())
            .unwrap()
            .timestamp(),
        MAX_TIMESTAMP
    );
}

#[test]
fn floor_is_idempotent_and_not_after_the_input() {
    let granularities = [
        Granularity::Second(1),
        Granularity::Second(7),
        Granularity::Second(90),
        Granularity::Minute(5),
        Granularity::Minute(7),
        Granularity::Hour(1),
        Granularity::Hour(5),
        Granularity::Hour(48),
    ];
    for granularity in granularities {
        for timestamp in [-100_000i64, -86_401, -1, 0, 1, 59, 3_599, 86_399, 1_552_582_774] {
            let at = Instant::from_timestamp(timestamp).unwrap();
            let bucket = granularity.bucketize(&at);
            assert!(bucket.timestamp() <= timestamp);
            assert_eq!(granularity.bucketize(&bucket), bucket);
            assert!(granularity.successor(&bucket).timestamp() > bucket.timestamp());
            assert_eq!(
                granularity.successor(&bucket).timestamp() - bucket.timestamp(),
                granularity.step_seconds()
            );
        }
    }
}

#[test]
fn successor_adds_one_width() {
    let at = instant(2019, 3, 14, 23, 59, 0);
    assert_eq!(Granularity::Second(5).successor(&at).timestamp(), at.timestamp() + 5);
    assert_eq!(Granularity::Minute(5).successor(&at).timestamp(), at.timestamp() + 300);
    assert_eq!(Granularity::Hour(2).successor(&at).timestamp(), at.timestamp() + 7_200);
    assert_eq!(Granularity::Hour(2).step_seconds(), 7_200);
    assert_eq!(Granularity::Hour(u32::MAX).step_seconds(), 3_600 * 4_294_967_295);
}

#[test]
fn chain_of_successors_climbs_and_stays_on_buckets_when_regular() {
    for granularity in [Granularity::Second(15), Granularity::Minute(20), Granularity::Hour(6), Granularity::Minute(120)] {
        let mut bucket = granularity.bucketize(&instant(2019, 3, 14, 16, 59, 34));
        for _ in 0..200 {
            let next = granularity.successor(&bucket);
            assert!(next.timestamp() > bucket.timestamp());
            assert_eq!(granularity.bucketize(&next), next);
            bucket = next;
        }
    }
}

#[test]
fn successor_of_a_bucket_may_leave_the_buckets_when_not_regular() {
    let granularity = Granularity::Minute(7);
    let bucket = granularity.bucketize(&instant(2019, 3, 14, 16, 59, 34));
    assert_eq!(bucket, instant(2019, 3, 14, 16, 56, 0));
    let next = granularity.successor(&bucket);
    assert_eq!(next, instant(2019, 3, 14, 17, 3, 0));
    assert_eq!(granularity.bucketize(&next), instant(2019, 3, 14, 17, 0, 0));
}
