use chrono::format::{Fixed, Item, Numeric, Pad, ParseErrorKind};
use chrono::{Datelike, Timelike};
use tbuck::emit::{decimal_text, render_row};
use tbuck::extract::{CompiledFormat, ExtractError, FormatError};
use tbuck::format::DateTimeFormat;
use tbuck::items::{
    fixed_format_to_default_value, fixed_format_to_regex_fragment, numeric_format_to_default_value,
    numeric_format_to_regex_fragment, FormatItem,
};
use tbuck::instant::Instant;
use tbuck::table::Row;

#[test]
fn formats_are_matched() {
    let cases = vec![
        ("%Y", vec!["2019", "1", "0100", "100", "-1"]),
        (
            "%m",
            vec![
                "01", "02", "03", "04", "05", "06", "07", "08", "09", "10", "11", "12",
            ],
        ),
        (
            "%b",
            vec![
                "Jan", "Feb", "Mar", "Apr", "May", "Jun", "Jul", "Aug", "Sep", "Oct", "Nov",
                "Dec",
            ],
        ),
        (
            "%B",
            vec![
                "January",
                "February",
                "March",
                "April",
                "May",
                "June",
                "July",
                "August",
                "September",
                "October",
                "November",
                "December",
            ],
        ),
        ("%d", vec!["01", "02", "10", "22", "31"]),
        ("%F", vec!["1991-08-10", "2019-03-14"]),
        ("%H", vec!["00", "02", "10", "19", "23"]),
        ("%I", vec!["01", "02", "05", "10", "12"]),
        ("%M", vec!["00", "02", "10", "19", "30", "44", "59"]),
        ("%S", vec!["00", "02", "10", "19", "30", "44", "59", "60"]),
        ("%T", vec!["00:00:00", "10:20:30", "23:59:60"]),
        ("%p", vec!["AM", "PM"]),
        ("%P", vec!["am", "pm"]),
        ("%s", vec!["994518299"]),
    ];
    for (strftime, expected_matches) in &cases {
        let format = DateTimeFormat::new(strftime).unwrap();
        let regex = format.regex().unwrap();
        for expected_match in expected_matches {
            assert!(regex.is_match(expected_match));
        }
    }
}

#[test]
fn has_enough_info() {
    let cases = vec!["%Y-%m-%d %H:%M:%S", "%F %T", "%b %d, %Y %I:%M %p"];
    for strftime in &cases {
        let format = DateTimeFormat::new(strftime).unwrap();
        assert!(format.has_enough_info());
    }
}

#[test]
fn parses() {
    let cases = vec![
        (
            "%Y-%m-%d %H:%M:%S",
            "1991-08-10 01:02:03",
            1991,
            8,
            10,
            1,
            2,
            3,
        ),
        (
            "%b %d, %Y %I:%M:%S%P",
            "Mar 14, 2019 04:59:34pm",
            2019,
            3,
            14,
            16,
            59,
            34,
        ),
        ("%s", "1552609482", 2019, 3, 15, 00, 24, 42),
    ];
    for (strftime, text, y, mo, d, h, mi, s) in cases {
        let format = DateTimeFormat::new(strftime).unwrap();
        let instant = format.try_parse(text).unwrap();
        let datetime = chrono::DateTime::from_timestamp(instant.timestamp(), 0).unwrap();
        let date = datetime.date_naive();
        let time = datetime.time();
        assert_eq!(y, date.year());
        assert_eq!(mo, date.month());
        assert_eq!(d, date.day());
        assert_eq!(h, time.hour());
        assert_eq!(mi, time.minute());
        assert_eq!(s, time.second());
        assert_eq!((h, mi, s), (instant.hour(), instant.minute(), instant.second()));
    }
}

#[test]
fn incomplete_formats_do_not_have_enough_info() {
    for strftime in ["%H:%M", "%Y-%m-%d", "%T", "%F", "%Y-%m %H:%M:%S", "%I:%M:%S", "at noon", ""] {
        let format = DateTimeFormat::new(strftime).unwrap();
        assert!(!format.has_enough_info(), "{:?}", strftime);
    }
    for strftime in ["%s", "%B %d %Y %H:%M:%S", "%Y%m%d%H%M%S", "%m/%d/%Y %I:%M:%S %p", "%F %H:%M"] {
        let format = DateTimeFormat::new(strftime).unwrap();
        assert!(format.has_enough_info(), "{:?}", strftime);
    }
}

#[test]
fn unsupported_specifiers_are_refused() {
    for strftime in ["%y", "%Q", "%a %F %T", "%F %T %z", "%F %T%.3f", "%j", "%", "%F %", "%D", "%c", "%+"] {
        assert!(DateTimeFormat::new(strftime).is_none(), "{:?}", strftime);
        assert_eq!(
            CompiledFormat::compile(strftime).err(),
            Some(FormatError::UnsupportedSpecifier),
            "{:?}",
            strftime
        );
    }
}

#[test]
fn patterns_are_built_from_the_fragments() {
    let cases = [
        ("%Y-%m-%d %H:%M:%S", r"-?\d+\-\d{2}\-\d{2} \d{2}:\d{2}:\d{2}"),
        ("%F %T", r"-?\d+\-\d{2}\-\d{2} \d{2}:\d{2}:\d{2}"),
        ("[%s]", r"\[\d+\]"),
        (
            "%b %d, %Y %I:%M %p",
            r"(?:Jan|Feb|Mar|Apr|May|Jun|Jul|Aug|Sep|Oct|Nov|Dec) \d{2}, -?\d+ \d{2}:\d{2} (?:am|AM|pm|PM)",
        ),
        (
            "%B%P",
            "(?:Jan(uary)?|Feb(ruary)?|Mar(ch)?|Apr(il)?|May|June?|July?|Aug(ust)?|Sep(tember)?|Oct(ober)?|Nov(ember)?|Dec(ember)?)(?:am|AM|pm|PM)",
        ),
        ("%b", "(?:Jan|Feb|Mar|Apr|May|Jun|Jul|Aug|Sep|Oct|Nov|Dec)"),
        ("%p%P", "(?:am|AM|pm|PM)(?:am|AM|pm|PM)"),
        (
            r"a.b+c*d?e(f)g|h[i]j{k}l^m$n#o&p-q~r\s/t",
            r"a\.b\+c\*d\?e\(f\)g\|h\[i\]j\{k\}l\^m\$n\#o\&p\-q\~r\\s/t",
        ),
        ("100%%", "100%"),
        ("día 1 %d", r"día 1 \d{2}"),
        ("", ""),
    ];
    for (strftime, pattern) in cases {
        assert_eq!(DateTimeFormat::new(strftime).unwrap().pattern(), pattern, "{:?}", strftime);
    }
}

#[test]
fn default_values_stand_in_for_each_field() {
    let cases = [
        ("%Y-%m-%d %H:%M:%S", "0001-01-01 00:00:00"),
        ("%F %T", "0001-01-01 00:00:00"),
        ("%b %d, %Y %I:%M %p", "Jan 01, 0001 01:00 AM"),
        ("%B %d %Y %I%P", "January 01 0001 01am"),
        ("[%s]", "[000000000]"),
        ("a.b", "a.b"),
    ];
    for (strftime, text) in cases {
        assert_eq!(DateTimeFormat::new(strftime).unwrap().default_values(), text);
    }
}

#[test]
fn fragments_and_defaults_of_the_fields() {
    let numerics = [
        (Numeric::Year, Some(("-?\\d+", "0001"))),
        (Numeric::Month, Some(("\\d{2}", "01"))),
        (Numeric::Day, Some(("\\d{2}", "01"))),
        (Numeric::Hour, Some(("\\d{2}", "00"))),
        (Numeric::Hour12, Some(("\\d{2}", "01"))),
        (Numeric::Minute, Some(("\\d{2}", "00"))),
        (Numeric::Second, Some(("\\d{2}", "00"))),
        (Numeric::Timestamp, Some(("\\d+", "000000000"))),
        (Numeric::YearMod100, None),
        (Numeric::Ordinal, None),
        (Numeric::Nanosecond, None),
        (Numeric::IsoWeek, None),
    ];
    for (numeric, expected) in numerics {
        for pad in [Pad::None, Pad::Zero, Pad::Space] {
            assert_eq!(numeric_format_to_regex_fragment(&numeric, pad), expected.map(|pair| pair.0));
            assert_eq!(numeric_format_to_default_value(&numeric, pad), expected.map(|pair| pair.1));
        }
    }
    let fixeds = [
        (Fixed::ShortMonthName, Some(("Jan|Feb|Mar|Apr|May|Jun|Jul|Aug|Sep|Oct|Nov|Dec", "Jan"))),
        (
            Fixed::LongMonthName,
            Some((
                "Jan(uary)?|Feb(ruary)?|Mar(ch)?|Apr(il)?|May|June?|July?|Aug(ust)?|Sep(tember)?|Oct(ober)?|Nov(ember)?|Dec(ember)?",
                "January",
            )),
        ),
        (Fixed::LowerAmPm, Some(("am|AM|pm|PM", "am"))),
        (Fixed::UpperAmPm, Some(("am|AM|pm|PM", "AM"))),
        (Fixed::ShortWeekdayName, None),
        (Fixed::TimezoneName, None),
        (Fixed::RFC3339, None),
    ];
    for (fixed, expected) in fixeds {
        assert_eq!(fixed_format_to_regex_fragment(&fixed), expected.map(|pair| pair.0));
        assert_eq!(fixed_format_to_default_value(&fixed), expected.map(|pair| pair.1));
    }
}

#[test]
fn items_go_to_chrono_and_back() {
    let items = vec![
        Item::Literal("at"),
        Item::OwnedLiteral("owned".into()),
        Item::Space(" "),
        Item::OwnedSpace("\t".into()),
        Item::Numeric(Numeric::Year, Pad::Zero),
        Item::Numeric(Numeric::Day, Pad::Space),
        Item::Fixed(Fixed::LowerAmPm),
    ];
    let expected = vec![
        Item::Literal("at"),
        Item::Literal("owned"),
        Item::Space(" "),
        Item::Space("\t"),
        Item::Numeric(Numeric::Year, Pad::Zero),
        Item::Numeric(Numeric::Day, Pad::Space),
        Item::Fixed(Fixed::LowerAmPm),
    ];
    assert!(FormatItem::from_chrono(Item::Error).is_none());
    assert!(!FormatItem::from_chrono(Item::Fixed(Fixed::RFC3339)).unwrap().is_supported());
    assert!(!FormatItem::from_chrono(Item::Numeric(Numeric::Ordinal, Pad::Zero)).unwrap().is_supported());
    for (item, back) in items.into_iter().zip(expected) {
        let owned = FormatItem::from_chrono(item).unwrap();
        assert!(owned.is_supported());
        assert_eq!(owned.to_chrono(), back);
    }
}

#[test]
fn formats_are_made_from_items() {
    let complete = DateTimeFormat::from_items(vec![
        Item::Numeric(Numeric::Timestamp, Pad::None),
        Item::Literal("."),
    ])
    .unwrap();
    assert_eq!(complete.pattern(), "\\d+\\.");
    assert!(complete.has_enough_info());
    assert!(DateTimeFormat::from_items(vec![Item::Literal("a"), Item::Error]).is_none());
    assert!(DateTimeFormat::from_items(vec![Item::Numeric(Numeric::Nanosecond, Pad::Zero)]).is_none());
    assert!(DateTimeFormat::from_items(vec![Item::Fixed(Fixed::RFC2822)]).is_none());
    assert_eq!(DateTimeFormat::from_items(vec![]).unwrap().pattern(), "");
}

#[test]
fn resolve_keeps_what_the_span_holds() {
    assert_eq!(DateTimeFormat::resolve(Ok(1_552_609_482)).unwrap().timestamp(), 1_552_609_482);
    assert_eq!(DateTimeFormat::resolve(Ok(i64::MAX)), Err(ParseErrorKind::OutOfRange));
    assert_eq!(DateTimeFormat::resolve(Ok(i64::MIN)), Err(ParseErrorKind::OutOfRange));
    assert_eq!(DateTimeFormat::resolve(Err(ParseErrorKind::TooShort)), Err(ParseErrorKind::TooShort));
    assert_eq!(DateTimeFormat::resolve(Err(ParseErrorKind::Impossible)), Err(ParseErrorKind::Impossible));
}

#[test]
fn parse_failures_name_their_kind() {
    let format = DateTimeFormat::new("%Y-%m-%d %H:%M:%S").unwrap();
    assert_eq!(format.try_parse("2019-03-14 10:00:61"), Err(ParseErrorKind::OutOfRange));
    assert_eq!(format.try_parse("2019-13-14 10:00:00"), Err(ParseErrorKind::OutOfRange));
    assert_eq!(format.try_parse("2019-02-30 10:00:00"), Err(ParseErrorKind::OutOfRange));
    assert_eq!(format.try_parse("2019-03-14 10:00"), Err(ParseErrorKind::TooShort));
    assert_eq!(format.try_parse("2019-03-14 10:00:00 and on"), Err(ParseErrorKind::TooLong));
    assert_eq!(format.try_parse("2019-03-14T10:00:00"), Err(ParseErrorKind::Invalid));
    assert_eq!(
        DateTimeFormat::new("%H:%M").unwrap().try_parse("10:00"),
        Err(ParseErrorKind::NotEnough)
    );
    assert_eq!(
        DateTimeFormat::new("%F %T %s").unwrap().try_parse("2019-03-14 10:00:00 5"),
        Err(ParseErrorKind::Impossible)
    );
}

#[test]
fn compile_reports_why_a_format_cannot_be_used() {
    assert_eq!(CompiledFormat::compile("%H:%M").err(), Some(FormatError::IncompleteFormat));
    assert_eq!(CompiledFormat::compile("").err(), Some(FormatError::IncompleteFormat));
    assert_eq!(CompiledFormat::compile("%F %T %Z").err(), Some(FormatError::UnsupportedSpecifier));
    assert_eq!(CompiledFormat::compile("%H:%M %y").err(), Some(FormatError::UnsupportedSpecifier));
    let mut heavy = String::from("%F %T");
    for _ in 0..200_000 {
        heavy.push_str("%d");
    }
    assert_eq!(CompiledFormat::compile(&heavy).err(), Some(FormatError::PatternRejected));
    assert!(DateTimeFormat::new(&heavy).unwrap().regex().is_none());
    let ready = CompiledFormat::compile("[%F %T]").unwrap();
    assert_eq!(ready.pattern(), r"\[-?\d+\-\d{2}\-\d{2} \d{2}:\d{2}:\d{2}\]");
    assert_eq!(ready.format().pattern(), ready.pattern());
}

#[test]
fn extract_takes_the_occurrence_at_the_index() {
    let ready = CompiledFormat::compile("%Y-%m-%d %H:%M:%S").unwrap();
    let line = "from 2019-03-14 10:00:30 to 2019-03-14 10:02:00, then 2019-03-14 10:00:61";
    assert_eq!(ready.extract(0, line).unwrap().timestamp(), 1_552_557_630);
    assert_eq!(ready.extract(1, line).unwrap().timestamp(), 1_552_557_720);
    assert_eq!(ready.extract(2, line), Err(ExtractError::ParseFailure(ParseErrorKind::OutOfRange)));
    assert_eq!(ready.extract(3, line), Err(ExtractError::NoMatch));
    assert_eq!(ready.extract(usize::MAX, line), Err(ExtractError::NoMatch));
    assert_eq!(ready.extract(0, "nothing here"), Err(ExtractError::NoMatch));
    assert_eq!(ready.extract(0, ""), Err(ExtractError::NoMatch));
}

#[test]
fn pattern_matches_shapes_that_the_calendar_refuses() {
    let ready = CompiledFormat::compile("%F %T").unwrap();
    for line in ["2019-03-14 10:00:61", "2019-13-01 00:00:00", "2019-02-31 00:00:00", "2019-03-14 24:00:00", "2019-00-14 10:00:00"] {
        assert_eq!(
            ready.extract(0, line),
            Err(ExtractError::ParseFailure(ParseErrorKind::OutOfRange)),
            "{:?}",
            line
        );
    }
    assert_eq!(ready.extract(0, "2019-3-14 10:00:00"), Err(ExtractError::NoMatch));
    assert_eq!(ready.extract(0, "2016-12-31 23:59:60").unwrap().timestamp(), 1_483_228_799);
    assert_eq!(ready.extract(0, "-0001-01-01 00:00:00").unwrap().timestamp(), -62_198_755_200);
}

#[test]
fn twelve_hour_clock_and_month_names() {
    let format = DateTimeFormat::new("%B %d, %Y %I:%M:%S %p").unwrap();
    assert_eq!(format.try_parse("March 14, 2019 04:59:34 PM").unwrap().timestamp(), 1_552_582_774);
    assert_eq!(format.try_parse("Mar 14, 2019 04:59:34 am").unwrap().timestamp(), 1_552_539_574);
    assert_eq!(format.try_parse("Mars 14, 2019 04:59:34 PM"), Err(ParseErrorKind::Invalid));
    assert_eq!(CompiledFormat::compile("%m/%d/%Y %I:%M:%S").err(), Some(FormatError::IncompleteFormat));
    let numeric = CompiledFormat::compile("%m/%d/%Y %I:%M:%S %p").unwrap();
    assert_eq!(numeric.extract(0, "on 03/14/2019 04:59:34 am it rained").unwrap().timestamp(), 1_552_539_574);
    assert_eq!(numeric.extract(0, "on 03/14/2019 04:59:34 pm it rained").unwrap().timestamp(), 1_552_582_774);
    assert_eq!(numeric.extract(0, "on 03/14/2019 04:59:34 PM it rained").unwrap().timestamp(), 1_552_582_774);
    assert_eq!(
        numeric.extract(0, "on 03/14/2019 13:59:34 am it rained"),
        Err(ExtractError::ParseFailure(ParseErrorKind::OutOfRange))
    );
    assert_eq!(numeric.extract(0, "on 03/14/2019 04:59:34 it rained"), Err(ExtractError::NoMatch));
    assert_eq!(numeric.extract(0, "am"), Err(ExtractError::NoMatch));
}

#[test]
fn names_in_a_pattern_are_alternatives_of_their_field_only() {
    let ready = CompiledFormat::compile("%b %d %Y %T").unwrap();
    assert_eq!(
        ready.pattern(),
        r"(?:Jan|Feb|Mar|Apr|May|Jun|Jul|Aug|Sep|Oct|Nov|Dec) \d{2} -?\d+ \d{2}:\d{2}:\d{2}"
    );
    assert_eq!(ready.extract(0, "Dec 24 2019 18:00:00").unwrap().timestamp(), 1_577_210_400);
    assert_eq!(ready.extract(0, "Mar 14 2019 18:00:00").unwrap().timestamp(), 1_552_586_400);
    assert_eq!(ready.extract(0, "in Mar, on Mar 14 2019 18:00:00").unwrap().timestamp(), 1_552_586_400);
    assert_eq!(ready.extract(0, "Mar"), Err(ExtractError::NoMatch));
    assert_eq!(ready.extract(1, "Mar 14 2019 18:00:00 Dec"), Err(ExtractError::NoMatch));
}

#[test]
fn a_timestamp_with_names_is_found_whole_in_its_line() {
    let format = DateTimeFormat::new("%b %d, %Y %I:%M:%S%P").unwrap();
    let line = "x Mar 14, 2019 04:59:34pm y";
    assert_eq!(format.regex().unwrap().find(line).unwrap().as_str(), "Mar 14, 2019 04:59:34pm");
    let ready = CompiledFormat::compile("%b %d, %Y %I:%M:%S%P").unwrap();
    assert_eq!(ready.extract(0, line).unwrap().timestamp(), 1_552_582_774);
    assert_eq!(ready.extract(1, line), Err(ExtractError::NoMatch));
    let long = CompiledFormat::compile("%B %d, %Y %I:%M:%S%P").unwrap();
    for month in ["March", "Mar"] {
        let line = format!("x {} 14, 2019 04:59:34am y, then {} 14, 2019 04:59:34pm z", month, month);
        assert_eq!(long.extract(0, &line).unwrap().timestamp(), 1_552_539_574);
        assert_eq!(long.extract(1, &line).unwrap().timestamp(), 1_552_582_774);
        assert_eq!(long.extract(2, &line), Err(ExtractError::NoMatch));
    }
    assert_eq!(
        long.extract(0, "x May 32, 2019 04:59:34am y"),
        Err(ExtractError::ParseFailure(ParseErrorKind::OutOfRange))
    );
}

#[test]
fn rows_are_rendered_with_date_time_and_count() {
    let row = Row { bucket: Instant::from_timestamp(1_431_648_000).unwrap(), count: 7 };
    assert_eq!(render_row(&row).unwrap(), "2015-05-15 00:00:00 UTC,7");
    let row = Row { bucket: Instant::from_timestamp(-1).unwrap(), count: 0 };
    assert_eq!(render_row(&row).unwrap(), "1969-12-31 23:59:59 UTC,0");
    let row = Row { bucket: Instant::from_timestamp(1_552_582_774).unwrap(), count: u64::MAX };
    assert_eq!(render_row(&row).unwrap(), "2019-03-14 16:59:34 UTC,18446744073709551615");
    let far = Row { bucket: Instant::from_timestamp(tbuck::instant::MAX_TIMESTAMP).unwrap(), count: 1 };
    assert_eq!(render_row(&far), None);
}

#[test]
fn counts_are_written_in_decimal() {
    for number in [0u64, 1, 9, 10, 11, 99, 100, 101, 1_000_000, 18_446_744_073_709_551_615] {
        assert_eq!(decimal_text(number), number.to_string());
    }
}

#[test]
fn patterns_find_every_rendering_whole() {
    let two_digits = |from: u32, to: u32| (from..=to).map(|n| format!("{:02}", n)).collect::<Vec<String>>();
    let names = |names: &[&str]| names.iter().map(|name| name.to_string()).collect::<Vec<String>>();
    let mut years: Vec<String> = (0..=9999).map(|year| format!("{:04}", year)).collect();
    years.extend(["-0001", "-0044", "-9999", "10000", "262142"].iter().map(|year| year.to_string()));
    let cases = vec![
        ("%Y", years),
        ("%m", two_digits(1, 12)),
        ("%d", two_digits(1, 31)),
        ("%H", two_digits(0, 23)),
        ("%I", two_digits(1, 12)),
        ("%M", two_digits(0, 59)),
        ("%S", two_digits(0, 60)),
        ("%b", names(&["Jan", "Feb", "Mar", "Apr", "May", "Jun", "Jul", "Aug", "Sep", "Oct", "Nov", "Dec"])),
        (
            "%B",
            names(&[
                "January", "February", "March", "April", "May", "June", "July", "August",
                "September", "October", "November", "December",
            ]),
        ),
        ("%p", names(&["AM", "PM"])),
        ("%P", names(&["am", "pm"])),
        ("%F", names(&["0001-01-01", "1991-08-10", "2019-03-14", "9999-12-31", "-0001-02-29"])),
        ("%T", names(&["00:00:00", "10:20:30", "23:59:59", "23:59:60"])),
        ("%s", names(&["0", "994518299", "1552609482", "253402300799"])),
    ];
    for (strftime, renderings) in cases {
        let regex = DateTimeFormat::new(strftime).unwrap().regex().unwrap();
        for rendering in renderings {
            assert!(regex.is_match(&rendering), "{} {}", strftime, rendering);
            assert_eq!(regex.find(&rendering).unwrap().as_str(), rendering, "{}", strftime);
        }
    }
}
