use vstd::prelude::*;
use vstd::string::StringExecFns;
use crate::table::Row;

verus! {

/// The character for the decimal digit `digit`.
pub open spec fn digit_char(digit: nat) -> char {
    if digit == 0 {
        '0'
    } else if digit == 1 {
        '1'
    } else if digit == 2 {
        '2'
    } else if digit == 3 {
        '3'
    } else if digit == 4 {
        '4'
    } else if digit == 5 {
        '5'
    } else if digit == 6 {
        '6'
    } else if digit == 7 {
        '7'
    } else if digit == 8 {
        '8'
    } else {
        '9'
    }
}

/// The decimal numeral of `number`, without leading zeros.
pub open spec fn decimal(number: nat) -> Seq<char>
    decreases number,
{
    if number < 10 {
        seq![digit_char(number)]
    } else {
        decimal(number / 10).push(digit_char(number % 10))
    }
}

/// What chrono's `Display` writes for the date and time in UTC at
/// `timestamp`, such as `2015-05-15 00:00:00 UTC`; none where chrono has no
/// date and time for the timestamp.
pub uninterp spec fn rendered_timestamp(timestamp: int) -> Option<Seq<char>>;

/// The line for a row: the bucket's date and time, a comma, the count.
pub open spec fn rendered_row(row: (int, nat)) -> Option<Seq<char>> {
    match rendered_timestamp(row.0) {
        Some(text) => Some(text + seq![','] + decimal(row.1)),
        None => None,
    }
}

/// Makes the UTC date and time with `chrono::DateTime::from_timestamp`,
/// which gives none where the timestamp is out of chrono's range, and writes
/// it with its `Display`, through `to_string`.
#[verifier::external_body]
fn render_timestamp(timestamp: i64) -> (text: Option<String>)
    ensures
        match text {
            Some(written) => rendered_timestamp(timestamp as int) == Some(written@),
            None => rendered_timestamp(timestamp as int) is None,
        },
{
    match chrono::DateTime::from_timestamp(timestamp, 0) {
        Some(datetime) => Some(datetime.to_string()),
        None => None,
    }
}

/// The text of one decimal digit.
fn digit_text(digit: u64) -> (text: &'static str)
    requires
        digit < 10,
    ensures
        text@ == seq![digit_char(digit as nat)],
{
    proof {
        reveal_strlit("0");
        reveal_strlit("1");
        reveal_strlit("2");
        reveal_strlit("3");
        reveal_strlit("4");
        reveal_strlit("5");
        reveal_strlit("6");
        reveal_strlit("7");
        reveal_strlit("8");
        reveal_strlit("9");
    }
    let text = if digit == 0 {
        "0"
    } else if digit == 1 {
        "1"
    } else if digit == 2 {
        "2"
    } else if digit == 3 {
        "3"
    } else if digit == 4 {
        "4"
    } else if digit == 5 {
        "5"
    } else if digit == 6 {
        "6"
    } else if digit == 7 {
        "7"
    } else if digit == 8 {
        "8"
    } else {
        "9"
    };
    assert(text@ =~= seq![digit_char(digit as nat)]);
    text
}

/// Writes `number` in decimal.
pub fn decimal_text(number: u64) -> (text: String)
    ensures
        text@ == decimal(number as nat),
    decreases number,
{
    if number < 10 {
        String::from_str(digit_text(number))
    } else {
        let mut text = decimal_text(number / 10);
        text.append(digit_text(number % 10));
        assert(text@ =~= decimal((number / 10) as nat).push(digit_char((number % 10) as nat)));
        text
    }
}

/// The line that goes out for `row`, where chrono can write its bucket.
pub fn render_row(row: &Row) -> (line: Option<String>)
    ensures
        match line {
            Some(text) => rendered_row(row@) == Some(text@),
            None => rendered_row(row@) is None,
        },
{
    match render_timestamp(row.bucket.timestamp()) {
        Some(mut text) => {
            proof {
                reveal_strlit(",");
            }
            text.append(",");
            let count = decimal_text(row.count);
            text.append(count.as_str());
            assert(","@ =~= seq![',']);
            Some(text)
        },
        None => None,
    }
}

} // verus!
