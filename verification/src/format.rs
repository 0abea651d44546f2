use vstd::prelude::*;
use chrono::format::{Item, ParseErrorKind};
use regex::Regex;
use vstd::string::StringExecFns;
use crate::instant::{in_span, Instant};
use crate::items::{
    fixed_format_to_default_value, fixed_format_to_regex_fragment, item_token, item_tokens,
    grouped, numeric_format_to_default_value, numeric_format_to_regex_fragment, token_default,
    token_fragment, token_supported, FormatItem, Token,
};
use crate::pattern::{compiled_from, pattern_compiles};

verus! {

#[verifier::external_type_specification]
pub struct ExParseErrorKind(ParseErrorKind);

/// The search pattern of a format: the fragments of its tokens, in order.
pub open spec fn search_pattern(tokens: Seq<Token>) -> Seq<char>
    decreases tokens.len(),
{
    if tokens.len() == 0 {
        Seq::empty()
    } else {
        search_pattern(tokens.drop_last()) + token_fragment(tokens.last())
    }
}

/// The text on which a format is tried out: the stand-ins of its tokens, in
/// order.
pub open spec fn default_text(tokens: Seq<Token>) -> Seq<char>
    decreases tokens.len(),
{
    if tokens.len() == 0 {
        Seq::empty()
    } else {
        default_text(tokens.drop_last()) + token_default(tokens.last())
    }
}

/// Whether a format may hold every one of `tokens`.
pub open spec fn all_supported(tokens: Seq<Token>) -> bool {
    forall|i: int| 0 <= i < tokens.len() ==> token_supported(#[trigger] tokens[i])
}

/// The tokens of a format that was read as `items`: the items' tokens where
/// each item has one and a format may hold it, none otherwise.
pub open spec fn accepted_tokens(items: Seq<Option<Token>>) -> Option<Seq<Token>> {
    if forall|i: int| 0 <= i < items.len() ==> (#[trigger] items[i]) is Some && token_supported(
        items[i]->0,
    ) {
        Some(Seq::new(items.len(), |i: int| items[i]->0))
    } else {
        None
    }
}

/// The items that `chrono::format::StrftimeItems` yields for a format
/// string, each as its token.
pub uninterp spec fn strftime_tokens(format: Seq<char>) -> Seq<Option<Token>>;

/// What `chrono::format::parse` followed by
/// `chrono::format::Parsed::to_datetime_with_timezone` in UTC makes of
/// `text` under the items that `tokens` stand for: the timestamp of the
/// date and time, or the kind of the error.
pub uninterp spec fn parsed_timestamp(tokens: Seq<Token>, text: Seq<char>) -> Result<
    int,
    ParseErrorKind,
>;

/// Collects what `chrono::format::StrftimeItems::new` yields for the format
/// string. The iterator reads the string from left to right and keeps no
/// other state, so the items depend on the string alone.
#[verifier::external_body]
fn strftime_items<'a>(format_string: &'a str) -> (items: Vec<Item<'a>>)
    ensures
        item_tokens(items@) == strftime_tokens(format_string@),
{
    chrono::format::StrftimeItems::new(format_string).collect()
}

/// The tokens of a sequence of format items.
pub open spec fn tokens_of(items: Seq<FormatItem>) -> Seq<Token> {
    Seq::new(items.len(), |i: int| items[i]@)
}

/// Hands `text` and the items to `chrono::format::parse`, then asks
/// `chrono::format::Parsed::to_datetime_with_timezone` for the date and time
/// in UTC, of which `chrono::DateTime::timestamp` gives the seconds since the
/// epoch. Where either step fails, `chrono::format::ParseError::kind` gives
/// the kind of its error. Both steps read only the items and the text.
#[verifier::external_body]
fn parse_timestamp(items: &Vec<FormatItem>, text: &str) -> (outcome: Result<i64, ParseErrorKind>)
    ensures
        match outcome {
            Ok(timestamp) => parsed_timestamp(tokens_of(items@), text@) == Ok::<
                int,
                ParseErrorKind,
            >(timestamp as int),
            Err(kind) => parsed_timestamp(tokens_of(items@), text@) == Err::<int, ParseErrorKind>(
                kind,
            ),
        },
{
    let mut parsed = chrono::format::Parsed::new();
    let scanned = chrono::format::parse(&mut parsed, text, items.iter().map(FormatItem::to_chrono));
    if let Err(error) = scanned {
        return Err(error.kind());
    }
    match parsed.to_datetime_with_timezone(&chrono::Utc) {
        Ok(datetime) => Ok(datetime.timestamp()),
        Err(error) => Err(error.kind()),
    }
}

/// The instant that a format reads from `text`, or the kind of the failure:
/// what chrono makes of the text, where the span holds the timestamp, and
/// out of range where it does not.
pub open spec fn parsed_instant(tokens: Seq<Token>, text: Seq<char>) -> Result<
    int,
    ParseErrorKind,
> {
    resolved(parsed_timestamp(tokens, text))
}

/// The outcome of a parse as the library reports it: a timestamp outside
/// the span counts as out of range.
pub open spec fn resolved(outcome: Result<int, ParseErrorKind>) -> Result<int, ParseErrorKind> {
    match outcome {
        Ok(timestamp) => if in_span(timestamp) {
            Ok(timestamp)
        } else {
            Err(ParseErrorKind::OutOfRange)
        },
        Err(kind) => Err(kind),
    }
}

/// Whether a format says enough to fix a date and a time: whether the text
/// made of its stand-ins can be read under it.
pub open spec fn is_complete(tokens: Seq<Token>) -> bool {
    parsed_instant(tokens, default_text(tokens)) is Ok
}

/// The outcome of a parse with the instant as its timestamp.
pub open spec fn outcome_view(outcome: Result<Instant, ParseErrorKind>) -> Result<
    int,
    ParseErrorKind,
> {
    match outcome {
        Ok(instant) => Ok(instant@),
        Err(kind) => Err(kind),
    }
}

/// A format for dates and times: what finds a timestamp in a line and what
/// reads it.
#[derive(Debug)]
pub struct DateTimeFormat {
    chrono_items: Vec<FormatItem>,
}

impl View for DateTimeFormat {
    type V = Seq<Token>;

    closed spec fn view(&self) -> Seq<Token> {
        tokens_of(self.chrono_items@)
    }
}

impl DateTimeFormat {
    /// A format holds only tokens that it may hold.
    #[verifier::type_invariant]
    pub open spec fn wf(&self) -> bool {
        all_supported(self@)
    }

    /// The format that `items` make up, where a format may hold each of
    /// them.
    pub fn from_items(items: Vec<Item<'_>>) -> (format: Option<DateTimeFormat>)
        ensures
            match format {
                Some(built) => accepted_tokens(item_tokens(items@)) == Some(built@),
                None => accepted_tokens(item_tokens(items@)) is None,
            },
    {
        let ghost given = item_tokens(items@);
        let mut chrono_items: Vec<FormatItem> = Vec::new();
        for item in it: items
            invariant
                item_tokens(it.seq()) == given,
                chrono_items@.len() == it.index(),
                forall|i: int|
                    0 <= i < it.index() ==> (#[trigger] given[i]) is Some && token_supported(
                        given[i]->0,
                    ) && chrono_items@[i]@ == given[i]->0,
        {
            let ghost at = it.index() as int;
            assert(given[at] == item_token(item));
            match FormatItem::from_chrono(item) {
                Some(owned) if owned.is_supported() => {
                    chrono_items.push(owned);
                },
                _ => {
                    return None;
                },
            }
        }
        assert(tokens_of(chrono_items@) == Seq::new(given.len(), |i: int| given[i]->0));
        Some(DateTimeFormat { chrono_items })
    }

    /// Reads a format string such as `%Y-%m-%d %H:%M:%S`.
    pub fn new(format_string: &str) -> (format: Option<DateTimeFormat>)
        ensures
            match format {
                Some(built) => accepted_tokens(strftime_tokens(format_string@)) == Some(built@),
                None => accepted_tokens(strftime_tokens(format_string@)) is None,
            },
    {
        DateTimeFormat::from_items(strftime_items(format_string))
    }

    /// The search pattern that finds occurrences of this format in a line.
    pub fn pattern(&self) -> (expression: String)
        ensures
            expression@ == search_pattern(self@),
    {
        proof {
            use_type_invariant(self);
        }
        let mut expression = String::new();
        let mut done: usize = 0;
        while done < self.chrono_items.len()
            invariant
                done <= self.chrono_items.len(),
                all_supported(self@),
                self@ == tokens_of(self.chrono_items@),
                expression@ == search_pattern(self@.take(done as int)),
            decreases self.chrono_items.len() - done,
        {
            proof {
                let longer = self@.take(done + 1);
                assert(longer.drop_last() == self@.take(done as int));
                assert(longer.last() == self@[done as int]);
                assert(token_supported(self@[done as int]));
            }
            match &self.chrono_items[done] {
                FormatItem::Literal(string) | FormatItem::Space(string) => {
                    let quoted = regex::escape(string.as_str());
                    expression.append(quoted.as_str());
                },
                FormatItem::Numeric(numeric, pad) => {
                    if let Some(fragment) = numeric_format_to_regex_fragment(numeric, *pad) {
                        expression.append(fragment);
                    }
                },
                FormatItem::Fixed(fixed) => {
                    if let Some(fragment) = fixed_format_to_regex_fragment(fixed) {
                        let ghost before = expression@;
                        expression.append("(?:");
                        expression.append(fragment);
                        expression.append(")");
                        assert(expression@ == before + grouped(fragment@));
                    }
                },
            }
            done += 1;
        }
        assert(self@.take(done as int) == self@);
        expression
    }

    /// The compiled search pattern, where the regex engine takes it.
    pub fn regex(&self) -> (compiled: Option<Regex>)
        ensures
            compiled is Some <==> pattern_compiles(search_pattern(self@)),
            compiled matches Some(regex) ==> compiled_from(regex) == Some(search_pattern(self@)),
    {
        let expression = self.pattern();
        match Regex::new(expression.as_str()) {
            Ok(regex) => Some(regex),
            Err(_) => None,
        }
    }

    /// What a parse comes to: the instant at the timestamp that was read,
    /// where the span holds it; out of range where it does not; the failure
    /// as it is.
    pub fn resolve(outcome: Result<i64, ParseErrorKind>) -> (instant: Result<
        Instant,
        ParseErrorKind,
    >)
        ensures
            outcome_view(instant) == resolved(
                match outcome {
                    Ok(timestamp) => Ok(timestamp as int),
                    Err(kind) => Err(kind),
                },
            ),
    {
        match outcome {
            Ok(timestamp) => match Instant::from_timestamp(timestamp) {
                Some(instant) => Ok(instant),
                None => Err(ParseErrorKind::OutOfRange),
            },
            Err(kind) => Err(kind),
        }
    }

    /// Reads `text`, which the search pattern matched, as a date and time
    /// in UTC.
    pub fn try_parse(&self, text: &str) -> (instant: Result<Instant, ParseErrorKind>)
        ensures
            outcome_view(instant) == parsed_instant(self@, text@),
    {
        DateTimeFormat::resolve(parse_timestamp(&self.chrono_items, text))
    }

    /// The text on which the format is tried out: a stand-in for each
    /// field, between the format's own text.
    pub fn default_values(&self) -> (text: String)
        ensures
            text@ == default_text(self@),
    {
        proof {
            use_type_invariant(self);
        }
        let mut text = String::new();
        let mut done: usize = 0;
        while done < self.chrono_items.len()
            invariant
                done <= self.chrono_items.len(),
                all_supported(self@),
                self@ == tokens_of(self.chrono_items@),
                text@ == default_text(self@.take(done as int)),
            decreases self.chrono_items.len() - done,
        {
            proof {
                let longer = self@.take(done + 1);
                assert(longer.drop_last() == self@.take(done as int));
                assert(longer.last() == self@[done as int]);
                assert(token_supported(self@[done as int]));
            }
            match &self.chrono_items[done] {
                FormatItem::Literal(string) | FormatItem::Space(string) => {
                    text.append(string.as_str());
                },
                FormatItem::Numeric(numeric, pad) => {
                    if let Some(value) = numeric_format_to_default_value(numeric, *pad) {
                        text.append(value);
                    }
                },
                FormatItem::Fixed(fixed) => {
                    if let Some(value) = fixed_format_to_default_value(fixed) {
                        text.append(value);
                    }
                },
            }
            done += 1;
        }
        assert(self@.take(done as int) == self@);
        text
    }

    /// Whether the format says enough to fix a date and a time.
    pub fn has_enough_info(&self) -> (enough: bool)
        ensures
            enough == is_complete(self@),
    {
        let text = self.default_values();
        self.try_parse(text.as_str()).is_ok()
    }
}

} // verus!
