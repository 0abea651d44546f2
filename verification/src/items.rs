use vstd::prelude::*;
use chrono::format::{Fixed, InternalFixed, InternalNumeric, Item, Numeric, Pad};
use crate::pattern::escaped;

verus! {

// The types of chrono's format items. The items and the fields that they
// name are taken with their variants as chrono defines them. The padding of
// a number, which nothing here reads, and the two types that chrono keeps for
// its own use are taken as they are, with nothing known of what is inside.

#[verifier::external_type_specification]
#[verifier::external_body]
pub struct ExPad(Pad);

#[verifier::external_type_specification]
#[verifier::external_body]
pub struct ExInternalNumeric(InternalNumeric);

#[verifier::external_type_specification]
#[verifier::external_body]
pub struct ExInternalFixed(InternalFixed);

#[verifier::external_type_specification]
pub struct ExNumeric(Numeric);

#[verifier::external_type_specification]
pub struct ExFixed(Fixed);

#[verifier::external_type_specification]
pub struct ExItem<'a>(Item<'a>);

/// The derived `Clone` of `chrono::format::Numeric` copies the value.
pub assume_specification[ <chrono::format::Numeric as Clone>::clone ](
    value: &chrono::format::Numeric,
) -> (copy: chrono::format::Numeric)
    ensures
        copy == *value,
;

/// The derived `Clone` of `chrono::format::Fixed` copies the value.
pub assume_specification[ <chrono::format::Fixed as Clone>::clone ](
    value: &chrono::format::Fixed,
) -> (copy: chrono::format::Fixed)
    ensures
        copy == *value,
;

/// What a format item is, with its text as a sequence of characters.
pub enum Token {
    Literal(Seq<char>),
    Space(Seq<char>),
    Numeric(Numeric, Pad),
    Fixed(Fixed),
}

/// The token that a format item of chrono stands for; none for the item that
/// reports a specifier that chrono does not know.
pub open spec fn item_token(item: Item<'_>) -> Option<Token> {
    match item {
        Item::Literal(text) => Some(Token::Literal(text@)),
        Item::OwnedLiteral(text) => Some(Token::Literal(text@)),
        Item::Space(text) => Some(Token::Space(text@)),
        Item::OwnedSpace(text) => Some(Token::Space(text@)),
        Item::Numeric(numeric, pad) => Some(Token::Numeric(numeric, pad)),
        Item::Fixed(fixed) => Some(Token::Fixed(fixed)),
        Item::Error => None,
    }
}

/// The tokens of a sequence of chrono's items.
pub open spec fn item_tokens(items: Seq<Item<'_>>) -> Seq<Option<Token>> {
    Seq::new(items.len(), |i: int| item_token(items[i]))
}

/// The search-pattern fragment for a numeric field: a sign and digits for
/// the year, exactly two digits for the fields of the calendar and the
/// clock, digits for a timestamp. None for a field that no format may hold.
pub open spec fn numeric_fragment(numeric: Numeric) -> Option<Seq<char>> {
    match numeric {
        Numeric::Year => Some("-?\\d+"@),
        Numeric::Month | Numeric::Day | Numeric::Hour | Numeric::Hour12 | Numeric::Minute
        | Numeric::Second => Some("\\d{2}"@),
        Numeric::Timestamp => Some("\\d+"@),
        _ => None,
    }
}

/// The text that stands in for a numeric field when a format is tried out.
pub open spec fn numeric_default(numeric: Numeric) -> Option<Seq<char>> {
    match numeric {
        Numeric::Year => Some("0001"@),
        Numeric::Month | Numeric::Day | Numeric::Hour12 => Some("01"@),
        Numeric::Hour | Numeric::Minute | Numeric::Second => Some("00"@),
        Numeric::Timestamp => Some("000000000"@),
        _ => None,
    }
}

/// The search-pattern fragment for a named field: the names of the months
/// or the markers of the half of the day, as alternatives. None for a field
/// that no format may hold.
pub open spec fn fixed_fragment(fixed: Fixed) -> Option<Seq<char>> {
    match fixed {
        Fixed::ShortMonthName => Some("Jan|Feb|Mar|Apr|May|Jun|Jul|Aug|Sep|Oct|Nov|Dec"@),
        Fixed::LongMonthName => Some(
            "Jan(uary)?|Feb(ruary)?|Mar(ch)?|Apr(il)?|May|June?|July?|Aug(ust)?|Sep(tember)?|Oct(ober)?|Nov(ember)?|Dec(ember)?"@,
        ),
        Fixed::LowerAmPm | Fixed::UpperAmPm => Some("am|AM|pm|PM"@),
        _ => None,
    }
}

/// The text that stands in for a named field when a format is tried out.
pub open spec fn fixed_default(fixed: Fixed) -> Option<Seq<char>> {
    match fixed {
        Fixed::ShortMonthName => Some("Jan"@),
        Fixed::LongMonthName => Some("January"@),
        Fixed::LowerAmPm => Some("am"@),
        Fixed::UpperAmPm => Some("AM"@),
        _ => None,
    }
}

/// Whether a format may hold `token`: any text, and the fields that have a
/// search-pattern fragment.
pub open spec fn token_supported(token: Token) -> bool {
    match token {
        Token::Literal(_) | Token::Space(_) => true,
        Token::Numeric(numeric, _) => numeric_fragment(numeric) is Some,
        Token::Fixed(fixed) => fixed_fragment(fixed) is Some,
    }
}

/// A fragment as a group of its own that captures nothing, so that the
/// alternatives in it are alternatives of the fragment and not of the
/// pattern around it.
pub open spec fn grouped(fragment: Seq<char>) -> Seq<char> {
    "(?:"@ + fragment + ")"@
}

/// What `token` adds to the search pattern: its text with the meta
/// characters escaped, the fragment of its numeric field, or the fragment of
/// its named field as a group.
pub open spec fn token_fragment(token: Token) -> Seq<char> {
    match token {
        Token::Literal(text) | Token::Space(text) => escaped(text),
        Token::Numeric(numeric, _) => match numeric_fragment(numeric) {
            Some(fragment) => fragment,
            None => Seq::empty(),
        },
        Token::Fixed(fixed) => match fixed_fragment(fixed) {
            Some(fragment) => grouped(fragment),
            None => Seq::empty(),
        },
    }
}

/// What `token` adds to the text on which a format is tried out: its own
/// text, or the stand-in of its field.
pub open spec fn token_default(token: Token) -> Seq<char> {
    match token {
        Token::Literal(text) | Token::Space(text) => text,
        Token::Numeric(numeric, _) => match numeric_default(numeric) {
            Some(text) => text,
            None => Seq::empty(),
        },
        Token::Fixed(fixed) => match fixed_default(fixed) {
            Some(text) => text,
            None => Seq::empty(),
        },
    }
}

/// The search-pattern fragment for a numeric field, where a format may hold
/// the field. The padding makes no difference.
pub fn numeric_format_to_regex_fragment(numeric: &Numeric, _pad: Pad) -> (fragment: Option<
    &'static str,
>)
    ensures
        match fragment {
            Some(text) => numeric_fragment(*numeric) == Some(text@),
            None => numeric_fragment(*numeric) is None,
        },
{
    match numeric {
        Numeric::Year => Some("-?\\d+"),
        Numeric::Month | Numeric::Day | Numeric::Hour | Numeric::Hour12 | Numeric::Minute
        | Numeric::Second => Some("\\d{2}"),
        Numeric::Timestamp => Some("\\d+"),
        _ => None,
    }
}

/// The text that stands in for a numeric field when a format is tried out,
/// where a format may hold the field.
pub fn numeric_format_to_default_value(numeric: &Numeric, _pad: Pad) -> (value: Option<
    &'static str,
>)
    ensures
        match value {
            Some(text) => numeric_default(*numeric) == Some(text@),
            None => numeric_default(*numeric) is None,
        },
{
    match numeric {
        Numeric::Year => Some("0001"),
        Numeric::Month | Numeric::Day | Numeric::Hour12 => Some("01"),
        Numeric::Hour | Numeric::Minute | Numeric::Second => Some("00"),
        Numeric::Timestamp => Some("000000000"),
        _ => None,
    }
}

/// The search-pattern fragment for a named field, where a format may hold
/// the field.
pub fn fixed_format_to_regex_fragment(fixed: &Fixed) -> (fragment: Option<&'static str>)
    ensures
        match fragment {
            Some(text) => fixed_fragment(*fixed) == Some(text@),
            None => fixed_fragment(*fixed) is None,
        },
{
    match fixed {
        Fixed::ShortMonthName => Some("Jan|Feb|Mar|Apr|May|Jun|Jul|Aug|Sep|Oct|Nov|Dec"),
        Fixed::LongMonthName => Some(
            "Jan(uary)?|Feb(ruary)?|Mar(ch)?|Apr(il)?|May|June?|July?|Aug(ust)?|Sep(tember)?|Oct(ober)?|Nov(ember)?|Dec(ember)?",
        ),
        Fixed::LowerAmPm | Fixed::UpperAmPm => Some("am|AM|pm|PM"),
        _ => None,
    }
}

/// The text that stands in for a named field when a format is tried out,
/// where a format may hold the field.
pub fn fixed_format_to_default_value(fixed: &Fixed) -> (value: Option<&'static str>)
    ensures
        match value {
            Some(text) => fixed_default(*fixed) == Some(text@),
            None => fixed_default(*fixed) is None,
        },
{
    match fixed {
        Fixed::ShortMonthName => Some("Jan"),
        Fixed::LongMonthName => Some("January"),
        Fixed::LowerAmPm => Some("am"),
        Fixed::UpperAmPm => Some("AM"),
        _ => None,
    }
}

/// A format item that owns its text.
#[derive(Debug)]
pub enum FormatItem {
    Literal(String),
    Space(String),
    Numeric(Numeric, Pad),
    Fixed(Fixed),
}

impl View for FormatItem {
    type V = Token;

    open spec fn view(&self) -> Token {
        match *self {
            FormatItem::Literal(text) => Token::Literal(text@),
            FormatItem::Space(text) => Token::Space(text@),
            FormatItem::Numeric(numeric, pad) => Token::Numeric(numeric, pad),
            FormatItem::Fixed(fixed) => Token::Fixed(fixed),
        }
    }
}

impl FormatItem {
    /// The owned counterpart of one of chrono's items; none for the item
    /// that reports a specifier that chrono does not know.
    pub fn from_chrono(item: Item<'_>) -> (owned: Option<FormatItem>)
        ensures
            match owned {
                Some(made) => item_token(item) == Some(made@),
                None => item_token(item) is None,
            },
    {
        match item {
            Item::Literal(text) => Some(FormatItem::Literal(text.to_owned())),
            Item::OwnedLiteral(text) => {
                let text: &str = &*text;
                Some(FormatItem::Literal(text.to_owned()))
            },
            Item::Space(text) => Some(FormatItem::Space(text.to_owned())),
            Item::OwnedSpace(text) => {
                let text: &str = &*text;
                Some(FormatItem::Space(text.to_owned()))
            },
            Item::Numeric(numeric, pad) => Some(FormatItem::Numeric(numeric, pad)),
            Item::Fixed(fixed) => Some(FormatItem::Fixed(fixed)),
            Item::Error => None,
        }
    }

    /// Whether a format may hold the item.
    pub fn is_supported(&self) -> (supported: bool)
        ensures
            supported == token_supported(self@),
    {
        match self {
            FormatItem::Numeric(numeric, pad) => numeric_format_to_regex_fragment(
                numeric,
                *pad,
            ).is_some(),
            FormatItem::Fixed(fixed) => fixed_format_to_regex_fragment(fixed).is_some(),
            _ => true,
        }
    }

    /// The item of chrono that this one stands for, borrowing its text.
    pub fn to_chrono(&self) -> (item: Item<'_>)
        ensures
            item_token(item) == Some(self@),
            !(item is OwnedLiteral),
            !(item is OwnedSpace),
    {
        match self {
            FormatItem::Literal(string) => Item::Literal(string.as_str()),
            FormatItem::Space(string) => Item::Space(string.as_str()),
            FormatItem::Numeric(numeric, pad) => Item::Numeric(numeric.clone(), *pad),
            FormatItem::Fixed(fixed) => Item::Fixed(fixed.clone()),
        }
    }
}

} // verus!
