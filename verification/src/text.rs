use vstd::prelude::*;

verus! {

/// Whether `c` is one of the ASCII decimal digits.
pub open spec fn is_digit(c: char) -> bool {
    '0' <= c && c <= '9'
}

/// The value of the decimal digit `c`.
pub open spec fn digit_value(c: char) -> nat {
    (c as nat - '0' as nat) as nat
}

/// Whether every character of `s` is an ASCII decimal digit.
pub open spec fn all_digits(s: Seq<char>) -> bool {
    forall|i: int| 0 <= i < s.len() ==> is_digit(#[trigger] s[i])
}

/// The number that the digit string `s` denotes in base ten; zero for the
/// empty string.
pub open spec fn digits_value(s: Seq<char>) -> nat
    decreases s.len(),
{
    if s.len() == 0 {
        0
    } else {
        10 * digits_value(s.drop_last()) + digit_value(s.last())
    }
}

/// The number written by `s` as an unsigned decimal numeral: an optional
/// leading `+`, then one or more ASCII digits. `None` for any other text.
pub open spec fn unsigned_decimal(s: Seq<char>) -> Option<nat> {
    let body = if s.len() > 0 && s[0] == '+' {
        s.drop_first()
    } else {
        s
    };
    if body.len() > 0 && all_digits(body) {
        Some(digits_value(body))
    } else {
        None
    }
}

/// The number written by `s`, where it is an unsigned decimal numeral whose
/// value is at most `limit`.
pub open spec fn bounded_decimal(s: Seq<char>, limit: nat) -> Option<nat> {
    match unsigned_decimal(s) {
        Some(v) if v <= limit => Some(v),
        _ => None,
    }
}

/// The number written by `s`, where it is an unsigned decimal numeral whose
/// value fits in 32 bits.
pub open spec fn decimal_u32(s: Seq<char>) -> Option<u32> {
    match bounded_decimal(s, u32::MAX as nat) {
        Some(v) => Some(v as u32),
        None => None,
    }
}

/// The number written by `s`, where it is an unsigned decimal numeral whose
/// value fits in a machine word.
pub open spec fn decimal_usize(s: Seq<char>) -> Option<usize> {
    match bounded_decimal(s, usize::MAX as nat) {
        Some(v) => Some(v as usize),
        None => None,
    }
}

/// The characters of `text`, in order.
pub fn to_chars(text: &str) -> (chars: Vec<char>)
    ensures
        chars@ == text@,
{
    let mut chars: Vec<char> = Vec::new();
    for c in it: text.chars()
        invariant
            it.seq() == text@,
            chars@ == it.seq().take(it.index() as int),
    {
        chars.push(c);
    }
    chars
}

/// Finds the first occurrence of `c` among `chars`.
pub fn find_char(chars: &Vec<char>, c: char) -> (found: Option<usize>)
    ensures
        match found {
            Some(at) => at < chars.len() && chars@.index_of_first(c) == Some(at as int),
            None => chars@.index_of_first(c) is None,
        },
{
    let mut at: usize = 0;
    while at < chars.len()
        invariant
            at <= chars.len(),
            forall|j: int| 0 <= j < at ==> chars@[j] != c,
        decreases chars.len() - at,
    {
        if chars[at] == c {
            proof {
                chars@.index_of_first_ensures(c);
                assert(chars@.contains(c));
            }
            return Some(at);
        }
        at += 1;
    }
    proof {
        chars@.index_of_first_ensures(c);
        assert(!chars@.contains(c));
    }
    None
}

/// Reads the first `end` characters of `chars` as an unsigned decimal numeral
/// of a value up to `limit`.
pub fn parse_decimal(chars: &Vec<char>, end: usize, limit: u64) -> (value: Option<u64>)
    requires
        end <= chars.len(),
    ensures
        match value {
            Some(v) => bounded_decimal(chars@.take(end as int), limit as nat) == Some(v as nat),
            None => bounded_decimal(chars@.take(end as int), limit as nat) is None,
        },
{
    let ghost numeral = chars@.take(end as int);
    let start: usize = if end > 0 && chars[0] == '+' {
        1
    } else {
        0
    };
    let ghost body = chars@.subrange(start as int, end as int);
    assert(body == if numeral.len() > 0 && numeral[0] == '+' {
        numeral.drop_first()
    } else {
        numeral
    });
    if start == end {
        return None;
    }
    let ghost expected = if all_digits(body) && digits_value(body) <= limit {
        Some(digits_value(body))
    } else {
        None
    };
    assert(bounded_decimal(numeral, limit as nat) == expected);
    let mut at: usize = start;
    let mut total: u64 = 0;
    while at < end
        invariant
            start <= at <= end <= chars.len(),
            body == chars@.subrange(start as int, end as int),
            all_digits(body.take(at - start)),
            total == digits_value(body.take(at - start)),
            total <= limit,
            bounded_decimal(chars@.take(end as int), limit as nat) == expected,
            expected == if all_digits(body) && digits_value(body) <= limit {
                Some(digits_value(body))
            } else {
                None::<nat>
            },
        decreases end - at,
    {
        let c = chars[at];
        if !(c >= '0' && c <= '9') {
            assert(!is_digit(body[at - start]));
            return None;
        }
        let digit: u64 = (c as u32 - '0' as u32) as u64;
        proof {
            let shorter = body.take(at - start);
            let longer = body.take(at + 1 - start);
            assert(longer.drop_last() == shorter);
            assert(longer.last() == c);
            assert forall|i: int| 0 <= i < longer.len() implies is_digit(#[trigger] longer[i]) by {
                if i < shorter.len() {
                    assert(longer[i] == shorter[i]);
                }
            }
            digits_value_grows(body, at + 1 - start);
        }
        if total > limit / 10 || digit > limit - total * 10 {
            return None;
        }
        total = total * 10 + digit;
        at += 1;
    }
    assert(body.take(at - start) == body);
    Some(total)
}

/// Reads the first `end` characters of `chars` as an unsigned decimal numeral
/// of at most 32 bits.
pub fn parse_decimal_u32(chars: &Vec<char>, end: usize) -> (value: Option<u32>)
    requires
        end <= chars.len(),
    ensures
        value == decimal_u32(chars@.take(end as int)),
{
    match parse_decimal(chars, end, u32::MAX as u64) {
        Some(value) => Some(value as u32),
        None => None,
    }
}

/// Reads `text` as an unsigned decimal numeral that fits in a machine word.
pub fn parse_decimal_usize(text: &str) -> (value: Option<usize>)
    ensures
        value == decimal_usize(text@),
{
    let chars = to_chars(text);
    assert(chars@.take(chars@.len() as int) == chars@);
    match parse_decimal(&chars, chars.len(), usize::MAX as u64) {
        Some(value) => Some(value as usize),
        None => None,
    }
}

/// A numeral is worth at least as much as any of its prefixes.
pub proof fn digits_value_grows(s: Seq<char>, n: int)
    requires
        0 <= n <= s.len(),
    ensures
        digits_value(s.take(n)) <= digits_value(s),
    decreases s.len() - n,
{
    if n == s.len() {
        assert(s.take(n) == s);
    } else {
        digits_value_grows(s, n + 1);
        assert(s.take(n + 1).drop_last() == s.take(n));
    }
}

} // verus!
