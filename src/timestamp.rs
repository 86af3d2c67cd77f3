//! Calendar timestamps read from the start of an ISO-8601 string.

use vstd::prelude::*;
use vstd::string::StringSliceAdditionalSpecFns;

verus! {

/// A calendar date and time of day, without a weekday.
#[derive(Clone, Copy, Debug, PartialEq, Eq, Structural)]
pub struct Timestamp {
    pub year: u16,
    pub month: u8,
    pub day: u8,
    pub hour: u8,
    pub minute: u8,
    pub second: u8,
}

pub open spec fn is_digit(b: u8) -> bool {
    48 <= b <= 57
}

pub open spec fn all_digits(s: Seq<u8>) -> bool {
    forall|i: int| 0 <= i < s.len() ==> is_digit(#[trigger] s[i])
}

/// The number written by the decimal digits `s`.
pub open spec fn digits_value(s: Seq<u8>) -> nat
    decreases s.len(),
{
    if s.len() == 0 {
        0
    } else {
        digits_value(s.drop_last()) * 10 + (s.last() - 48) as nat
    }
}

pub open spec fn pow10(n: nat) -> nat
    decreases n,
{
    if n == 0 {
        1
    } else {
        10 * pow10((n - 1) as nat)
    }
}

/// An unsigned decimal field: one or more digits, optionally after a single
/// `+`.
pub open spec fn field_value(s: Seq<u8>) -> Option<nat> {
    if s.len() >= 1 && all_digits(s) {
        Some(digits_value(s))
    } else if s.len() >= 2 && s[0] == 43 && all_digits(s.drop_first()) {
        Some(digits_value(s.drop_first()))
    } else {
        None
    }
}

/// The timestamp at the start of `b`, laid out as `YYYY-MM-DDTHH:MM:SS`
/// followed by at least one more byte, or `None`.
pub open spec fn parse_spec(b: Seq<u8>) -> Option<Timestamp> {
    let year = field_value(b.subrange(0, 4));
    let month = field_value(b.subrange(5, 7));
    let day = field_value(b.subrange(8, 10));
    let hour = field_value(b.subrange(11, 13));
    let minute = field_value(b.subrange(14, 16));
    let second = field_value(b.subrange(17, 19));
    if b.len() >= 20 && year is Some && b[4] == 45 && month is Some && b[7] == 45 && day is Some
        && b[10] == 84 && hour is Some && b[13] == 58 && minute is Some && b[16] == 58
        && second is Some {
        Some(
            Timestamp {
                year: year->Some_0 as u16,
                month: month->Some_0 as u8,
                day: day->Some_0 as u8,
                hour: hour->Some_0 as u8,
                minute: minute->Some_0 as u8,
                second: second->Some_0 as u8,
            },
        )
    } else {
        None
    }
}

/// Days counted for a month number: the days up to and including that month
/// of a non-leap year, and zero for a number outside `1..=12`.
pub open spec fn month_days(month: u8) -> nat {
    if month == 1 {
        31
    } else if month == 2 {
        59
    } else if month == 3 {
        90
    } else if month == 4 {
        120
    } else if month == 5 {
        151
    } else if month == 6 {
        181
    } else if month == 7 {
        212
    } else if month == 8 {
        243
    } else if month == 9 {
        273
    } else if month == 10 {
        304
    } else if month == 11 {
        334
    } else if month == 12 {
        365
    } else {
        0
    }
}

/// Seconds counted for a timestamp, with 365-day years.
pub open spec fn secs_spec(t: Timestamp) -> nat {
    t.year as nat * 31536000 + month_days(t.month) * 86400 + t.day as nat * 86400 + t.hour as nat
        * 3600 + t.minute as nat * 60 + t.second as nat
}

proof fn lemma_pow10_small(n: nat)
    requires
        n <= 4,
    ensures
        pow10(n) <= 10000,
{
    reveal_with_fuel(pow10, 5);
}

/// Reads the decimal field `b[start..end]`.
fn parse_field(b: &[u8], start: usize, end: usize) -> (r: Option<u16>)
    requires
        start < end <= b@.len(),
        end - start <= 4,
    ensures
        r is Some <==> field_value(b@.subrange(start as int, end as int)) is Some,
        r is Some ==> r->Some_0 as nat == field_value(
            b@.subrange(start as int, end as int),
        )->Some_0,
        r is Some ==> (r->Some_0 as nat) < pow10((end - start) as nat),
{
    let ghost s = b@.subrange(start as int, end as int);
    let first = if b[start] == 43 && end - start >= 2 {
        start + 1
    } else {
        start
    };
    let ghost ds = b@.subrange(first as int, end as int);
    assert(first == start + 1 ==> ds =~= s.drop_first());
    assert(first == start ==> ds =~= s);
    let mut val: u32 = 0;
    let mut i = first;
    while i < end
        invariant
            first <= i <= end,
            end <= b@.len(),
            s == b@.subrange(start as int, end as int),
            ds == b@.subrange(first as int, end as int),
            first == start + 1 ==> ds =~= s.drop_first() && s[0] == 43,
            first == start ==> ds =~= s && !(s[0] == 43 && s.len() >= 2),
            first == start || first == start + 1,
            end - first <= 4,
            forall|j: int| first <= j < i ==> is_digit(#[trigger] b@[j]),
            val as nat == digits_value(b@.subrange(first as int, i as int)),
            (val as nat) < pow10((i - first) as nat),
        decreases end - i,
    {
        let d = b[i];
        if d < 48 || d > 57 {
            assert(!is_digit(ds[i - first]));
            assert(!all_digits(ds));
            if first == start + 1 {
                assert(!is_digit(s[0]));
            }
            return None;
        }
        proof {
            lemma_pow10_small((i - first) as nat);
            assert(b@.subrange(first as int, i + 1).drop_last() =~= b@.subrange(
                first as int,
                i as int,
            ));
        }
        val = val * 10 + (d - 48) as u32;
        i = i + 1;
    }
    proof {
        assert(all_digits(ds));
        assert(ds =~= b@.subrange(first as int, i as int));
        if first == start + 1 {
            assert(s[0] == 43);
            if s.len() >= 1 && all_digits(s) {
                assert(!is_digit(s[0]));
            }
        }
        lemma_pow10_small((end - first) as nat);
        reveal_with_fuel(pow10, 2);
    }
    Some(val as u16)
}

impl Timestamp {
    /// Reads a timestamp from the start of an ISO-8601 string such as
    /// `2024-12-15T14:40:18.167264-05:00`; anything after the seconds is
    /// ignored, but at least one byte must follow them.
    pub fn parse(value: &str) -> (r: Option<Timestamp>)
        ensures
            r == parse_spec(value.spec_bytes()),
    {
        let b = value.as_bytes();
        if b.len() < 20 {
            return None;
        }
        let year = parse_field(b, 0, 4);
        let month = parse_field(b, 5, 7);
        let day = parse_field(b, 8, 10);
        let hour = parse_field(b, 11, 13);
        let minute = parse_field(b, 14, 16);
        let second = parse_field(b, 17, 19);
        match (year, month, day, hour, minute, second) {
            (Some(year), Some(month), Some(day), Some(hour), Some(minute), Some(second)) => {
                if b[4] == 45 && b[7] == 45 && b[10] == 84 && b[13] == 58 && b[16] == 58 {
                    proof {
                        reveal_with_fuel(pow10, 3);
                    }
                    Some(
                        Timestamp {
                            year,
                            month: month as u8,
                            day: day as u8,
                            hour: hour as u8,
                            minute: minute as u8,
                            second: second as u8,
                        },
                    )
                } else {
                    None
                }
            },
            _ => None,
        }
    }

    /// Seconds since year zero, counting every year as 365 days and each
    /// month by the days up to and including it.
    pub fn as_secs(&self) -> (r: u64)
        ensures
            r == secs_spec(*self),
    {
        let month_days: u64 = match self.month {
            1 => 31,
            2 => 31 + 28,
            3 => 31 + 28 + 31,
            4 => 31 + 28 + 31 + 30,
            5 => 31 + 28 + 31 + 30 + 31,
            6 => 31 + 28 + 31 + 30 + 31 + 30,
            7 => 31 + 28 + 31 + 30 + 31 + 30 + 31,
            8 => 31 + 28 + 31 + 30 + 31 + 30 + 31 + 31,
            9 => 31 + 28 + 31 + 30 + 31 + 30 + 31 + 31 + 30,
            10 => 31 + 28 + 31 + 30 + 31 + 30 + 31 + 31 + 30 + 31,
            11 => 31 + 28 + 31 + 30 + 31 + 30 + 31 + 31 + 30 + 31 + 30,
            12 => 31 + 28 + 31 + 30 + 31 + 30 + 31 + 31 + 30 + 31 + 30 + 31,
            _ => 0,
        };
        self.year as u64 * 31536000 + month_days * 86400 + self.day as u64 * 86400
            + self.hour as u64 * 3600 + self.minute as u64 * 60 + self.second as u64
    }
}

/// The timestamps that parse among `texts` (given as bytes), in order.
pub open spec fn parsed_times(texts: Seq<Seq<u8>>) -> Seq<Timestamp>
    decreases texts.len(),
{
    if texts.len() == 0 {
        Seq::empty()
    } else {
        let prev = parsed_times(texts.drop_last());
        match parse_spec(texts.last()) {
            Some(t) => prev.push(t),
            None => prev,
        }
    }
}

/// Parses each of `texts`, keeping the timestamps that parse, in order.
pub fn parse_arrivals(texts: &Vec<&str>) -> (r: Vec<Timestamp>)
    ensures
        r@ == parsed_times(texts@.map_values(|t: &str| t.spec_bytes())),
{
    let ghost all = texts@.map_values(|t: &str| t.spec_bytes());
    let mut out: Vec<Timestamp> = Vec::new();
    let mut i: usize = 0;
    while i < texts.len()
        invariant
            i <= texts@.len(),
            all == texts@.map_values(|t: &str| t.spec_bytes()),
            out@ == parsed_times(all.subrange(0, i as int)),
        decreases texts@.len() - i,
    {
        let parsed = Timestamp::parse(texts[i]);
        proof {
            assert(all.subrange(0, i + 1).drop_last() =~= all.subrange(0, i as int));
        }
        if let Some(t) = parsed {
            out.push(t);
        }
        i = i + 1;
    }
    proof {
        assert(all.subrange(0, i as int) =~= all);
    }
    out
}

} // verus!
