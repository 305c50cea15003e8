//! Points in time as they are written in a problem definition: the
//! calendar date and the time of day in UTC, as in `1970-01-01T00:00:10Z`.

use vstd::prelude::*;
use vstd::string::*;

verus! {

/// A span of time: from `start` to `end`, in seconds since the start of 1970.
#[derive(Clone, Copy, Debug, PartialEq, Eq, Structural)]
pub struct TimeWindow {
    /// The first second.
    pub start: i64,
    /// The last second.
    pub end: i64,
}

/// The number of bytes of a point in time.
pub const TIME_LENGTH: usize = 20;

/// The days from the start of the year 0 to the start of 1970.
pub const DAYS_TO_1970: i64 = 719528;

/// Whether the byte is a decimal digit.
pub open spec fn is_digit(byte: u8) -> bool {
    48 <= byte <= 57
}

/// Whether the `count` bytes from `at` on are decimal digits.
pub open spec fn digits_at(bytes: Seq<u8>, at: int, count: int) -> bool {
    forall|i: int| at <= i < at + count ==> is_digit(#[trigger] bytes[i])
}

/// The number that the `count` decimal digits from `at` on stand for.
pub open spec fn number_at(bytes: Seq<u8>, at: int, count: int) -> int
    decreases count,
{
    if count <= 0 {
        0
    } else {
        number_at(bytes, at, count - 1) * 10 + (bytes[at + count - 1] - 48)
    }
}

/// Whether the bytes have the shape `YYYY-MM-DDTHH:MM:SSZ`.
pub open spec fn has_shape(bytes: Seq<u8>) -> bool {
    &&& bytes.len() == 20
    &&& digits_at(bytes, 0, 4)
    &&& bytes[4] == 45
    &&& digits_at(bytes, 5, 2)
    &&& bytes[7] == 45
    &&& digits_at(bytes, 8, 2)
    &&& bytes[10] == 84
    &&& digits_at(bytes, 11, 2)
    &&& bytes[13] == 58
    &&& digits_at(bytes, 14, 2)
    &&& bytes[16] == 58
    &&& digits_at(bytes, 17, 2)
    &&& bytes[19] == 90
}

/// Whether the year has a 29th of February.
pub open spec fn is_leap_year(year: int) -> bool {
    year % 4 == 0 && (year % 100 != 0 || year % 400 == 0)
}

/// The number of days of a month.
pub open spec fn days_in_month(year: int, month: int) -> int {
    if month == 2 {
        if is_leap_year(year) {
            29
        } else {
            28
        }
    } else if month == 4 || month == 6 || month == 9 || month == 11 {
        30
    } else {
        31
    }
}

/// The number of days of a year before the first of a month.
pub open spec fn days_before_month(year: int, month: int) -> int
    decreases month,
{
    if month <= 1 {
        0
    } else {
        days_before_month(year, month - 1) + days_in_month(year, month - 1)
    }
}

/// The number of days from the start of the year 0 to the start of a year.
pub open spec fn days_before_year(year: int) -> int
    decreases year,
{
    if year <= 0 {
        0
    } else {
        days_before_year(year - 1) + (if is_leap_year(year - 1) {
            366int
        } else {
            365int
        })
    }
}

/// Whether date and time of day exist.
pub open spec fn is_valid_time(
    year: int,
    month: int,
    day: int,
    hour: int,
    minute: int,
    second: int,
) -> bool {
    &&& 1 <= month <= 12
    &&& 1 <= day <= days_in_month(year, month)
    &&& 0 <= hour <= 23
    &&& 0 <= minute <= 59
    &&& 0 <= second <= 59
}

/// The seconds from the start of 1970 to a point in time.
pub open spec fn seconds_since_1970(
    year: int,
    month: int,
    day: int,
    hour: int,
    minute: int,
    second: int,
) -> int {
    (days_before_year(year) + days_before_month(year, month) + day - 1 - 719528) * 86400 + hour
        * 3600 + minute * 60 + second
}

/// The point in time that the bytes stand for, in seconds since the start
/// of 1970; none where they do not have the shape or name a date or a
/// time of day that does not exist.
pub open spec fn timestamp_of(bytes: Seq<u8>) -> Option<int> {
    if has_shape(bytes) && is_valid_time(
        number_at(bytes, 0, 4),
        number_at(bytes, 5, 2),
        number_at(bytes, 8, 2),
        number_at(bytes, 11, 2),
        number_at(bytes, 14, 2),
        number_at(bytes, 17, 2),
    ) {
        Some(
            seconds_since_1970(
                number_at(bytes, 0, 4),
                number_at(bytes, 5, 2),
                number_at(bytes, 8, 2),
                number_at(bytes, 11, 2),
                number_at(bytes, 14, 2),
                number_at(bytes, 17, 2),
            ),
        )
    } else {
        None
    }
}

/// The days before a year, counted at once: 365 for each year, and one
/// more for each leap year.
pub proof fn lemma_days_before_year(year: int)
    requires
        0 <= year,
    ensures
        days_before_year(year) == if year == 0 {
            0
        } else {
            365 * year + (year - 1) / 4 - (year - 1) / 100 + (year - 1) / 400 + 1
        },
    decreases year,
{
    if year > 0 {
        lemma_days_before_year(year - 1);
        if year > 1 {
            let y = year - 1;
            assert((y - 1) / 4 + (if y % 4 == 0 {
                1int
            } else {
                0int
            }) == y / 4);
            assert((y - 1) / 100 + (if y % 100 == 0 {
                1int
            } else {
                0int
            }) == y / 100);
            assert((y - 1) / 400 + (if y % 400 == 0 {
                1int
            } else {
                0int
            }) == y / 400);
        }
    }
}

fn read_number(bytes: &[u8], at: usize, count: usize) -> (r: Option<i64>)
    requires
        at + count <= bytes@.len(),
        bytes@.len() == TIME_LENGTH,
        count <= 4,
    ensures
        r is Some <==> digits_at(bytes@, at as int, count as int),
        r matches Some(n) ==> n == number_at(bytes@, at as int, count as int) && 0 <= n < 10000,
{
    let mut n: i64 = 0;
    let mut i: usize = 0;
    let ghost mut bound: int = 1;
    while i < count
        invariant
            i <= count <= 4,
            at + count <= bytes@.len(),
            bytes@.len() == TIME_LENGTH,
            digits_at(bytes@, at as int, i as int),
            n == number_at(bytes@, at as int, i as int),
            0 <= n < bound,
            bound == (if i == 0 {
                1int
            } else if i == 1 {
                10int
            } else if i == 2 {
                100int
            } else if i == 3 {
                1000int
            } else {
                10000int
            }),
        decreases count - i,
    {
        let byte = bytes[at + i];
        if byte < 48 || byte > 57 {
            proof {
                assert(!is_digit(bytes@[at + i]));
            }
            return None;
        }
        n = n * 10 + (byte - 48) as i64;
        i = i + 1;
        proof {
            bound = bound * 10;
        }
    }
    Some(n)
}

fn month_length(year: i64, month: i64) -> (r: i64)
    requires
        0 <= year < 10000,
    ensures
        r == days_in_month(year as int, month as int),
{
    if month == 2 {
        if year % 4 == 0 && (year % 100 != 0 || year % 400 == 0) {
            29
        } else {
            28
        }
    } else if month == 4 || month == 6 || month == 9 || month == 11 {
        30
    } else {
        31
    }
}

fn month_start(year: i64, month: i64) -> (r: i64)
    requires
        0 <= year < 10000,
        1 <= month <= 12,
    ensures
        r == days_before_month(year as int, month as int),
        0 <= r <= 335,
{
    let mut days: i64 = 0;
    let mut m: i64 = 1;
    while m < month
        invariant
            1 <= m <= month <= 12,
            0 <= year < 10000,
            days == days_before_month(year as int, m as int),
            0 <= days <= 31 * (m - 1),
        decreases month - m,
    {
        days = days + month_length(year, m);
        m = m + 1;
    }
    proof {
        reveal_with_fuel(days_before_month, 13);
        assert(days_before_month(year as int, 12) <= 335);
    }
    days
}

fn year_start(year: i64) -> (r: i64)
    requires
        0 <= year < 10000,
    ensures
        r == days_before_year(year as int),
        0 <= r < 3660000,
{
    proof {
        lemma_days_before_year(year as int);
    }
    if year == 0 {
        0
    } else {
        365 * year + (year - 1) / 4 - (year - 1) / 100 + (year - 1) / 400 + 1
    }
}

/// The bytes of a text.
pub open spec fn bytes_of(text: Seq<char>) -> Seq<u8> {
    vstd::utf8::encode_utf8(text)
}

/// Parses a point in time, written as `YYYY-MM-DDTHH:MM:SSZ`, to the
/// seconds since the start of 1970.
pub fn parse_time(text: &str) -> (r: Option<i64>)
    ensures
        match timestamp_of(bytes_of(text@)) {
            Some(seconds) => r == Some(seconds as i64) && i64::MIN <= seconds <= i64::MAX,
            None => r is None,
        },
{
    let bytes = text.as_bytes();
    if bytes.len() != TIME_LENGTH {
        return None;
    }
    if bytes[4] != 45 || bytes[7] != 45 || bytes[10] != 84 || bytes[13] != 58 || bytes[16] != 58
        || bytes[19] != 90 {
        return None;
    }
    let year = match read_number(bytes, 0, 4) {
        Some(n) => n,
        None => {
            return None;
        },
    };
    let month = match read_number(bytes, 5, 2) {
        Some(n) => n,
        None => {
            return None;
        },
    };
    let day = match read_number(bytes, 8, 2) {
        Some(n) => n,
        None => {
            return None;
        },
    };
    let hour = match read_number(bytes, 11, 2) {
        Some(n) => n,
        None => {
            return None;
        },
    };
    let minute = match read_number(bytes, 14, 2) {
        Some(n) => n,
        None => {
            return None;
        },
    };
    let second = match read_number(bytes, 17, 2) {
        Some(n) => n,
        None => {
            return None;
        },
    };
    if month < 1 || month > 12 {
        return None;
    }
    if day < 1 || day > month_length(year, month) {
        return None;
    }
    if hour > 23 || minute > 59 || second > 59 {
        return None;
    }
    let days = year_start(year) + month_start(year, month) + day - 1 - DAYS_TO_1970;
    Some(days * 86400 + hour * 3600 + minute * 60 + second)
}

/// Parses a span of time: its first and its last point in time, in this
/// order. There is none where one of the two cannot be parsed.
pub fn parse_time_window(tw: &Vec<String>) -> (r: Option<TimeWindow>)
    requires
        tw@.len() == 2,
    ensures
        match (timestamp_of(bytes_of(tw@[0]@)), timestamp_of(bytes_of(tw@[1]@))) {
            (Some(start), Some(end)) => r == Some(
                TimeWindow { start: start as i64, end: end as i64 },
            ),
            _ => r is None,
        },
{
    let start = parse_time(tw[0].as_str());
    let end = parse_time(tw[1].as_str());
    match (start, end) {
        (Some(start), Some(end)) => Some(TimeWindow { start, end }),
        _ => None,
    }
}

} // verus!
