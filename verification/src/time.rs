//! Calendar dates of instants, as computed by the `chrono` crate.

use vstd::prelude::*;

use crate::models::Timestamp;

verus! {

/// The proleptic Gregorian (year, month, day) of the day `days` days after
/// 1970-01-01 (negative before it).
pub open spec fn civil_from_days(days: int) -> (int, int, int) {
    let z = days + 719468;
    let era = z / 146097;
    let doe = z - era * 146097;
    let yoe = (doe - doe / 1460 + doe / 36524 - doe / 146096) / 365;
    let y = yoe + era * 400;
    let doy = doe - (365 * yoe + yoe / 4 - yoe / 100);
    let mp = (5 * doy + 2) / 153;
    let d = doy - (153 * mp + 2) / 5 + 1;
    let m = if mp < 10 { mp + 3 } else { mp - 9 };
    (if m <= 2 { y + 1 } else { y }, m, d)
}

/// The decimal digits of `n`.
pub open spec fn decimal(n: nat) -> Seq<char>
    decreases n,
{
    if n < 10 {
        seq![(n + 48) as char]
    } else {
        decimal(n / 10).push(((n % 10) + 48) as char)
    }
}

/// The decimal digits of `n`, with leading zeros to at least `width` digits.
pub open spec fn zero_padded(n: nat, width: nat) -> Seq<char> {
    let digits = decimal(n);
    if digits.len() < width {
        Seq::new((width - digits.len()) as nat, |i: int| '0') + digits
    } else {
        digits
    }
}

/// Year `y` as chrono writes `%Y`: four digits for 0 to 9999, else a sign
/// and at least four digits.
pub open spec fn year_text(y: int) -> Seq<char> {
    if 0 <= y <= 9999 {
        zero_padded(y as nat, 4)
    } else if y > 9999 {
        seq!['+'] + zero_padded(y as nat, 4)
    } else {
        seq!['-'] + zero_padded((-y) as nat, 4)
    }
}

/// The UTC date `%Y-%m-%d` of the instant `secs` seconds after the Unix
/// epoch.
pub open spec fn date_text(secs: int) -> Seq<char> {
    let (y, m, d) = civil_from_days(secs / 86400);
    year_text(y) + seq!['-'] + zero_padded(m as nat, 2) + seq!['-'] + zero_padded(d as nat, 2)
}

/// The instant has a UTC date in chrono: it lies between
/// -262143-01-01T00:00:00 and 262142-12-31T23:59:59 (chrono's years), and
/// its nanosecond part is below one second, or below two seconds in the last
/// second of a minute (a leap second).
pub open spec fn has_utc_date(t: Timestamp) -> bool {
    &&& -8_334_601_228_800 <= t.secs <= 8_210_266_876_799
    &&& (t.nanos < 1_000_000_000 || (t.nanos < 2_000_000_000 && t.secs % 60 == 59))
}

/// Calls `chrono::DateTime::from_timestamp(secs, nanos)` and, for an
/// instant, `format("%Y-%m-%d").to_string()`. Claims that there is a date
/// exactly when `has_utc_date` holds (`from_timestamp` refuses only days
/// outside chrono's years and invalid fractions), and that the date is
/// `date_text(secs)`: the proleptic Gregorian calendar in UTC, the year as
/// chrono's `write_year` writes it, month and day as two digits.
#[verifier::external_body]
pub fn utc_day(t: Timestamp) -> (r: Option<String>)
    ensures
        match r {
            Some(s) => has_utc_date(t) && s@ == date_text(t.secs as int),
            None => !has_utc_date(t),
        },
{
    match chrono::DateTime::from_timestamp(t.secs, t.nanos) {
        Some(d) => Some(d.format("%Y-%m-%d").to_string()),
        None => None,
    }
}

} // verus!
