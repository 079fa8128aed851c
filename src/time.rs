use vstd::prelude::*;
use vstd::string::StrSliceExecFns;
use crate::text::{decimal, two_digits, push_decimal, push_two_digits};

verus! {

/// Milliseconds in one day.
pub const MILLIS_PER_DAY: u128 = 86_400_000;

/// Milliseconds in one year, as year counts reckon it.
pub const MILLIS_PER_YEAR: u128 = 31_556_925_975;

/// The length in milliseconds of month `m` (0 is January) of a common year.
pub open spec fn common_month_millis(m: int) -> int {
    if m == 1 {
        2_419_200_000
    } else if m == 3 || m == 5 || m == 8 || m == 10 {
        2_592_000_000
    } else {
        2_678_400_000
    }
}

/// Whether `year` is a leap year of the Gregorian calendar.
pub open spec fn is_leap_year(year: int) -> bool {
    year % 4 == 0 && (year % 100 != 0 || year % 400 == 0)
}

/// The length in milliseconds of month `cur` (0 is January) of `year`.
pub open spec fn month_millis_spec(cur: int, year: int) -> int {
    common_month_millis(cur) + if cur == 1 && is_leap_year(year) {
        86_400_000int
    } else {
        0int
    }
}

/// Walks whole months off `rest`, starting at month `cur` of `year` with
/// `count` months already walked. Gives the milliseconds left inside the
/// month reached, that month, and the number of whole months walked.
pub open spec fn month_walk(rest: nat, cur: int, year: int, count: nat) -> (nat, int, nat)
    decreases rest,
{
    let ms = month_millis_spec(cur, year);
    if rest < ms {
        (rest, cur, count)
    } else if cur + 1 > 11 {
        month_walk((rest - ms) as nat, 0, year + 1, count + 1)
    } else {
        month_walk((rest - ms) as nat, cur + 1, year, count + 1)
    }
}

/// The month walk from the start of the epoch, January 1970.
pub open spec fn walk_from_epoch(epoch: nat) -> (nat, int, nat) {
    month_walk(epoch, 0, 1970, 0)
}

/// The English name of month `m` (0 is January).
pub open spec fn month_name(m: int) -> Seq<char> {
    if m == 0 {
        "January"@
    } else if m == 1 {
        "February"@
    } else if m == 2 {
        "March"@
    } else if m == 3 {
        "April"@
    } else if m == 4 {
        "May"@
    } else if m == 5 {
        "June"@
    } else if m == 6 {
        "July"@
    } else if m == 7 {
        "August"@
    } else if m == 8 {
        "September"@
    } else if m == 9 {
        "October"@
    } else if m == 10 {
        "November"@
    } else {
        "December"@
    }
}

/// Number of whole days since the UNIX epoch.
pub fn epoch_days(point: u128) -> (r: u128)
    ensures
        r == point / MILLIS_PER_DAY,
{
    point / MILLIS_PER_DAY
}

fn month_millis(cur: u128, year: u128) -> (r: u128)
    requires
        cur < 12,
    ensures
        r == month_millis_spec(cur as int, year as int),
        r <= 2_678_400_000,
{
    let base: u128 = if cur == 1 {
        2_419_200_000
    } else if cur == 3 || cur == 5 || cur == 8 || cur == 10 {
        2_592_000_000
    } else {
        2_678_400_000
    };
    if cur == 1 && year % 4 == 0 && (year % 100 != 0 || year % 400 == 0) {
        base + 86_400_000
    } else {
        base
    }
}

/// Runs `walk_from_epoch` on `epoch`: the milliseconds into the month
/// reached, that month, and the number of whole months walked.
fn walk_months(epoch: u128) -> (r: (u128, u128, u128))
    ensures
        r.0 as nat == walk_from_epoch(epoch as nat).0,
        r.1 as int == walk_from_epoch(epoch as nat).1,
        r.2 as nat == walk_from_epoch(epoch as nat).2,
        r.1 < 12,
        r.0 < 2_678_400_000,
{
    let mut rest: u128 = epoch;
    let mut cur: u128 = 0;
    let mut year: u128 = 1970;
    let mut count: u128 = 0;
    loop
        invariant
            cur < 12,
            rest <= epoch,
            year <= 1970 + count,
            count * 2_419_200_000 <= epoch - rest,
            month_walk(rest as nat, cur as int, year as int, count as nat) == walk_from_epoch(
                epoch as nat,
            ),
        decreases rest,
    {
        let ms = month_millis(cur, year);
        if rest < ms {
            return (rest, cur, count);
        }
        rest = rest - ms;
        count = count + 1;
        if cur + 1 > 11 {
            cur = 0;
            year = year + 1;
        } else {
            cur = cur + 1;
        }
    }
}

/// Number of whole months since the UNIX epoch, by the Gregorian calendar.
pub fn epoch_months(epoch: u128) -> (r: u128)
    ensures
        r as nat == walk_from_epoch(epoch as nat).2,
{
    walk_months(epoch).2
}

/// The name of the month of the year that `epoch` falls in, by the Gregorian
/// calendar.
pub fn current_month(epoch: u128) -> (r: &'static str)
    ensures
        r@ == month_name(walk_from_epoch(epoch as nat).1),
{
    month_name_of(walk_months(epoch).1)
}

fn month_name_of(m: u128) -> (r: &'static str)
    requires
        m < 12,
    ensures
        r@ == month_name(m as int),
{
    if m == 0 {
        "January"
    } else if m == 1 {
        "February"
    } else if m == 2 {
        "March"
    } else if m == 3 {
        "April"
    } else if m == 4 {
        "May"
    } else if m == 5 {
        "June"
    } else if m == 6 {
        "July"
    } else if m == 7 {
        "August"
    } else if m == 8 {
        "September"
    } else if m == 9 {
        "October"
    } else if m == 10 {
        "November"
    } else {
        "December"
    }
}

/// The day of the month (from 1) that `epoch` falls on, by the Gregorian
/// calendar.
pub open spec fn date_spec(epoch: nat) -> nat {
    walk_from_epoch(epoch).0 / 86_400_000 + 1
}

/// The day of the month (from 1) that `epoch` falls on.
pub fn date(epoch: u128) -> (r: u8)
    ensures
        r as nat == date_spec(epoch as nat),
        1 <= r <= 31,
{
    let rest = walk_months(epoch).0;
    (rest / MILLIS_PER_DAY + 1) as u8
}

/// Number of whole years of 31556925975 ms since the UNIX epoch.
pub fn epoch_years(epoch: u128) -> (r: u128)
    ensures
        r == epoch / MILLIS_PER_YEAR,
{
    epoch / MILLIS_PER_YEAR
}

/// The year that `epoch` falls in, counting whole years from 1970.
pub fn current_year(epoch: u128) -> (r: u128)
    ensures
        r == epoch / MILLIS_PER_YEAR + 1970,
{
    epoch_years(epoch) + 1970
}

/// The hour of the day (0 to 23).
pub fn hour(epoch: u128) -> (r: u8)
    ensures
        r == (epoch / 3_600_000) % 24,
{
    ((epoch / 3_600_000) % 24) as u8
}

/// The minute of the hour (0 to 59).
pub fn minute(epoch: u128) -> (r: u8)
    ensures
        r == (epoch / 60_000) % 60,
{
    ((epoch / 60_000) % 60) as u8
}

/// The second of the minute (0 to 59).
pub fn second(epoch: u128) -> (r: u8)
    ensures
        r == (epoch / 1000) % 60,
{
    ((epoch / 1000) % 60) as u8
}

/// Every month name is at least three characters long.
proof fn lemma_month_name_len(m: int)
    ensures
        month_name(m).len() >= 3,
{
    reveal_strlit("January");
    reveal_strlit("February");
    reveal_strlit("March");
    reveal_strlit("April");
    reveal_strlit("May");
    reveal_strlit("June");
    reveal_strlit("July");
    reveal_strlit("August");
    reveal_strlit("September");
    reveal_strlit("October");
    reveal_strlit("November");
    reveal_strlit("December");
}

/// The text `YEAR-Mon-D-HH:MM:SS` for `epoch`: the year and day of the month
/// in plain decimal, the first three letters of the month name, and the clock
/// fields padded to two digits.
pub open spec fn timestamp_text(epoch: nat) -> Seq<char> {
    decimal(epoch / 31_556_925_975 + 1970) + seq!['-'] + month_name(
        walk_from_epoch(epoch).1,
    ).take(3) + seq!['-'] + decimal(date_spec(epoch)) + seq!['-'] + two_digits(
        (epoch / 3_600_000) % 24,
    ) + seq![':'] + two_digits((epoch / 60_000) % 60) + seq![':'] + two_digits(
        (epoch / 1000) % 60,
    )
}

/// Formats `epoch` as `YEAR-Mon-D-HH:MM:SS`.
pub fn timestamp(epoch: u128) -> (r: String)
    ensures
        r@ == timestamp_text(epoch as nat),
{
    proof {
        reveal_strlit("-");
        reveal_strlit(":");
    }
    let mut t = String::new();
    push_decimal(&mut t, current_year(epoch));
    t.append("-");
    let month = current_month(epoch);
    proof {
        lemma_month_name_len(walk_from_epoch(epoch as nat).1);
    }
    t.append(month.substring_char(0, 3));
    t.append("-");
    push_decimal(&mut t, date(epoch) as u128);
    t.append("-");
    push_two_digits(&mut t, hour(epoch) as u128);
    t.append(":");
    push_two_digits(&mut t, minute(epoch) as u128);
    t.append(":");
    push_two_digits(&mut t, second(epoch) as u128);
    assert(t@ =~= timestamp_text(epoch as nat));
    t
}

/// A reading of the system clock, opaque here.
#[verifier::external_type_specification]
#[verifier::external_body]
pub struct ExSystemTime(std::time::SystemTime);

/// The error of a clock reading earlier than the one it is compared with.
#[verifier::external_type_specification]
#[verifier::external_body]
pub struct ExSystemTimeError(std::time::SystemTimeError);

/// Relies on `SystemTime::now`: reads the system clock. Nothing is promised of
/// the value read.
pub assume_specification[ std::time::SystemTime::now ]() -> std::time::SystemTime;

/// Relies on `SystemTime::duration_since`: the span from `earlier` to `self`,
/// or an error when `earlier` is later.
pub assume_specification[ std::time::SystemTime::duration_since ](
    this: &std::time::SystemTime,
    earlier: std::time::SystemTime,
) -> Result<core::time::Duration, std::time::SystemTimeError>;

/// Relies on `Duration::as_millis`: the whole milliseconds of a span.
pub assume_specification[ core::time::Duration::as_millis ](d: &core::time::Duration) -> u128;

/// Relies on `std::time::UNIX_EPOCH`: the clock reading of 1970-01-01
/// 00:00:00 UTC.
#[verifier::external_body]
fn unix_epoch() -> (r: std::time::SystemTime) {
    std::time::UNIX_EPOCH
}

/// Milliseconds since 1970-01-01 00:00:00 UTC by the system clock, or 0 when
/// the clock reads earlier than that.
pub fn epoch_millis() -> (r: u128) {
    let now = std::time::SystemTime::now();
    match now.duration_since(unix_epoch()) {
        Ok(duration) => duration.as_millis(),
        Err(_) => 0,
    }
}

/// The timestamp text of the current time.
pub fn timestamp_now() -> (r: String)
    ensures
        exists|epoch: u128| r@ == timestamp_text(epoch as nat),
{
    timestamp(epoch_millis())
}

} // verus!
