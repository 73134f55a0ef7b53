//! Text of dates and times as chrono's `%Y-%m-%d` and `%H:%M:%S%.f` formats
//! write them. The formatting itself is chrono's; this module states what it
//! gives and composes date-and-time texts from it.

use vstd::prelude::*;
use crate::text::{decimal, digits_value, lemma_decimal_shape, lemma_padded_value, pow10, push_str, zero_padded};

verus! {

/// The earliest year that chrono's `NaiveDate` represents.
pub const CHRONO_MIN_YEAR: i32 = -262143i32;

/// The latest year that chrono's `NaiveDate` represents.
pub const CHRONO_MAX_YEAR: i32 = 262142i32;

/// Leap years of the proleptic Gregorian calendar.
pub open spec fn is_leap_year(year: int) -> bool {
    year % 4 == 0 && (year % 100 != 0 || year % 400 == 0)
}

/// The number of days of `month` (1 to 12) in `year`.
pub open spec fn days_in_month(year: int, month: int) -> int {
    if month == 2 {
        if is_leap_year(year) { 29 } else { 28 }
    } else if month == 4 || month == 6 || month == 9 || month == 11 {
        30
    } else {
        31
    }
}

/// Whether chrono's `NaiveDate::from_ymd_opt` accepts the calendar date.
pub open spec fn is_valid_date(year: int, month: int, day: int) -> bool {
    &&& CHRONO_MIN_YEAR <= year <= CHRONO_MAX_YEAR
    &&& 1 <= month <= 12
    &&& 1 <= day <= days_in_month(year, month)
}

/// Whether chrono's `NaiveTime::from_hms_nano_opt` accepts the time; a
/// nanosecond count of one second or more marks a leap second, allowed only
/// at second 59.
pub open spec fn is_valid_time(hour: int, minute: int, second: int, nano: int) -> bool {
    &&& 0 <= hour < 24
    &&& 0 <= minute < 60
    &&& 0 <= second < 60
    &&& 0 <= nano < 2_000_000_000
    &&& (nano >= 1_000_000_000 ==> second == 59)
}

/// A number below 100 as two digits (`%m`, `%d`, `%H`, `%M`, `%S`).
pub open spec fn two_digits(v: nat) -> Seq<char> {
    zero_padded(decimal(v), 2)
}

/// The year as `%Y` writes it: four digits, zero-padded, for years 0 to 9999;
/// otherwise a sign and at least four digits.
pub open spec fn year_text(year: int) -> Seq<char> {
    if 0 <= year <= 9999 {
        zero_padded(decimal(year as nat), 4)
    } else if year < 0 {
        seq!['-'] + zero_padded(decimal((-year) as nat), 4)
    } else {
        seq!['+'] + zero_padded(decimal(year as nat), 4)
    }
}

/// The date as `%Y-%m-%d` writes it.
pub open spec fn date_text(year: int, month: int, day: int) -> Seq<char> {
    year_text(year) + seq!['-'] + two_digits(month as nat) + seq!['-'] + two_digits(day as nat)
}

/// The fraction of a second as `%.f` writes it: nothing for a whole second,
/// else a dot and 3, 6 or 9 digits, the fewest that show the fraction exactly.
pub open spec fn fraction_text(nano: nat) -> Seq<char> {
    if nano == 0 {
        Seq::empty()
    } else if nano % 1_000_000 == 0 {
        seq!['.'] + zero_padded(decimal(nano / 1_000_000), 3)
    } else if nano % 1_000 == 0 {
        seq!['.'] + zero_padded(decimal(nano / 1_000), 6)
    } else {
        seq!['.'] + zero_padded(decimal(nano), 9)
    }
}

/// The time as `%H:%M:%S%.f` writes it; a leap second shows as second 60.
pub open spec fn time_text(hour: int, minute: int, second: int, nano: int) -> Seq<char> {
    two_digits(hour as nat) + seq![':'] + two_digits(minute as nat) + seq![':']
        + two_digits((second + nano / 1_000_000_000) as nat)
        + fraction_text((nano % 1_000_000_000) as nat)
}

/// The date and time as `%Y-%m-%d %H:%M:%S%.f` writes them.
pub open spec fn date_time_text(
    year: int,
    month: int,
    day: int,
    hour: int,
    minute: int,
    second: int,
    nano: int,
) -> Seq<char> {
    date_text(year, month, day) + seq![' '] + time_text(hour, minute, second, nano)
}

/// The number of characters of the `%.f` text of a fraction below one second:
/// none for a whole second, else a dot and 3, 6 or 9 digits.
pub open spec fn fraction_width(nano: nat) -> nat {
    if nano == 0 {
        0
    } else if nano % 1_000_000 == 0 {
        4
    } else if nano % 1_000 == 0 {
        7
    } else {
        10
    }
}

/// Lemma: the `%.f` text of a fraction below one second is empty for a whole
/// second and otherwise a dot followed by 3, 6 or 9 digits, the fewest that
/// show the fraction exactly.
pub proof fn lemma_fraction_shape(nano: nat)
    requires
        nano < 1_000_000_000,
    ensures
        fraction_text(nano).len() == fraction_width(nano),
        nano != 0 ==> fraction_text(nano)[0] == '.',
        forall|k: int| 1 <= k < fraction_text(nano).len() ==> '0' <= #[trigger] fraction_text(nano)[k] <= '9',
{
    assert(pow10(3) == 1000 && pow10(6) == 1_000_000 && pow10(9) == 1_000_000_000) by {
        reveal_with_fuel(pow10, 10);
    }
    if nano != 0 {
        let (v, w): (nat, nat) = if nano % 1_000_000 == 0 {
            (nano / 1_000_000, 3)
        } else if nano % 1_000 == 0 {
            (nano / 1_000, 6)
        } else {
            (nano, 9)
        };
        assert(v < pow10(w));
        lemma_decimal_shape(v, w);
        let d = decimal(v);
        let p = zero_padded(d, w);
        assert(p.len() == w);
        assert(fraction_text(nano) == seq!['.'] + p);
        assert forall|k: int| 1 <= k < fraction_text(nano).len() implies '0' <= #[trigger] fraction_text(nano)[k] <= '9' by {
            assert(fraction_text(nano)[k] == p[k - 1]);
            if d.len() < w && k - 1 >= w - d.len() {
                assert(p[k - 1] == d[k - 1 - (w - d.len())]);
            }
        }
    }
}

/// Two digits of a number below 100 denote it.
pub proof fn two_digits_denote(v: nat)
    requires
        v < 100,
    ensures
        two_digits(v).len() == 2,
        '0' <= two_digits(v)[0] <= '9',
        '0' <= two_digits(v)[1] <= '9',
        digits_value(two_digits(v)) == v,
{
    assert(pow10(2) == 100) by {
        reveal_with_fuel(pow10, 3);
    }
    lemma_decimal_shape(v, 2);
    lemma_padded_value(v, 2);
    let d = decimal(v);
    if d.len() < 2 {
        assert(two_digits(v) == seq!['0'] + d) by {
            assert(Seq::new(1, |i: int| '0') =~= seq!['0']);
        }
        assert(two_digits(v)[1] == d[0]);
    }
}

/// Lemma: the four digits of a year from 0 to 9999 denote it; a year outside
/// that range is written as its sign and the digits of its magnitude.
pub proof fn lemma_year_text(year: int)
    ensures
        0 <= year <= 9999 ==> year_text(year).len() == 4 && digits_value(year_text(year)) == year,
        year < 0 ==> year_text(year)[0] == '-' && digits_value(year_text(year).drop_first())
            == -year,
        year > 9999 ==> year_text(year)[0] == '+' && digits_value(year_text(year).drop_first())
            == year,
        year_text(year).len() >= 4,
{
    assert(pow10(4) == 10000) by {
        reveal_with_fuel(pow10, 5);
    }
    let m: nat = if year < 0 { (-year) as nat } else { year as nat };
    lemma_padded_value(m, 4);
    let p = zero_padded(decimal(m), 4);
    assert(p.len() >= 4);
    if 0 <= year <= 9999 {
        lemma_decimal_shape(m, 4);
    } else {
        assert((seq!['-'] + p).drop_first() =~= p);
        assert((seq!['+'] + p).drop_first() =~= p);
    }
}

/// Lemma: the parts of the time text at their places.
proof fn lemma_time_parts(hour: int, minute: int, second: int, nano: int)
    requires
        is_valid_time(hour, minute, second, nano),
    ensures
        ({
            let t = time_text(hour, minute, second, nano);
            &&& t.len() == 8 + fraction_width((nano % 1_000_000_000) as nat)
            &&& t.subrange(0, 2) == two_digits(hour as nat)
            &&& t[2] == ':'
            &&& t.subrange(3, 5) == two_digits(minute as nat)
            &&& t[5] == ':'
            &&& t.subrange(6, 8) == two_digits((second + nano / 1_000_000_000) as nat)
            &&& t.subrange(8, t.len() as int) == fraction_text((nano % 1_000_000_000) as nat)
        }),
{
    two_digits_denote(hour as nat);
    two_digits_denote(minute as nat);
    two_digits_denote((second + nano / 1_000_000_000) as nat);
    lemma_fraction_shape((nano % 1_000_000_000) as nat);
    let t = time_text(hour, minute, second, nano);
    let h = two_digits(hour as nat);
    let m = two_digits(minute as nat);
    let s = two_digits((second + nano / 1_000_000_000) as nat);
    let f = fraction_text((nano % 1_000_000_000) as nat);
    assert(t == h + seq![':'] + m + seq![':'] + s + f);
    assert(t.subrange(0, 2) =~= h);
    assert(t.subrange(3, 5) =~= m);
    assert(t.subrange(6, 8) =~= s);
    assert(t.subrange(8, t.len() as int) =~= f);
}

/// The time text shows the hour of the 24-hour clock, the minute and the
/// second (60 for a leap second) as two digits each, separated by colons, and
/// then the fraction of the second; each field denotes its number.
pub proof fn time_text_fields(hour: int, minute: int, second: int, nano: int)
    requires
        is_valid_time(hour, minute, second, nano),
    ensures
        ({
            let t = time_text(hour, minute, second, nano);
            &&& t.len() == 8 + fraction_width((nano % 1_000_000_000) as nat)
            &&& t[2] == ':' && t[5] == ':'
            &&& digits_value(t.subrange(0, 2)) == hour
            &&& digits_value(t.subrange(3, 5)) == minute
            &&& digits_value(t.subrange(6, 8)) == second + nano / 1_000_000_000
            &&& t.subrange(8, t.len() as int) == fraction_text((nano % 1_000_000_000) as nat)
        }),
{
    lemma_time_parts(hour, minute, second, nano);
    two_digits_denote(hour as nat);
    two_digits_denote(minute as nat);
    two_digits_denote((second + nano / 1_000_000_000) as nat);
}

/// The fraction text denotes the fraction: a dot and the fewest of 3, 6 or 9
/// digits that show it exactly, whose number, scaled to nanoseconds, is the
/// nanoseconds.
pub proof fn fraction_text_denotes(nano: nat)
    requires
        0 < nano < 1_000_000_000,
    ensures
        fraction_text(nano)[0] == '.',
        fraction_text(nano).len() == if nano % 1_000_000 == 0 {
            4int
        } else if nano % 1_000 == 0 {
            7int
        } else {
            10int
        },
        digits_value(fraction_text(nano).drop_first()) * pow10((10 - fraction_width(nano)) as nat)
            == nano,
{
    lemma_fraction_shape(nano);
    assert(pow10(0) == 1 && pow10(3) == 1000 && pow10(6) == 1_000_000) by {
        reveal_with_fuel(pow10, 7);
    }
    let (v, w): (nat, nat) = if nano % 1_000_000 == 0 {
        (nano / 1_000_000, 3)
    } else if nano % 1_000 == 0 {
        (nano / 1_000, 6)
    } else {
        (nano, 9)
    };
    lemma_padded_value(v, w);
    assert(fraction_text(nano).drop_first() =~= zero_padded(decimal(v), w));
    let d = digits_value(fraction_text(nano).drop_first());
    assert(d == v);
    if nano % 1_000_000 == 0 {
        assert(v * 1_000_000 == nano) by (nonlinear_arith)
            requires
                v == nano / 1_000_000,
                nano % 1_000_000 == 0,
        ;
        assert(pow10((10 - fraction_width(nano)) as nat) == 1_000_000);
    } else if nano % 1_000 == 0 {
        assert(v * 1_000 == nano) by (nonlinear_arith)
            requires
                v == nano / 1_000,
                nano % 1_000 == 0,
        ;
        assert(pow10((10 - fraction_width(nano)) as nat) == 1_000);
    } else {
        assert(pow10((10 - fraction_width(nano)) as nat) == 1);
    }
}

/// The date text shows the year, the month and the day, separated by hyphens,
/// the month and the day as two digits each; a year from 0 to 9999 as four
/// digits, another one as its sign and its digits. Each field denotes its number.
pub proof fn date_text_fields(year: int, month: int, day: int)
    requires
        is_valid_date(year, month, day),
    ensures
        ({
            let t = date_text(year, month, day);
            let p = year_text(year).len() as int;
            &&& t.len() == p + 6
            &&& t[p] == '-' && t[p + 3] == '-'
            &&& digits_value(t.subrange(p + 1, p + 3)) == month
            &&& digits_value(t.subrange(p + 4, p + 6)) == day
            &&& 0 <= year <= 9999 ==> p == 4 && digits_value(t.subrange(0, 4)) == year
            &&& year < 0 ==> t[0] == '-' && digits_value(t.subrange(1, p)) == -year
            &&& year > 9999 ==> t[0] == '+' && digits_value(t.subrange(1, p)) == year
        }),
{
    let t = date_text(year, month, day);
    let y = year_text(year);
    let p = y.len() as int;
    lemma_year_text(year);
    two_digits_denote(month as nat);
    two_digits_denote(day as nat);
    assert(t == y + seq!['-'] + two_digits(month as nat) + seq!['-'] + two_digits(day as nat));
    assert(t.subrange(p + 1, p + 3) =~= two_digits(month as nat));
    assert(t.subrange(p + 4, p + 6) =~= two_digits(day as nat));
    assert(t.subrange(0, p) =~= y);
    assert(t.subrange(1, p) =~= y.drop_first());
}

/// The date-and-time text is the date text, a space, and the time text of the
/// same hour, minute, second and nanosecond: the hour of the 24-hour clock
/// stands in the two digits after the space, then the minute and the second.
pub proof fn date_time_text_fields(
    year: int,
    month: int,
    day: int,
    hour: int,
    minute: int,
    second: int,
    nano: int,
)
    requires
        is_valid_date(year, month, day),
        is_valid_time(hour, minute, second, nano),
    ensures
        ({
            let t = date_time_text(year, month, day, hour, minute, second, nano);
            let p = year_text(year).len() + 6int;
            &&& t.subrange(0, p) == date_text(year, month, day)
            &&& t[p] == ' '
            &&& t.subrange(p + 1, t.len() as int) == time_text(hour, minute, second, nano)
            &&& digits_value(t.subrange(p + 1, p + 3)) == hour
            &&& t[p + 3] == ':'
            &&& digits_value(t.subrange(p + 4, p + 6)) == minute
            &&& t[p + 6] == ':'
            &&& digits_value(t.subrange(p + 7, p + 9)) == second + nano / 1_000_000_000
            &&& 0 <= year <= 9999 ==> p == 10
        }),
{
    let t = date_time_text(year, month, day, hour, minute, second, nano);
    let d = date_text(year, month, day);
    let tt = time_text(hour, minute, second, nano);
    date_text_fields(year, month, day);
    lemma_year_text(year);
    time_text_fields(hour, minute, second, nano);
    let p = d.len() as int;
    assert(t == d + seq![' '] + tt);
    assert(t.subrange(0, p) =~= d);
    assert(t.subrange(p + 1, t.len() as int) =~= tt);
    assert(t.subrange(p + 1, p + 3) =~= tt.subrange(0, 2));
    assert(t.subrange(p + 4, p + 6) =~= tt.subrange(3, 5));
    assert(t.subrange(p + 7, p + 9) =~= tt.subrange(6, 8));
}

/// chrono's `NaiveDate::from_ymd_opt` followed by `format("%Y-%m-%d")` and
/// `to_string`: `None` exactly when chrono has no such date, else the text
/// that chrono's strftime documentation gives for `%Y-%m-%d`.
#[verifier::external_body]
fn chrono_date_text(year: i32, month: u32, day: u32) -> (r: Option<String>)
    ensures
        r is Some <==> is_valid_date(year as int, month as int, day as int),
        r matches Some(t) ==> t@ == date_text(year as int, month as int, day as int),
{
    match chrono::NaiveDate::from_ymd_opt(year, month, day) {
        Some(d) => Some(d.format("%Y-%m-%d").to_string()),
        None => None,
    }
}

/// chrono's `NaiveTime::from_hms_nano_opt` followed by `format("%H:%M:%S%.f")`
/// and `to_string`: `None` exactly when chrono has no such time, else the text
/// that chrono's strftime documentation gives for `%H:%M:%S%.f`.
#[verifier::external_body]
fn chrono_time_text(hour: u32, minute: u32, second: u32, nano: u32) -> (r: Option<String>)
    ensures
        r is Some <==> is_valid_time(hour as int, minute as int, second as int, nano as int),
        r matches Some(t) ==> t@ == time_text(hour as int, minute as int, second as int, nano as int),
{
    match chrono::NaiveTime::from_hms_nano_opt(hour, minute, second, nano) {
        Some(t) => Some(t.format("%H:%M:%S%.f").to_string()),
        None => None,
    }
}

/// The `%Y-%m-%d` text of a date, or `None` when chrono has no such date.
pub fn format_date(year: i32, month: u32, day: u32) -> (r: Option<String>)
    ensures
        r is Some <==> is_valid_date(year as int, month as int, day as int),
        r matches Some(t) ==> t@ == date_text(year as int, month as int, day as int),
{
    chrono_date_text(year, month, day)
}

/// The `%H:%M:%S%.f` text of a time of day, or `None` when chrono has no such
/// time.
pub fn format_time(hour: u32, minute: u32, second: u32, nano: u32) -> (r: Option<String>)
    ensures
        r is Some <==> is_valid_time(hour as int, minute as int, second as int, nano as int),
        r matches Some(t) ==> t@ == time_text(hour as int, minute as int, second as int, nano as int),
{
    chrono_time_text(hour, minute, second, nano)
}

/// The `%Y-%m-%d %H:%M:%S%.f` text of a date and time, or `None` when either
/// part is not one that chrono represents.
pub fn format_date_time(
    year: i32,
    month: u32,
    day: u32,
    hour: u32,
    minute: u32,
    second: u32,
    nano: u32,
) -> (r: Option<String>)
    ensures
        r is Some <==> (is_valid_date(year as int, month as int, day as int) && is_valid_time(
            hour as int,
            minute as int,
            second as int,
            nano as int,
        )),
        r matches Some(t) ==> t@ == date_time_text(
            year as int,
            month as int,
            day as int,
            hour as int,
            minute as int,
            second as int,
            nano as int,
        ),
{
    match chrono_date_text(year, month, day) {
        None => None,
        Some(mut date) => match chrono_time_text(hour, minute, second, nano) {
            None => None,
            Some(time) => {
                push_str(&mut date, " ");
                push_str(&mut date, time.as_str());
                proof {
                    reveal_strlit(" ");
                }
                Some(date)
            },
        },
    }
}

} // verus!
