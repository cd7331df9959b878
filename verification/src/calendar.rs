//! Days, dates and timestamps.
//!
//! A date is counted out in years and months of their own lengths; the
//! computation goes by cycles of four hundred years and is proved to agree.

use vstd::prelude::*;

use crate::text;
use crate::text::decimal_of;

verus! {

/// Whether a year of the Gregorian calendar has a leap day.
pub open spec fn is_leap(year: int) -> bool {
    year % 4 == 0 && (year % 100 != 0 || year % 400 == 0)
}

pub open spec fn year_days(year: int) -> int {
    if is_leap(year) {
        366
    } else {
        365
    }
}

pub open spec fn month_days(year: int, month: int) -> int {
    if month == 2 {
        if is_leap(year) {
            29
        } else {
            28
        }
    } else if month == 4 || month == 6 || month == 9 || month == 11 {
        30
    } else {
        31
    }
}

/// The days from the first of January 1970 to that of a later year.
pub open spec fn year_start(year: int) -> int
    decreases year,
{
    if year <= 1970 {
        0
    } else {
        year_start(year - 1) + year_days(year - 1)
    }
}

/// The days of a year before one of its months.
pub open spec fn month_start(year: int, month: int) -> int
    decreases month,
{
    if month <= 1 {
        0
    } else {
        month_start(year, month - 1) + month_days(year, month - 1)
    }
}

/// The days from the first of January 1970 to a date.
pub open spec fn date_days(year: int, month: int, day: int) -> int {
    year_start(year) + month_start(year, month) + day - 1
}

/// A date that the calendar has, from 1970 on.
pub open spec fn is_date(year: int, month: int, day: int) -> bool {
    &&& 1970 <= year
    &&& 1 <= month <= 12
    &&& 1 <= day <= month_days(year, month)
}

/// The leap years from the first to a given one.
spec fn leaps(year: int) -> int {
    year / 4 - year / 100 + year / 400
}

proof fn leaps_step(year: int)
    requires
        year >= 1,
    ensures
        leaps(year) == leaps(year - 1) + (if is_leap(year) {
            1int
        } else {
            0
        }),
{
    let q = year / 400;
    let r = year % 400;
    assert(year == 400 * q + r);
    assert((year - 1) / 4 == (if year % 4 == 0 {
        year / 4 - 1
    } else {
        year / 4
    }));
    assert((year - 1) / 100 == (if year % 100 == 0 {
        year / 100 - 1
    } else {
        year / 100
    }));
    assert((year - 1) / 400 == (if year % 400 == 0 {
        year / 400 - 1
    } else {
        year / 400
    }));
    assert(year % 400 == 0 ==> year % 100 == 0);
    assert(year % 100 == 0 ==> year % 4 == 0);
}

proof fn year_start_formula(year: int)
    requires
        year >= 1970,
    ensures
        year_start(year) == 365 * (year - 1970) + leaps(year - 1) - 477,
    decreases year,
{
    if year > 1970 {
        year_start_formula(year - 1);
        leaps_step(year - 1);
    }
}

/// The days from the first of March to that of a later month of the same year,
/// or to the first of January or February after it.
spec fn march_start(mp: int) -> int {
    (153 * mp + 2) / 5
}

proof fn months_from_march(year: int, mp: int)
    requires
        0 <= mp < 12,
    ensures
        mp < 10 ==> month_start(year, mp + 3) == 59 + (if is_leap(year) {
            1int
        } else {
            0
        }) + march_start(mp),
        mp >= 10 ==> month_start(year, mp - 9) == march_start(mp) - 306,
{
    reveal_with_fuel(month_start, 13);
}

/// A day of a four-hundred-year cycle, taken apart into a year that starts in
/// March and a day of it.
proof fn cycle_parts(doe: int, century: int, quad: int, yoq: int, doy: int)
    requires
        0 <= doe < 146097,
        0 <= century <= 3,
        0 <= quad < 25,
        0 <= yoq <= 3,
        doe == 36524 * century + 1461 * quad + 365 * yoq + doy,
    ensures
        ({
            let yoe = 100 * century + 4 * quad + yoq;
            &&& 0 <= yoe < 400
            &&& doe == 365 * yoe + yoe / 4 - yoe / 100 + doy
        }),
{
    let yoe = 100 * century + 4 * quad + yoq;
    assert(yoe / 4 == 25 * century + quad);
    assert(yoe / 100 == century);
}

/// The year, month and day that a number of days after the first of January 1970
/// comes to.
pub fn epoch_days_to_ymd(days: u64) -> (res: (u64, u64, u64))
    requires
        days <= u64::MAX - 719_468,
    ensures
        is_date(res.0 as int, res.1 as int, res.2 as int),
        date_days(res.0 as int, res.1 as int, res.2 as int) == days,
{
    let z = days + 719_468;
    let era = z / 146_097;
    let doe = z - era * 146_097;
    let century = if doe / 36_524 < 4 {
        doe / 36_524
    } else {
        3
    };
    let in_century = doe - century * 36_524;
    let quad = in_century / 1_461;
    let in_quad = in_century - quad * 1_461;
    let yoq = if in_quad / 365 < 4 {
        in_quad / 365
    } else {
        3
    };
    let doy = in_quad - yoq * 365;
    let yoe = century * 100 + quad * 4 + yoq;
    let y = yoe + era * 400;
    let mp = (5 * doy + 2) / 153;
    let d = doy - (153 * mp + 2) / 5 + 1;
    let m = if mp < 10 {
        mp + 3
    } else {
        mp - 9
    };
    let year = if m <= 2 {
        y + 1
    } else {
        y
    };
    proof {
        cycle_parts(doe as int, century as int, quad as int, yoq as int, doy as int);
        let yi = y as int;
        assert(yi / 4 == 100 * era + (yoe as int) / 4);
        assert(yi / 100 == 4 * era + (yoe as int) / 100);
        assert(yi / 400 == era);
        assert(z == 365 * yi + leaps(yi) + doy);
        assert(0 <= doy <= 365);
        assert(0 <= mp < 12);
        months_from_march(year as int, mp as int);
        leap_day(century as int, quad as int, yoq as int, doy as int, era as int);
        date_adds_up(yi, mp as int, doy as int, days as int);
    }
    (year, m, d)
}

/// The last day of a year that starts in March is the leap day where it has one,
/// and no day lies beyond it.
proof fn leap_day(century: int, quad: int, yoq: int, doy: int, era: int)
    requires
        0 <= century <= 3,
        0 <= quad < 25,
        0 <= yoq <= 3,
        0 <= era,
        0 <= doy <= 365,
        doy == 365 ==> yoq == 3 && (quad < 24 || century == 3),
    ensures
        doy == 365 ==> is_leap(400 * era + 100 * century + 4 * quad + yoq + 1),
{
    if doy == 365 {
        let next = 400 * era + 100 * century + 4 * quad + 4;
        assert(next % 4 == 0);
        if quad < 24 {
            let r = 4 * quad + 4;
            assert(next == 100 * (4 * era + century) + r);
            assert(next % 100 == r);
        } else {
            assert(next == 400 * (era + 1));
            assert(next % 400 == 0);
        }
    }
}

proof fn date_adds_up(y: int, mp: int, doy: int, days: int)
    requires
        0 <= days,
        days + 719_468 == 365 * y + leaps(y) + doy,
        0 <= doy <= 365,
        doy == 365 ==> is_leap(y + 1),
        mp == (5 * doy + 2) / 153,
    ensures
        ({
            let m = if mp < 10 {
                mp + 3
            } else {
                mp - 9
            };
            let year = if m <= 2 {
                y + 1
            } else {
                y
            };
            let d = doy - march_start(mp) + 1;
            is_date(year, m, d) && date_days(year, m, d) == days
        }),
{
    let m = if mp < 10 {
        mp + 3
    } else {
        mp - 9
    };
    let year = if m <= 2 {
        y + 1
    } else {
        y
    };
    let d = doy - march_start(mp) + 1;
    assert(0 <= mp < 12);
    assert(y >= 1969) by {
        assert(leaps(y) <= y / 4 + y / 400);
        if y <= 1968 {
            if y >= 0 {
                assert(y / 4 <= 492);
                assert(y / 400 <= 4);
                assert(365 * y + leaps(y) + doy < 719_468);
            }
        }
    }
    months_from_march(year, mp);
    year_start_formula(if year >= 1970 {
        year
    } else {
        1970
    });
    leaps_step(y);
    if mp >= 10 {
        assert(year == y + 1);
        assert(year_start(year) == 365 * (y + 1 - 1970) + leaps(y) - 477);
    } else {
        assert(y == 1969 ==> leaps(1969) == 477);
        assert(y >= 1970);
        assert(year_start(year) == 365 * (y - 1970) + leaps(y - 1) - 477);
    }
    month_room(doy, mp, year);
}

/// A day falls within its month.
proof fn month_room(doy: int, mp: int, year: int)
    requires
        0 <= doy <= 365,
        mp == (5 * doy + 2) / 153,
        doy == 365 ==> is_leap(year),
    ensures
        1 <= doy - march_start(mp) + 1 <= month_days(
            year,
            if mp < 10 {
                mp + 3
            } else {
                mp - 9
            },
        ),
{
    assert(0 <= mp < 12);
}

// ---------------------------------------------------------------------------
// Timestamps
// ---------------------------------------------------------------------------

/// A number in decimal digits, with zeros in front up to a width.
pub open spec fn padded_decimal(n: nat, wide: nat) -> Seq<char> {
    let digits = text::decimal(n);
    if digits.len() < wide {
        Seq::new((wide - digits.len()) as nat, |i: int| '0') + digits
    } else {
        digits
    }
}

fn push_padded(out: &mut String, n: u64, wide: usize)
    ensures
        final(out)@ == old(out)@ + padded_decimal(n as nat, wide as nat),
{
    let digits = decimal_of(n);
    let long = digits.as_str().unicode_len();
    let ghost start = out@;
    let mut i: usize = long;
    assert(out@ =~= start + Seq::new(0, |j: int| '0'));
    while i < wide
        invariant
            long <= i,
            i <= wide || i == long,
            out@ == start + Seq::new((i - long) as nat, |j: int| '0'),
        decreases wide - i,
    {
        out.push('0');
        assert(out@ =~= start + Seq::new((i + 1 - long) as nat, |j: int| '0'));
        i += 1;
    }
    let ghost zeros = out@;
    out.append(digits.as_str());
    if long < wide {
        assert(out@ =~= start + (Seq::new((wide - long) as nat, |j: int| '0') + digits@));
    } else {
        assert(out@ =~= start + digits@);
    }
}

/// Whether a text is the timestamp of a date and a second of the day.
pub open spec fn is_stamp(s: Seq<char>, year: int, month: int, day: int, second: int) -> bool {
    s == padded_decimal(year as nat, 4) + "-"@ + padded_decimal(month as nat, 2) + "-"@
        + padded_decimal(day as nat, 2) + "T"@ + padded_decimal((second / 3600) as nat, 2) + ":"@
        + padded_decimal(((second % 3600) / 60) as nat, 2) + ":"@ + padded_decimal(
        (second % 60) as nat,
        2,
    ) + "Z"@
}

/// Whether a text is the timestamp of a number of seconds after the start of
/// 1970: the date and time of day in UTC that lie that far from it.
pub open spec fn is_timestamp(s: Seq<char>, secs: int) -> bool {
    exists|year: int, month: int, day: int|
        #![trigger is_date(year, month, day)]
        is_date(year, month, day) && date_days(year, month, day) == secs / 86400 && is_stamp(
            s,
            year,
            month,
            day,
            secs % 86400,
        )
}

/// The timestamp of a number of seconds after the start of 1970, in UTC.
pub open spec fn timestamp_text(secs: int) -> Seq<char> {
    choose|s: Seq<char>| is_timestamp(s, secs)
}

/// There is only one timestamp of a second.
pub proof fn timestamp_is_unique(a: Seq<char>, b: Seq<char>, secs: int)
    requires
        is_timestamp(a, secs),
        is_timestamp(b, secs),
    ensures
        a == b,
{
    let (y1, m1, d1) = choose|year: int, month: int, day: int|
        #![trigger is_date(year, month, day)]
        is_date(year, month, day) && date_days(year, month, day) == secs / 86400 && is_stamp(
            a,
            year,
            month,
            day,
            secs % 86400,
        );
    let (y2, m2, d2) = choose|year: int, month: int, day: int|
        #![trigger is_date(year, month, day)]
        is_date(year, month, day) && date_days(year, month, day) == secs / 86400 && is_stamp(
            b,
            year,
            month,
            day,
            secs % 86400,
        );
    dates_are_distinct(y1, m1, d1, y2, m2, d2);
}

/// The timestamp of a number of seconds after the start of 1970, in UTC.
pub fn timestamp(secs: u64) -> (res: String)
    ensures
        is_timestamp(res@, secs as int),
        res@ == timestamp_text(secs as int),
{
    let days = secs / 86_400;
    let rest = secs % 86_400;
    let (year, month, day) = epoch_days_to_ymd(days);
    let mut out = String::new();
    push_padded(&mut out, year, 4);
    assert(out@ =~= padded_decimal(year as nat, 4));
    out.append("-");
    push_padded(&mut out, month, 2);
    out.append("-");
    push_padded(&mut out, day, 2);
    out.append("T");
    push_padded(&mut out, rest / 3_600, 2);
    out.append(":");
    push_padded(&mut out, (rest % 3_600) / 60, 2);
    out.append(":");
    push_padded(&mut out, rest % 60, 2);
    out.append("Z");
    assert(is_stamp(out@, year as int, month as int, day as int, rest as int));
    proof {
        timestamp_is_unique(out@, timestamp_text(secs as int), secs as int);
    }
    out
}

// ---------------------------------------------------------------------------
// Laws
// ---------------------------------------------------------------------------

proof fn month_start_grows(year: int, a: int, b: int)
    requires
        1 <= a < b,
    ensures
        month_start(year, a) + month_days(year, a) <= month_start(year, b),
    decreases b,
{
    if a < b - 1 {
        month_start_grows(year, a, b - 1);
    }
}

proof fn year_start_grows(a: int, b: int)
    requires
        1970 <= a < b,
    ensures
        year_start(a) + year_days(a) <= year_start(b),
    decreases b,
{
    if a < b - 1 {
        year_start_grows(a, b - 1);
    }
}

proof fn day_of_year(year: int, month: int, day: int)
    requires
        is_date(year, month, day),
    ensures
        0 <= month_start(year, month) + day - 1 < year_days(year),
{
    reveal_with_fuel(month_start, 13);
}

/// No two dates are the same number of days away: a date is pinned down by its
/// distance from the first of January 1970.
pub proof fn dates_are_distinct(y1: int, m1: int, d1: int, y2: int, m2: int, d2: int)
    requires
        is_date(y1, m1, d1),
        is_date(y2, m2, d2),
        date_days(y1, m1, d1) == date_days(y2, m2, d2),
    ensures
        y1 == y2 && m1 == m2 && d1 == d2,
{
    day_of_year(y1, m1, d1);
    day_of_year(y2, m2, d2);
    if y1 < y2 {
        year_start_grows(y1, y2);
    }
    if y2 < y1 {
        year_start_grows(y2, y1);
    }
    if m1 < m2 {
        month_start_grows(y1, m1, m2);
    }
    if m2 < m1 {
        month_start_grows(y1, m2, m1);
    }
}

} // verus!
