//! What holds of every date and of every timestamp.

use vstd::prelude::*;

use crate::calendar;
use crate::text;
use crate::text_laws;

verus! {

/// The days count on by one from each date to the next: within a month, from the last
/// day of a month to the first of the next, and from New Year's Eve to New Year's Day.
/// They start at zero.
pub proof fn days_count_on(year: int, month: int, day: int)
    requires
        calendar::is_date(year, month, day),
    ensures
        calendar::date_days(1970, 1, 1) == 0,
        day < calendar::month_days(year, month) ==> calendar::date_days(year, month, day + 1)
            == calendar::date_days(year, month, day) + 1,
        day == calendar::month_days(year, month) && month < 12 ==> calendar::date_days(
            year,
            month + 1,
            1,
        ) == calendar::date_days(year, month, day) + 1,
        day == 31 && month == 12 ==> calendar::date_days(year + 1, 1, 1) == calendar::date_days(
            year,
            month,
            day,
        ) + 1,
{
    reveal_with_fuel(calendar::month_start, 13);
}

/// Every fourth year has a leap day, but not every hundredth, and yet every four
/// hundredth; the months have the days that they have.
pub proof fn months_have_their_days(year: int)
    ensures
        calendar::month_days(year, 1) == 31,
        calendar::month_days(year, 2) == 28 || calendar::month_days(year, 2) == 29,
        calendar::month_days(year, 2) == 29 <==> year % 400 == 0 || (year % 4 == 0 && year % 100
            != 0),
        calendar::month_days(year, 3) == 31,
        calendar::month_days(year, 4) == 30,
        calendar::month_days(year, 5) == 31,
        calendar::month_days(year, 6) == 30,
        calendar::month_days(year, 7) == 31,
        calendar::month_days(year, 8) == 31,
        calendar::month_days(year, 9) == 30,
        calendar::month_days(year, 10) == 31,
        calendar::month_days(year, 11) == 30,
        calendar::month_days(year, 12) == 31,
{
}

/// A number with zeros in front still spells itself, and is as wide as it should be.
pub proof fn padding_changes_no_number(n: nat, wide: nat)
    ensures
        text_laws::spelled(calendar::padded_decimal(n, wide)) == n,
        calendar::padded_decimal(n, wide).len() >= wide,
        text::decimal(n).len() <= wide ==> calendar::padded_decimal(n, wide).len() == wide,
        text::decimal(n).len() > wide ==> calendar::padded_decimal(n, wide) == text::decimal(n),
        forall|i: int|
            0 <= i < calendar::padded_decimal(n, wide).len() ==> '0'
                <= #[trigger] calendar::padded_decimal(n, wide)[i] <= '9',
{
    text_laws::decimals_spell_their_number(n);
    let digits = text::decimal(n);
    if digits.len() < wide {
        zeros_add_nothing((wide - digits.len()) as nat, digits);
    }
}

proof fn zeros_add_nothing(count: nat, digits: Seq<char>)
    ensures
        text_laws::spelled(Seq::new(count, |i: int| '0') + digits) == text_laws::spelled(digits),
    decreases count + digits.len(),
{
    let zeros = Seq::new(count, |i: int| '0');
    if digits.len() > 0 {
        zeros_add_nothing(count, digits.drop_last());
        assert((zeros + digits).drop_last() =~= zeros + digits.drop_last());
    } else if count > 0 {
        let less = Seq::new((count - 1) as nat, |i: int| '0');
        zeros_add_nothing((count - 1) as nat, digits);
        assert((zeros + digits).drop_last() =~= less + digits);
    } else {
        assert(zeros + digits =~= digits);
    }
}

proof fn small_numbers_are_short(n: nat)
    ensures
        n < 100 ==> text::decimal(n).len() <= 2,
        n < 10_000 ==> text::decimal(n).len() <= 4,
{
    reveal_with_fuel(text::decimal, 5);
}

/// A timestamp of a year of four digits has twenty characters: the date, a `T`, the
/// time of day and a `Z`, each part where it should be.
pub proof fn timestamps_have_their_parts(
    s: Seq<char>,
    year: int,
    month: int,
    day: int,
    second: int,
)
    requires
        calendar::is_stamp(s, year, month, day, second),
        calendar::is_date(year, month, day),
        year < 10_000,
        0 <= second < 86_400,
    ensures
        s.len() == 20,
        text_laws::spelled(s.subrange(0, 4)) == year,
        s[4] == '-',
        text_laws::spelled(s.subrange(5, 7)) == month,
        s[7] == '-',
        text_laws::spelled(s.subrange(8, 10)) == day,
        s[10] == 'T',
        3600 * text_laws::spelled(s.subrange(11, 13)) + 60 * text_laws::spelled(s.subrange(14, 16))
            + text_laws::spelled(s.subrange(17, 19)) == second,
        0 <= text_laws::spelled(s.subrange(14, 16)) < 60,
        0 <= text_laws::spelled(s.subrange(17, 19)) < 60,
        s[13] == ':',
        s[16] == ':',
        s[19] == 'Z',
{
    reveal_strlit("-");
    reveal_strlit("T");
    reveal_strlit(":");
    reveal_strlit("Z");
    let y = calendar::padded_decimal(year as nat, 4);
    let m = calendar::padded_decimal(month as nat, 2);
    let d = calendar::padded_decimal(day as nat, 2);
    let hour = second / 3600;
    let minute = (second % 3600) / 60;
    let rest = second % 60;
    let h = calendar::padded_decimal(hour as nat, 2);
    let i = calendar::padded_decimal(minute as nat, 2);
    let c = calendar::padded_decimal(rest as nat, 2);
    small_numbers_are_short(year as nat);
    small_numbers_are_short(month as nat);
    small_numbers_are_short(day as nat);
    small_numbers_are_short(hour as nat);
    small_numbers_are_short(minute as nat);
    small_numbers_are_short(rest as nat);
    padding_changes_no_number(year as nat, 4);
    padding_changes_no_number(month as nat, 2);
    padding_changes_no_number(day as nat, 2);
    padding_changes_no_number(hour as nat, 2);
    padding_changes_no_number(minute as nat, 2);
    padding_changes_no_number(rest as nat, 2);
    assert(s.subrange(0, 4) =~= y);
    assert(s.subrange(5, 7) =~= m);
    assert(s.subrange(8, 10) =~= d);
    assert(s.subrange(11, 13) =~= h);
    assert(s.subrange(14, 16) =~= i);
    assert(s.subrange(17, 19) =~= c);
}

} // verus!
