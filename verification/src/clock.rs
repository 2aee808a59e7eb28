//! Moments as texts: seconds since 1970 as a date and a time of day in UTC.

use vstd::prelude::*;

use crate::text::{
    decimal, lemma_padded_reads_back, number, power_of_ten, write_padded, zero_padded,
};

verus! {

/// Whether a year of the Gregorian calendar has a 29th of February.
pub open spec fn is_leap(year: int) -> bool {
    (year % 4 == 0 && year % 100 != 0) || year % 400 == 0
}

/// The number of days in a year.
pub open spec fn year_days(year: int) -> int {
    if is_leap(year) {
        366
    } else {
        365
    }
}

/// The number of days in a month, from 1 to 12.
pub open spec fn month_days(year: int, month: int) -> int {
    if month == 2 {
        if is_leap(year) {
            29
        } else {
            28
        }
    } else if month == 4 || month == 6 || month == 9 || month == 11 {
        30
    } else {
        31
    }
}

/// The days from the beginning of 1970 to the beginning of `year`.
pub open spec fn days_before_year(year: int) -> int
    decreases year,
    when year >= 1970
{
    if year == 1970 {
        0
    } else {
        days_before_year(year - 1) + year_days(year - 1)
    }
}

/// The days from the beginning of `year` to the beginning of `month`.
pub open spec fn days_before_month(year: int, month: int) -> int
    decreases month,
    when month >= 1
{
    if month == 1 {
        0
    } else {
        days_before_month(year, month - 1) + month_days(year, month - 1)
    }
}

/// A date and a time of day.
pub struct Stamp {
    pub year: int,
    pub month: int,
    pub day: int,
    pub hour: int,
    pub minute: int,
    pub second: int,
}

impl Stamp {
    /// Whether there is such a date, from 1970 on, and such a time of day.
    pub open spec fn is_valid(self) -> bool {
        &&& self.year >= 1970
        &&& 1 <= self.month <= 12
        &&& 1 <= self.day <= month_days(self.year, self.month)
        &&& 0 <= self.hour < 24
        &&& 0 <= self.minute < 60
        &&& 0 <= self.second < 60
    }

    /// The days since the beginning of 1970.
    pub open spec fn days(self) -> int {
        days_before_year(self.year) + days_before_month(self.year, self.month) + self.day - 1
    }

    /// The seconds since the beginning of 1970.
    pub open spec fn seconds(self) -> int {
        self.days() * 86400 + self.hour * 3600 + self.minute * 60 + self.second
    }

    /// The text of a date and a time of day.
    pub open spec fn text(self) -> Seq<char> {
        zero_padded(decimal(self.year as nat), 4) + "-"@ + zero_padded(
            decimal(self.month as nat),
            2,
        ) + "-"@ + zero_padded(decimal(self.day as nat), 2) + "T"@ + zero_padded(
            decimal(self.hour as nat),
            2,
        ) + ":"@ + zero_padded(decimal(self.minute as nat), 2) + ":"@ + zero_padded(
            decimal(self.second as nat),
            2,
        ) + "Z"@
    }
}

/// Whether `s` is the moment `secs` seconds after the beginning of 1970.
pub open spec fn is_moment(s: Stamp, secs: int) -> bool {
    s.is_valid() && s.seconds() == secs
}

/// The date and the time of day `secs` seconds after the beginning of 1970.
pub open spec fn stamp_of(secs: int) -> Stamp {
    choose|s: Stamp| #[trigger] is_moment(s, secs)
}

/// A year has the days of its months.
proof fn lemma_year_is_its_months(year: int)
    ensures
        days_before_month(year, 13) == year_days(year),
{
    reveal_with_fuel(days_before_month, 13);
}

proof fn lemma_months_grow(year: int, a: int, b: int)
    requires
        1 <= a < b,
    ensures
        days_before_month(year, a) + month_days(year, a) <= days_before_month(year, b),
    decreases b,
{
    if b > a + 1 {
        lemma_months_grow(year, a, b - 1);
    }
}

proof fn lemma_years_grow(a: int, b: int)
    requires
        1970 <= a < b,
    ensures
        days_before_year(a) + year_days(a) <= days_before_year(b),
    decreases b,
{
    if b > a + 1 {
        lemma_years_grow(a, b - 1);
    }
}

/// A day of a year lies before the next year begins, and after the year began.
proof fn lemma_day_in_year(s: Stamp)
    requires
        s.is_valid(),
    ensures
        days_before_year(s.year) <= s.days() < days_before_year(s.year) + year_days(s.year),
        days_before_month(s.year, s.month) >= 0,
{
    lemma_year_is_its_months(s.year);
    lemma_months_grow(s.year, s.month, 13);
    lemma_month_not_negative(s.year, s.month);
}

proof fn lemma_month_not_negative(year: int, month: int)
    requires
        month >= 1,
    ensures
        days_before_month(year, month) >= 0,
    decreases month,
{
    if month > 1 {
        lemma_month_not_negative(year, month - 1);
    }
}

/// A moment has one date and one time of day.
pub proof fn lemma_stamp_is_unique(a: Stamp, b: Stamp)
    requires
        a.is_valid(),
        b.is_valid(),
        a.seconds() == b.seconds(),
    ensures
        a == b,
{
    lemma_day_in_year(a);
    lemma_day_in_year(b);
    assert(a.days() == b.days());
    if a.year < b.year {
        lemma_years_grow(a.year, b.year);
    }
    if b.year < a.year {
        lemma_years_grow(b.year, a.year);
    }
    if a.month < b.month {
        lemma_months_grow(a.year, a.month, b.month);
    }
    if b.month < a.month {
        lemma_months_grow(b.year, b.month, a.month);
    }
}

/// Later moments have later dates and times of day: year, month, day, hour,
/// minute and second are compared in this order.
pub proof fn lemma_stamps_keep_order(a: Stamp, b: Stamp)
    requires
        a.is_valid(),
        b.is_valid(),
        a.seconds() < b.seconds(),
    ensures
        a.year <= b.year,
        a.year == b.year ==> a.month <= b.month,
        a.year == b.year && a.month == b.month ==> a.day <= b.day,
        a.days() == b.days() ==> a.hour * 3600 + a.minute * 60 + a.second < b.hour * 3600 + b.minute
            * 60 + b.second,
{
    lemma_day_in_year(a);
    lemma_day_in_year(b);
    assert(a.days() <= b.days());
    if b.year < a.year {
        lemma_years_grow(b.year, a.year);
    }
    if a.year == b.year && b.month < a.month {
        lemma_months_grow(b.year, b.month, a.month);
    }
}

/// Whether `y` has a 29th of February.
pub fn is_leap_year(y: i64) -> (r: bool)
    ensures
        r == is_leap(y as int),
{
    (y % 4 == 0 && y % 100 != 0) || y % 400 == 0
}

/// The number of days in a month, from 1 to 12.
fn days_in_month(year: i64, month: u64) -> (r: u64)
    requires
        1 <= month <= 12,
    ensures
        r == month_days(year as int, month as int),
{
    if month == 2 {
        if is_leap_year(year) {
            29
        } else {
            28
        }
    } else if month == 4 || month == 6 || month == 9 || month == 11 {
        30
    } else {
        31
    }
}

/// The moment `secs` seconds after the beginning of 1970, as
/// `YYYY-MM-DDTHH:MM:SSZ`.
pub fn iso8601(secs: u64) -> (r: String)
    ensures
        is_moment(stamp_of(secs as int), secs as int),
        r@ == stamp_of(secs as int).text(),
{
    let days: u64 = secs / 86400;
    let time_of_day: u64 = secs % 86400;
    let hours: u64 = time_of_day / 3600;
    let minutes: u64 = (time_of_day % 3600) / 60;
    let seconds: u64 = time_of_day % 60;
    let mut y: i64 = 1970;
    let mut remaining: u64 = days;
    loop
        invariant_except_break
            y >= 1970,
            remaining <= days,
            y - 1970 <= days - remaining,
            days <= 0x1_0000_0000_0000,
            days_before_year(y as int) + remaining == days,
        ensures
            1970 <= y <= 0x2_0000_0000_0000,
            days_before_year(y as int) + remaining == days,
            remaining < year_days(y as int),
        decreases remaining,
    {
        let days_in_year: u64 = if is_leap_year(y) {
            366
        } else {
            365
        };
        if remaining < days_in_year {
            break ;
        }
        remaining -= days_in_year;
        y += 1;
    }
    let ghost of_year = remaining as int;
    let mut month: u64 = 1;
    proof {
        lemma_year_is_its_months(y as int);
    }
    loop
        invariant_except_break
            1 <= month <= 12,
            days_before_month(y as int, month as int) + remaining == of_year,
            of_year < days_before_month(y as int, 13),
        ensures
            1 <= month <= 12,
            days_before_month(y as int, month as int) + remaining == of_year,
            remaining < month_days(y as int, month as int),
        decreases 12 - month,
    {
        let d: u64 = days_in_month(y, month);
        if remaining < d {
            break ;
        }
        assert(month < 12);
        remaining -= d;
        month += 1;
    }
    let ghost s = Stamp {
        year: y as int,
        month: month as int,
        day: remaining + 1,
        hour: hours as int,
        minute: minutes as int,
        second: seconds as int,
    };
    proof {
        assert(s.days() == days);
        assert(is_moment(s, secs as int));
        lemma_stamp_is_unique(s, stamp_of(secs as int));
    }
    write_padded(y as u64, 4).concat("-").concat(write_padded(month, 2).as_str()).concat("-").concat(
        write_padded(remaining + 1, 2).as_str(),
    ).concat("T").concat(write_padded(hours, 2).as_str()).concat(":").concat(
        write_padded(minutes, 2).as_str(),
    ).concat(":").concat(write_padded(seconds, 2).as_str()).concat("Z")
}

proof fn lemma_field_widths(s: Stamp)
    requires
        s.is_valid(),
        s.year <= 9999,
    ensures
        zero_padded(decimal(s.year as nat), 4).len() == 4,
        number(zero_padded(decimal(s.year as nat), 4)) == s.year,
        zero_padded(decimal(s.month as nat), 2).len() == 2,
        number(zero_padded(decimal(s.month as nat), 2)) == s.month,
        zero_padded(decimal(s.day as nat), 2).len() == 2,
        number(zero_padded(decimal(s.day as nat), 2)) == s.day,
        zero_padded(decimal(s.hour as nat), 2).len() == 2,
        number(zero_padded(decimal(s.hour as nat), 2)) == s.hour,
        zero_padded(decimal(s.minute as nat), 2).len() == 2,
        number(zero_padded(decimal(s.minute as nat), 2)) == s.minute,
        zero_padded(decimal(s.second as nat), 2).len() == 2,
        number(zero_padded(decimal(s.second as nat), 2)) == s.second,
{
    reveal_with_fuel(power_of_ten, 5);
    assert(power_of_ten(4) == 10000);
    assert(power_of_ten(2) == 100);
    lemma_padded_reads_back(s.year as nat, 4);
    lemma_padded_reads_back(s.month as nat, 2);
    lemma_padded_reads_back(s.day as nat, 2);
    lemma_padded_reads_back(s.hour as nat, 2);
    lemma_padded_reads_back(s.minute as nat, 2);
    lemma_padded_reads_back(s.second as nat, 2);
}

/// Until the year 9999 the text of a moment has twenty characters, with each
/// field in its place.
pub proof fn lemma_text_shape(s: Stamp)
    requires
        s.is_valid(),
        s.year <= 9999,
    ensures
        s.text().len() == 20,
        number(s.text().subrange(0, 4)) == s.year,
        number(s.text().subrange(5, 7)) == s.month,
        number(s.text().subrange(8, 10)) == s.day,
        number(s.text().subrange(11, 13)) == s.hour,
        number(s.text().subrange(14, 16)) == s.minute,
        number(s.text().subrange(17, 19)) == s.second,
{
    lemma_field_widths(s);
    reveal_strlit("-");
    reveal_strlit("T");
    reveal_strlit(":");
    reveal_strlit("Z");
    let t = s.text();
    assert(t.subrange(0, 4) == zero_padded(decimal(s.year as nat), 4));
    assert(t.subrange(5, 7) == zero_padded(decimal(s.month as nat), 2));
    assert(t.subrange(8, 10) == zero_padded(decimal(s.day as nat), 2));
    assert(t.subrange(11, 13) == zero_padded(decimal(s.hour as nat), 2));
    assert(t.subrange(14, 16) == zero_padded(decimal(s.minute as nat), 2));
    assert(t.subrange(17, 19) == zero_padded(decimal(s.second as nat), 2));
}

/// Until the year 9999 no two moments have the same text.
pub proof fn lemma_text_tells_moment(a: Stamp, b: Stamp)
    requires
        a.is_valid(),
        b.is_valid(),
        a.year <= 9999,
        b.year <= 9999,
        a.text() == b.text(),
    ensures
        a == b,
{
    lemma_text_shape(a);
    lemma_text_shape(b);
}

} // verus!
