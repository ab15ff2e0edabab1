//! Moments in time: how a subscription remembers when it was added, and the
//! calendar day on which that was.

use vstd::prelude::*;

use crate::text::{decimal, law_decimal_stands_for_its_number, number_written};

verus! {

/// A moment in universal time: whole seconds since the start of 1970 and the
/// nanoseconds since the last of them.
#[derive(PartialEq, Eq, Structural, Clone, Copy, Debug)]
pub struct Timestamp {
    pub secs: i64,
    pub nanos: u32,
}

/// The first second of the year -262143.
pub const FIRST_SECOND: i64 = -8334601228800;

/// The last second of the year 262142.
pub const LAST_SECOND: i64 = 8210266876799;

impl Timestamp {
    /// The moments that a date and time of the supported calendar can stand for.
    /// A leap second is written as the last second of a minute with a billion
    /// nanoseconds or more.
    pub open spec fn valid(self) -> bool {
        &&& FIRST_SECOND <= self.secs <= LAST_SECOND
        &&& self.nanos < 1_000_000_000 || (self.nanos < 2_000_000_000 && self.secs as int % 60 == 59)
    }

    /// The day of the moment, counted from 1970-01-01.
    pub open spec fn day(self) -> int {
        self.secs as int / 86400
    }

    /// Makes a moment, where the parts stand for one.
    pub fn new(secs: i64, nanos: u32) -> (r: Option<Timestamp>)
        ensures
            r == (if (Timestamp { secs, nanos }).valid() {
                Some(Timestamp { secs, nanos })
            } else {
                None
            }),
    {
        if secs < FIRST_SECOND || LAST_SECOND < secs {
            return None;
        }
        let shifted: u64 = (secs - FIRST_SECOND) as u64;
        // The shift is a whole number of minutes.
        assert(shifted as int % 60 == secs as int % 60);
        if nanos < 1_000_000_000 || (nanos < 2_000_000_000 && shifted % 60 == 59) {
            Some(Timestamp { secs, nanos })
        } else {
            None
        }
    }
}

// -------------------------------------------------------------- the calendar

/// The leap years of the Gregorian calendar.
pub open spec fn is_leap_year(y: int) -> bool {
    y % 4 == 0 && (y % 100 != 0 || y % 400 == 0)
}

/// The number of days of month `m` of year `y`.
pub open spec fn days_in_month(y: int, m: int) -> int {
    if m == 2 {
        if is_leap_year(y) {
            29
        } else {
            28
        }
    } else if m == 4 || m == 6 || m == 9 || m == 11 {
        30
    } else {
        31
    }
}

/// The number of days from the start of year 0 to the start of year `y`.
pub open spec fn days_before_year(y: int) -> int {
    365 * y + (y + 3) / 4 - (y + 99) / 100 + (y + 399) / 400
}

/// The number of days of year `y` before its month `m`.
pub open spec fn days_before_month(y: int, m: int) -> int
    decreases m,
{
    if m <= 1 {
        0
    } else {
        days_before_month(y, m - 1) + days_in_month(y, m - 1)
    }
}

/// A day of the Gregorian calendar, extended to all years.
pub struct Date {
    pub year: int,
    pub month: int,
    pub day: int,
}

impl Date {
    /// The months run from 1 to 12 and the days from 1 to the month's last.
    pub open spec fn valid(self) -> bool {
        &&& 1 <= self.month <= 12
        &&& 1 <= self.day <= days_in_month(self.year, self.month)
    }

    /// The number of the day, counted from 1970-01-01.
    pub open spec fn number(self) -> int {
        days_before_year(self.year) - days_before_year(1970) + days_before_month(
            self.year,
            self.month,
        ) + self.day - 1
    }

    /// The day as text, year first. Years outside 0 to 9999 carry a sign.
    pub open spec fn text(self) -> Seq<char> {
        let year = if 0 <= self.year <= 9999 {
            padded(self.year as nat, 4)
        } else if self.year < 0 {
            seq!['-'] + padded((-self.year) as nat, 4)
        } else {
            seq!['+'] + padded(self.year as nat, 4)
        };
        year + seq!['-'] + padded(self.month as nat, 2) + seq!['-'] + padded(self.day as nat, 2)
    }
}

/// `n` in decimal, with zeros in front up to `width` characters.
pub open spec fn padded(n: nat, width: nat) -> Seq<char> {
    if decimal(n).len() < width {
        Seq::new((width - decimal(n).len()) as nat, |i: int| '0') + decimal(n)
    } else {
        decimal(n)
    }
}

/// The calendar day with the given number.
pub open spec fn date_of(number: int) -> Date {
    choose|d: Date| d.valid() && #[trigger] d.number() == number
}

/// How far the months before `m` reach into the year.
proof fn lemma_month_fits(y: int, m: int)
    requires
        1 <= m <= 12,
    ensures
        0 <= days_before_month(y, m),
        days_before_month(y, m) + days_in_month(y, m) <= days_before_year(y + 1) - days_before_year(y),
{
    lemma_year_length(y);
    if 1 < m {
        lemma_months_in_order(y, 1, m);
    }
    if m < 12 {
        lemma_months_in_order(y, m, 12);
    }
}

/// The months before `b` take at least those before `a` and month `a` itself.
proof fn lemma_months_in_order(y: int, a: int, b: int)
    requires
        1 <= a < b <= 12,
    ensures
        days_before_month(y, a) + days_in_month(y, a) <= days_before_month(y, b),
    decreases b,
{
    if a + 1 < b {
        lemma_months_in_order(y, a, b - 1);
    }
}

/// No two days of the calendar have the same number: the earlier of two days
/// has the smaller number.
pub proof fn law_earlier_day_has_smaller_number(a: Date, b: Date)
    requires
        a.valid(),
        b.valid(),
        a.year < b.year || (a.year == b.year && (a.month < b.month || (a.month == b.month && a.day
            < b.day))),
    ensures
        a.number() < b.number(),
{
    lemma_month_fits(a.year, a.month);
    lemma_month_fits(b.year, b.month);
    if a.year < b.year {
        assert(days_before_year(a.year + 1) <= days_before_year(b.year));
    } else if a.month < b.month {
        lemma_months_in_order(a.year, a.month, b.month);
    }
}

/// A valid day is the day of its own number.
pub proof fn law_date_of_number(d: Date)
    requires
        d.valid(),
    ensures
        date_of(d.number()) == d,
{
    let e = date_of(d.number());
    assert(d.valid() && d.number() == d.number());
    assert(e.valid() && e.number() == d.number());
    if e.year < d.year || (e.year == d.year && (e.month < d.month || (e.month == d.month && e.day
        < d.day))) {
        law_earlier_day_has_smaller_number(e, d);
    } else if e != d {
        law_earlier_day_has_smaller_number(d, e);
    }
}

/// The months of a year make up the year.
proof fn lemma_year_length(y: int)
    ensures
        days_before_month(y, 12) + days_in_month(y, 12) == days_before_year(y + 1)
            - days_before_year(y),
{
    reveal_with_fuel(days_before_month, 13);
}

/// Every number is that of a day of the calendar.
pub proof fn law_every_number_is_a_day(number: int)
    ensures
        date_of(number).valid(),
        date_of(number).number() == number,
{
    let n = number + days_before_year(1970);
    let year = if n < 0 {
        lemma_year_down(n, 0)
    } else {
        lemma_year_up(n, 0)
    };
    let rest = n - days_before_year(year);
    lemma_year_length(year);
    let month = lemma_month_of(year, rest, 12);
    let d = Date { year, month, day: rest - days_before_month(year, month) + 1 };
    assert(d.valid() && d.number() == number);
}

/// The year of day `n`, searched for downward.
proof fn lemma_year_down(n: int, guess: int) -> (year: int)
    requires
        n < days_before_year(guess),
    ensures
        days_before_year(year) <= n < days_before_year(year + 1),
    decreases days_before_year(guess) - n,
{
    assert(days_before_year(guess - 1) < days_before_year(guess));
    if days_before_year(guess - 1) <= n {
        guess - 1
    } else {
        lemma_year_down(n, guess - 1)
    }
}

/// The year of day `n`, searched for upward.
proof fn lemma_year_up(n: int, guess: int) -> (year: int)
    requires
        days_before_year(guess) <= n,
    ensures
        days_before_year(year) <= n < days_before_year(year + 1),
    decreases n - days_before_year(guess),
{
    assert(days_before_year(guess) < days_before_year(guess + 1));
    if n < days_before_year(guess + 1) {
        guess
    } else {
        lemma_year_up(n, guess + 1)
    }
}

/// The month, up to month `m`, in which day `rest` of a year falls.
proof fn lemma_month_of(year: int, rest: int, m: int) -> (month: int)
    requires
        1 <= m <= 12,
        0 <= rest < days_before_month(year, m) + days_in_month(year, m),
    ensures
        1 <= month <= m,
        0 <= rest - days_before_month(year, month) < days_in_month(year, month),
    decreases m,
{
    if days_before_month(year, m) <= rest {
        m
    } else {
        assert(m > 1);
        lemma_month_of(year, rest, m - 1)
    }
}

// ------------------------------------------------------------------ trusted

/// The day of a moment as text, year first: `chrono`'s
/// `DateTime::<Utc>::from_timestamp`, then `format` with `%Y-%m-%d`.
///
/// Claimed of them: seconds from `FIRST_SECOND` to `LAST_SECOND` make a date and
/// time, the one in the Gregorian calendar on which that second falls, and the
/// format writes its year with at least four digits and with a sign outside 0
/// to 9999, then its month and its day with two digits each.
#[verifier::external_body]
pub(crate) fn day_text(secs: i64) -> (r: String)
    requires
        FIRST_SECOND <= secs <= LAST_SECOND,
    ensures
        r@ == date_of(secs as int / 86400).text(),
{
    chrono::DateTime::<chrono::Utc>::from_timestamp(secs, 0).unwrap().format("%Y-%m-%d").to_string()
}

/// The present moment: `chrono::Utc::now`.
///
/// Claimed of it: what it gives is a moment from 1970 on, outside any leap
/// second. Which moment it is, the machine's clock says; it panics where that is
/// set before 1970.
#[verifier::external_body]
pub(crate) fn now() -> (r: Timestamp)
    ensures
        r.valid(),
        0 <= r.secs,
        r.nanos < 1_000_000_000,
{
    let t = chrono::Utc::now();
    Timestamp { secs: t.timestamp(), nanos: t.timestamp_subsec_nanos() }
}

// --------------------------------------------------------------------- laws

/// The first day of 1970 is day zero.
pub proof fn law_days_are_counted_from_1970()
    ensures
        (Date { year: 1970, month: 1, day: 1 }).valid(),
        (Date { year: 1970, month: 1, day: 1 }).number() == 0,
{
}

/// The day after a day has the next number: the next day of the month, or the
/// first of the next month, or the first of the next year.
pub proof fn law_next_day_has_the_next_number(d: Date)
    requires
        d.valid(),
    ensures
        ({
            let next = Date { day: d.day + 1, ..d };
            if next.valid() {
                next.number() == d.number() + 1
            } else if d.month < 12 {
                (Date { year: d.year, month: d.month + 1, day: 1 }).number() == d.number() + 1
            } else {
                (Date { year: d.year + 1, month: 1, day: 1 }).number() == d.number() + 1
            }
        }),
{
    lemma_year_length(d.year);
}

/// February has a twenty-ninth day in every fourth year, but in one that ends a
/// century only where that is every fourth; it never has a thirtieth. The other
/// months have a thirtieth, and seven of them a thirty-first.
pub proof fn law_months_have_their_days(year: int, month: int)
    requires
        1 <= month <= 12,
    ensures
        (Date { year, month, day: 28 }).valid(),
        (Date { year, month, day: 29 }).valid() <==> month != 2 || year % 400 == 0 || (year % 4 == 0
            && year % 100 != 0),
        (Date { year, month, day: 30 }).valid() <==> month != 2,
        (Date { year, month, day: 31 }).valid() <==> seq![1int, 3, 5, 7, 8, 10, 12].contains(month),
        !(Date { year, month, day: 32 }).valid(),
{
    let long = seq![1int, 3, 5, 7, 8, 10, 12];
    assert(long[0] == 1 && long[1] == 3 && long[2] == 5 && long[3] == 7 && long[4] == 8 && long[5]
        == 10 && long[6] == 12);
}

/// A moment lies on the day that has begun, and not ended, by then.
pub proof fn law_moment_lies_on_its_day(t: Timestamp)
    ensures
        t.day() * 86400 <= t.secs < (t.day() + 1) * 86400,
{
}

/// Zeros in front do not change the number that is written.
proof fn lemma_zeros_in_front(n: nat, s: Seq<char>)
    ensures
        number_written(Seq::new(n, |i: int| '0') + s) == number_written(s),
    decreases n + s.len(),
{
    let zeros = Seq::new(n, |i: int| '0');
    if s.len() > 0 {
        assert((zeros + s).drop_last() =~= zeros + s.drop_last());
        lemma_zeros_in_front(n, s.drop_last());
    } else if n > 0 {
        let fewer = (n - 1) as nat;
        assert((zeros + s).drop_last() =~= Seq::new(fewer, |i: int| '0') + s);
        lemma_zeros_in_front(fewer, s);
    } else {
        assert(zeros + s =~= s);
    }
}

/// A number with zeros in front is made of digits, stands for that number and is
/// at least as wide as asked for; it is no wider unless the number is.
pub proof fn law_padded_stands_for_its_number(n: nat, width: nat)
    ensures
        forall|i: int| 0 <= i < padded(n, width).len() ==> '0' <= #[trigger] padded(n, width)[i]
            <= '9',
        number_written(padded(n, width)) == n,
        padded(n, width).len() >= width,
        padded(n, width).len() > width ==> padded(n, width) == decimal(n),
{
    law_decimal_stands_for_its_number(n);
    if decimal(n).len() < width {
        let zeros = (width - decimal(n).len()) as nat;
        lemma_zeros_in_front(zeros, decimal(n));
        let s = padded(n, width);
        assert forall|i: int| 0 <= i < s.len() implies '0' <= #[trigger] s[i] <= '9' by {
            if i >= zeros {
                assert(s[i] == decimal(n)[i - zeros]);
            }
        }
    }
}

/// A day of the years 0 to 9999 is written with four digits for the year, two for
/// the month and two for the day, in this order and with hyphens between them.
pub proof fn law_day_is_written_year_first(d: Date)
    requires
        d.valid(),
        0 <= d.year <= 9999,
    ensures
        d.text().len() == 10,
        number_written(d.text().subrange(0, 4)) == d.year,
        d.text()[4] == '-',
        number_written(d.text().subrange(5, 7)) == d.month,
        d.text()[7] == '-',
        number_written(d.text().subrange(8, 10)) == d.day,
        forall|i: int|
            0 <= i < 10 && i != 4 && i != 7 ==> '0' <= #[trigger] d.text()[i] <= '9',
{
    let y = padded(d.year as nat, 4);
    let m = padded(d.month as nat, 2);
    let n = padded(d.day as nat, 2);
    law_padded_stands_for_its_number(d.year as nat, 4);
    law_padded_stands_for_its_number(d.month as nat, 2);
    law_padded_stands_for_its_number(d.day as nat, 2);
    reveal_with_fuel(decimal, 5);
    assert(y.len() == 4 && m.len() == 2 && n.len() == 2);
    let t = d.text();
    assert(t.subrange(0, 4) =~= y);
    assert(t.subrange(5, 7) =~= m);
    assert(t.subrange(8, 10) =~= n);
    assert forall|i: int| 0 <= i < 10 && i != 4 && i != 7 implies '0' <= #[trigger] t[i] <= '9' by {
        if i < 4 {
            assert(t[i] == y[i]);
        } else if i < 7 {
            assert(t[i] == m[i - 5]);
        } else {
            assert(t[i] == n[i - 8]);
        }
    }
}

/// A day of another year is written in the same way, with a sign in front and as
/// many digits for the year as it needs.
pub proof fn law_day_of_another_year_carries_a_sign(d: Date)
    requires
        d.valid(),
        d.year < 0 || 9999 < d.year,
    ensures
        ({
            let k = d.text().len() - 6;
            &&& k >= 5
            &&& d.text()[0] == if d.year < 0 {
                '-'
            } else {
                '+'
            }
            &&& number_written(d.text().subrange(1, k)) == if d.year < 0 {
                -d.year
            } else {
                d.year
            }
            &&& d.text()[k] == '-'
            &&& number_written(d.text().subrange(k + 1, k + 3)) == d.month
            &&& d.text()[k + 3] == '-'
            &&& number_written(d.text().subrange(k + 4, k + 6)) == d.day
        }),
{
    let size = if d.year < 0 {
        -d.year
    } else {
        d.year
    };
    let y = padded(size as nat, 4);
    let m = padded(d.month as nat, 2);
    let n = padded(d.day as nat, 2);
    law_padded_stands_for_its_number(size as nat, 4);
    law_padded_stands_for_its_number(d.month as nat, 2);
    law_padded_stands_for_its_number(d.day as nat, 2);
    assert(m.len() == 2 && n.len() == 2) by {
        reveal_with_fuel(decimal, 3);
    }
    let t = d.text();
    let k = t.len() - 6;
    assert(t.subrange(1, k) =~= y);
    assert(t.subrange(k + 1, k + 3) =~= m);
    assert(t.subrange(k + 4, k + 6) =~= n);
}

/// The moments are those of the years -262143 to 262142, to the nanosecond, and the
/// leap seconds at the ends of their minutes.
pub proof fn law_moments_are_those_of_the_supported_years(t: Timestamp, d: Date)
    requires
        d.valid(),
        d.number() == t.day(),
    ensures
        t.valid() <==> -262143 <= d.year <= 262142 && (t.nanos <= 999_999_999 || (t.nanos
            <= 1_999_999_999 && t.secs as int % 60 == 59)),
{
    let first = Date { year: -262143, month: 1, day: 1 };
    let next = Date { year: 262143, month: 1, day: 1 };
    assert(first.number() * 86400 == FIRST_SECOND);
    assert(next.number() * 86400 == LAST_SECOND + 1);
    if d.year < -262143 {
        law_earlier_day_has_smaller_number(d, first);
    } else if d != first {
        law_earlier_day_has_smaller_number(first, d);
    }
    if d.year <= 262142 {
        law_earlier_day_has_smaller_number(d, next);
    } else if d != next {
        law_earlier_day_has_smaller_number(next, d);
    }
}

} // verus!
