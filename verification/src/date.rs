//! Calendar dates and the dense day-by-day calendar over a lookback window.
use vstd::prelude::*;

verus! {

/// A calendar date in the proleptic Gregorian calendar.
#[derive(Clone, Copy, PartialEq, Eq, Structural, Debug)]
pub struct Date {
    pub year: i32,
    pub month: u8,
    pub day: u8,
}

pub open spec fn is_leap_year(y: int) -> bool {
    (y % 4 == 0 && y % 100 != 0) || y % 400 == 0
}

pub open spec fn days_in_month(y: int, m: int) -> int {
    if m == 2 {
        if is_leap_year(y) {
            29
        } else {
            28
        }
    } else if m == 4 || m == 6 || m == 9 || m == 11 {
        30
    } else {
        31
    }
}

/// Dates are restricted to years 1..=9999, which covers every date the
/// pipeline can meet and keeps all date arithmetic far from machine limits.
pub open spec fn valid_date(d: Date) -> bool {
    &&& 1 <= d.year <= 9999
    &&& 1 <= d.month <= 12
    &&& 1 <= d.day <= days_in_month(d.year as int, d.month as int)
}

/// Strict chronological order, lexicographic on (year, month, day).
pub open spec fn date_lt(a: Date, b: Date) -> bool {
    ||| a.year < b.year
    ||| (a.year == b.year && a.month < b.month)
    ||| (a.year == b.year && a.month == b.month && a.day < b.day)
}

pub open spec fn date_le(a: Date, b: Date) -> bool {
    a == b || date_lt(a, b)
}

/// A strictly monotone integer measure of a valid date, used for termination.
pub open spec fn lin(d: Date) -> int {
    d.year * 372 + (d.month - 1) * 31 + d.day
}

pub proof fn lemma_lt_lin(a: Date, b: Date)
    requires
        valid_date(a),
        valid_date(b),
        date_lt(a, b),
    ensures
        lin(a) < lin(b),
{
}

/// The day after `d` in the Gregorian calendar.
pub open spec fn next_day_spec(d: Date) -> Date {
    if d.day < days_in_month(d.year as int, d.month as int) {
        Date { year: d.year, month: d.month, day: (d.day + 1) as u8 }
    } else if d.month < 12 {
        Date { year: d.year, month: (d.month + 1) as u8, day: 1 }
    } else {
        Date { year: (d.year + 1) as i32, month: 1, day: 1 }
    }
}

/// `next_day_spec(d)` is the immediate successor: it is strictly later than
/// `d`, and no valid date lies strictly between the two.
pub proof fn lemma_next_within(d: Date, b: Date)
    requires
        valid_date(d),
        valid_date(b),
        date_lt(d, b),
    ensures
        valid_date(next_day_spec(d)),
        date_lt(d, next_day_spec(d)),
        date_le(next_day_spec(d), b),
        lin(d) < lin(next_day_spec(d)),
{
}

pub fn exec_is_leap_year(y: i32) -> (r: bool)
    requires
        1 <= y <= 9999,
    ensures
        r == is_leap_year(y as int),
{
    (y % 4 == 0 && y % 100 != 0) || y % 400 == 0
}

pub fn exec_days_in_month(y: i32, m: u8) -> (r: u8)
    requires
        1 <= y <= 9999,
        1 <= m <= 12,
    ensures
        r as int == days_in_month(y as int, m as int),
{
    if m == 2 {
        if exec_is_leap_year(y) {
            29
        } else {
            28
        }
    } else if m == 4 || m == 6 || m == 9 || m == 11 {
        30
    } else {
        31
    }
}

pub fn next_day(d: Date) -> (r: Date)
    requires
        valid_date(d),
        d.year < 9999 || d.month < 12 || d.day < 31,
    ensures
        r == next_day_spec(d),
{
    let dim = exec_days_in_month(d.year, d.month);
    if d.day < dim {
        Date { year: d.year, month: d.month, day: d.day + 1 }
    } else if d.month < 12 {
        Date { year: d.year, month: d.month + 1, day: 1 }
    } else {
        Date { year: d.year + 1, month: 1, day: 1 }
    }
}

/// The date `n` calendar years before `d`; February 29 is clamped to
/// February 28 when the target year is not a leap year.
pub open spec fn years_back_spec(d: Date, n: int) -> Date {
    let y = d.year - n;
    if d.month == 2 && d.day == 29 && !is_leap_year(y) {
        Date { year: y as i32, month: 2, day: 28 }
    } else {
        Date { year: y as i32, month: d.month, day: d.day }
    }
}

pub proof fn lemma_years_back(d: Date, n: int)
    requires
        valid_date(d),
        1 <= n <= 15,
        d.year > n,
    ensures
        valid_date(years_back_spec(d, n)),
        date_lt(years_back_spec(d, n), d),
{
}

pub fn years_back(d: Date, n: u8) -> (r: Date)
    requires
        valid_date(d),
        1 <= n <= 15,
        d.year > n as i32,
    ensures
        r == years_back_spec(d, n as int),
        valid_date(r),
        date_lt(r, d),
{
    proof {
        lemma_years_back(d, n as int);
    }
    let y = d.year - n as i32;
    if d.month == 2 && d.day == 29 && !exec_is_leap_year(y) {
        Date { year: y, month: 2, day: 28 }
    } else {
        Date { year: y, month: d.month, day: d.day }
    }
}

/// The dense, day-by-day calendar from `cur` to `today`, both ends included.
pub open spec fn calendar_from(cur: Date, today: Date) -> Seq<Date>
    decreases lin(today) - lin(cur),
        when valid_date(cur) && valid_date(today) && date_le(cur, today)
        via calendar_from_decreases
{
    if cur == today {
        seq![cur]
    } else {
        seq![cur] + calendar_from(next_day_spec(cur), today)
    }
}

#[via_fn]
proof fn calendar_from_decreases(cur: Date, today: Date) {
    if cur != today {
        lemma_next_within(cur, today);
    }
}

/// The calendar is nonempty, runs from `cur` to `today`, holds only valid
/// dates, and each entry is the immediate successor of the one before it:
/// consecutive days, hence no gaps and no duplicates.
pub proof fn lemma_calendar_shape(cur: Date, today: Date)
    requires
        valid_date(cur),
        valid_date(today),
        date_le(cur, today),
    ensures
        calendar_from(cur, today).len() >= 1,
        calendar_from(cur, today)[0] == cur,
        calendar_from(cur, today).last() == today,
        forall|i: int|
            0 <= i < calendar_from(cur, today).len() ==> valid_date(
                #[trigger] calendar_from(cur, today)[i],
            ),
        forall|i: int|
            0 <= i < calendar_from(cur, today).len() - 1 ==> #[trigger] calendar_from(cur, today)[i
                + 1] == next_day_spec(calendar_from(cur, today)[i]),
    decreases lin(today) - lin(cur),
{
    if cur != today {
        lemma_next_within(cur, today);
        lemma_calendar_shape(next_day_spec(cur), today);
        let c = calendar_from(cur, today);
        let c2 = calendar_from(next_day_spec(cur), today);
        assert(c == seq![cur] + c2);
        assert forall|i: int| 0 <= i < c.len() - 1 implies #[trigger] c[i + 1] == next_day_spec(
            c[i],
        ) by {
            if i == 0 {
                assert(c[1] == c2[0]);
            } else {
                assert(c2[(i - 1) + 1] == next_day_spec(c2[i - 1]));
                assert(c[i] == c2[i - 1]);
                assert(c[i + 1] == c2[i]);
            }
        }
    }
}

/// Entries of the calendar are strictly increasing: for i < j,
/// calendar[i] is strictly before calendar[j].
pub proof fn lemma_calendar_increasing(cur: Date, today: Date, i: int, j: int)
    requires
        valid_date(cur),
        valid_date(today),
        date_le(cur, today),
        0 <= i < j < calendar_from(cur, today).len(),
    ensures
        date_lt(calendar_from(cur, today)[i], calendar_from(cur, today)[j]),
    decreases j - i,
{
    lemma_calendar_shape(cur, today);
    let c = calendar_from(cur, today);
    if j == i + 1 {
        assert(c[j] == next_day_spec(c[i]));
        if date_lt(c[i], today) {
            lemma_next_within(c[i], today);
        } else {
            assert(c[i] == today || date_lt(today, c[i]));
            lemma_calendar_last_is_max(cur, today, i);
        }
    } else {
        lemma_calendar_increasing(cur, today, i, j - 1);
        lemma_calendar_increasing(cur, today, j - 1, j);
        lemma_lt_lin(c[i], c[j - 1]);
        lemma_lt_lin(c[j - 1], c[j]);
    }
}

/// Every calendar entry other than the last is strictly before `today`.
pub proof fn lemma_calendar_last_is_max(cur: Date, today: Date, i: int)
    requires
        valid_date(cur),
        valid_date(today),
        date_le(cur, today),
        0 <= i < calendar_from(cur, today).len() - 1,
    ensures
        date_lt(calendar_from(cur, today)[i], today),
    decreases lin(today) - lin(cur),
{
    lemma_calendar_shape(cur, today);
    if cur != today {
        lemma_next_within(cur, today);
        if i > 0 {
            lemma_calendar_last_is_max(next_day_spec(cur), today, i - 1);
            assert(calendar_from(cur, today)[i] == calendar_from(next_day_spec(cur), today)[i - 1]);
        }
    }
}

/// The calendar holds at most one entry per unit of the `lin` measure.
pub proof fn lemma_calendar_len_bound(cur: Date, today: Date)
    requires
        valid_date(cur),
        valid_date(today),
        date_le(cur, today),
    ensures
        calendar_from(cur, today).len() <= lin(today) - lin(cur) + 1,
    decreases lin(today) - lin(cur),
{
    if cur != today {
        lemma_next_within(cur, today);
        lemma_calendar_len_bound(next_day_spec(cur), today);
    }
}

/// Builds the dense calendar from `years_back_spec(today, years)` to `today`,
/// one entry per day, in ascending order.
pub fn build_calendar(today: Date, years: u8) -> (r: Vec<Date>)
    requires
        valid_date(today),
        1 <= years <= 15,
        today.year > years as i32,
    ensures
        r@ == calendar_from(years_back_spec(today, years as int), today),
        r@.len() >= 1,
{
    let start = years_back(today, years);
    proof {
        lemma_calendar_shape(start, today);
    }
    let mut v: Vec<Date> = Vec::new();
    let mut cur = start;
    while cur != today
        invariant
            valid_date(cur),
            valid_date(today),
            date_le(cur, today),
            v@ + calendar_from(cur, today) == calendar_from(start, today),
        decreases lin(today) - lin(cur),
    {
        proof {
            lemma_next_within(cur, today);
        }
        v.push(cur);
        let prev: Ghost<Date> = Ghost(cur);
        cur = next_day(cur);
        proof {
            assert(v@ + calendar_from(cur, today) == calendar_from(start, today)) by {
                assert(calendar_from(prev@, today) == seq![prev@] + calendar_from(cur, today));
                assert(v@.drop_last() + (seq![prev@] + calendar_from(cur, today)) =~= (
                v@.drop_last().push(prev@)) + calendar_from(cur, today));
                assert(v@.drop_last().push(prev@) =~= v@);
            }
        }
    }
    v.push(cur);
    proof {
        assert(calendar_from(today, today) == seq![today]);
        assert(v@.drop_last() + seq![today] =~= v@);
    }
    v
}

} // verus!
