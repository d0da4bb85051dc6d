//! Calendar model for the weekly board: proleptic Gregorian dates as plain
//! year/month/day values, day numbering, weekdays, and the backward scan for
//! the most recent Sunday that anchors the seven-day board.
use chrono::Datelike;
use vstd::prelude::*;

verus! {

/// Day of the week.
#[derive(Clone, Copy, PartialEq, Eq, Structural, Debug)]
pub enum Weekday {
    Mon,
    Tue,
    Wed,
    Thu,
    Fri,
    Sat,
    Sun,
}

/// A calendar date, kept as plain values so that all date arithmetic is
/// verified. Years are restricted to four decimal digits, which is what the
/// on-disk layout of the note files assumes.
#[derive(Clone, Copy, PartialEq, Eq, Structural, Debug)]
pub struct Date {
    pub year: u16,
    pub month: u8,
    pub day: u8,
}

pub open spec fn is_leap_year(y: int) -> bool {
    y % 4 == 0 && (y % 100 != 0 || y % 400 == 0)
}

pub open spec fn spec_days_in_month(y: int, m: int) -> int {
    if m == 2 {
        if is_leap_year(y) {
            29
        } else {
            28
        }
    } else if m == 4 || m == 6 || m == 9 || m == 11 {
        30
    } else {
        31
    }
}

impl Date {
    /// A well-formed date: a real day of the proleptic Gregorian calendar
    /// with a four-digit year.
    pub open spec fn wf(self) -> bool {
        &&& 1 <= self.year <= 9999
        &&& 1 <= self.month <= 12
        &&& 1 <= self.day <= spec_days_in_month(self.year as int, self.month as int)
    }
}

/// Days of year `y` that fall strictly before month `m`.
pub open spec fn days_before_month(y: int, m: int) -> int
    decreases m,
{
    if m <= 1 {
        0
    } else {
        days_before_month(y, m - 1) + spec_days_in_month(y, m - 1)
    }
}

/// Days that fall strictly before January 1st of year `y`, counting from
/// 0001-01-01 (so `days_before_year(1) == 0`).
pub open spec fn days_before_year(y: int) -> int
    decreases y,
{
    if y <= 1 {
        0
    } else {
        days_before_year(y - 1) + if is_leap_year(y - 1) {
            366int
        } else {
            365int
        }
    }
}

/// The rank of a date: 0001-01-01 is day 0, and each following day adds one.
pub open spec fn spec_day_number(d: Date) -> int {
    days_before_year(d.year as int) + days_before_month(d.year as int, d.month as int) + d.day - 1
}

/// 0001-01-01 of the proleptic Gregorian calendar was a Monday, so the
/// weekday of a date is its day number modulo seven, with Monday as zero.
pub open spec fn spec_weekday(d: Date) -> Weekday {
    let w = spec_day_number(d) % 7;
    if w == 0 {
        Weekday::Mon
    } else if w == 1 {
        Weekday::Tue
    } else if w == 2 {
        Weekday::Wed
    } else if w == 3 {
        Weekday::Thu
    } else if w == 4 {
        Weekday::Fri
    } else if w == 5 {
        Weekday::Sat
    } else {
        Weekday::Sun
    }
}

pub fn days_in_month(year: u16, month: u8) -> (r: u8)
    requires
        1 <= month <= 12,
    ensures
        r == spec_days_in_month(year as int, month as int),
{
    if month == 2 {
        if year % 4 == 0 && (year % 100 != 0 || year % 400 == 0) {
            29
        } else {
            28
        }
    } else if month == 4 || month == 6 || month == 9 || month == 11 {
        30
    } else {
        31
    }
}

proof fn lemma_days_before_month_bounds(y: int, m: int)
    requires
        1 <= m <= 13,
    ensures
        0 <= days_before_month(y, m) <= 31 * (m - 1),
    decreases m,
{
    if m > 1 {
        lemma_days_before_month_bounds(y, m - 1);
    }
}

proof fn lemma_days_before_year_bounds(y: int)
    requires
        1 <= y <= 10000,
    ensures
        0 <= days_before_year(y) <= 366 * (y - 1),
    decreases y,
{
    if y > 1 {
        lemma_days_before_year_bounds(y - 1);
    }
}

fn days_before_month_exec(year: u16, month: u8) -> (r: u32)
    requires
        1 <= month <= 13,
    ensures
        r == days_before_month(year as int, month as int),
{
    let mut m: u8 = 1;
    let mut acc: u32 = 0;
    while m < month
        invariant
            1 <= m <= month <= 13,
            acc == days_before_month(year as int, m as int),
        decreases month - m,
    {
        proof {
            lemma_days_before_month_bounds(year as int, m as int);
        }
        acc = acc + days_in_month(year, m) as u32;
        m = m + 1;
    }
    acc
}

fn days_before_year_exec(year: u16) -> (r: u32)
    requires
        1 <= year <= 10000,
    ensures
        r == days_before_year(year as int),
{
    let mut y: u16 = 1;
    let mut acc: u32 = 0;
    while y < year
        invariant
            1 <= y <= year <= 10000,
            acc == days_before_year(y as int),
        decreases year - y,
    {
        proof {
            lemma_days_before_year_bounds(y as int);
        }
        if y % 4 == 0 && (y % 100 != 0 || y % 400 == 0) {
            acc = acc + 366;
        } else {
            acc = acc + 365;
        }
        y = y + 1;
    }
    acc
}

impl Date {
    pub fn day_number(&self) -> (r: u32)
        requires
            self.wf(),
        ensures
            r == spec_day_number(*self),
    {
        proof {
            lemma_days_before_year_bounds(self.year as int);
            lemma_days_before_month_bounds(self.year as int, self.month as int);
        }
        days_before_year_exec(self.year) + days_before_month_exec(self.year, self.month)
            + self.day as u32 - 1
    }

    pub fn weekday(&self) -> (r: Weekday)
        requires
            self.wf(),
        ensures
            r == spec_weekday(*self),
    {
        let n = self.day_number();
        match n % 7 {
            0 => Weekday::Mon,
            1 => Weekday::Tue,
            2 => Weekday::Wed,
            3 => Weekday::Thu,
            4 => Weekday::Fri,
            5 => Weekday::Sat,
            _ => Weekday::Sun,
        }
    }
}

/// Days of a full year: unfolding `days_before_month` over all twelve months.
proof fn lemma_days_in_year(y: int)
    ensures
        days_before_month(y, 13) == if is_leap_year(y) {
            366int
        } else {
            365int
        },
{
    reveal_with_fuel(days_before_month, 13);
}

impl Date {
    /// The calendar day right before `self`.
    pub fn prev_day(&self) -> (r: Date)
        requires
            self.wf(),
            spec_day_number(*self) >= 1,
        ensures
            r.wf(),
            spec_day_number(r) == spec_day_number(*self) - 1,
    {
        if self.day > 1 {
            Date { year: self.year, month: self.month, day: self.day - 1 }
        } else if self.month > 1 {
            let m = self.month - 1;
            Date { year: self.year, month: m, day: days_in_month(self.year, m) }
        } else {
            proof {
                lemma_days_in_year((self.year - 1) as int);
            }
            Date { year: self.year - 1, month: 12, day: 31 }
        }
    }

    /// The calendar day right after `self`.
    pub fn next_day(&self) -> (r: Date)
        requires
            self.wf(),
            !(self.year == 9999 && self.month == 12 && self.day == 31),
        ensures
            r.wf(),
            spec_day_number(r) == spec_day_number(*self) + 1,
            r.year == self.year || r.year == self.year + 1,
            r.year != self.year ==> self.month == 12 && self.day == 31 && r.month == 1 && r.day
                == 1,
            r.year == self.year && r.month != self.month ==> r.day == 1,
            r.year == self.year && r.month == self.month ==> r.day == self.day + 1,
            self.day < spec_days_in_month(self.year as int, self.month as int) ==> r.year
                == self.year && r.month == self.month && r.day == self.day + 1,
    {
        if self.day < days_in_month(self.year, self.month) {
            Date { year: self.year, month: self.month, day: self.day + 1 }
        } else if self.month < 12 {
            Date { year: self.year, month: self.month + 1, day: 1 }
        } else {
            proof {
                lemma_days_in_year(self.year as int);
            }
            Date { year: self.year + 1, month: 1, day: 1 }
        }
    }
}

/// Scan the six days strictly before `today`, oldest step last, and return
/// the first Sunday found; when `today` is itself a Sunday the scan finds
/// none and falls back to `today`. The result is pinned exactly: its day
/// number is `today`'s minus the distance to the previous Sunday, which is
/// zero exactly when `today` is a Sunday.
pub fn compute_last_sunday(today: Date) -> (r: Date)
    requires
        today.wf(),
        spec_day_number(today) >= 6,
    ensures
        r.wf(),
        spec_day_number(r) == spec_day_number(today) - ((spec_day_number(today) + 1) % 7),
        spec_weekday(today) == Weekday::Sun ==> r == today,
{
    let ghost dn = spec_day_number(today);
    let ghost target = (dn + 1) % 7;
    let mut cur = today;
    let mut i: u32 = 1;
    while i < 7
        invariant
            today.wf(),
            cur.wf(),
            dn == spec_day_number(today),
            target == (dn + 1) % 7,
            dn >= 6,
            1 <= i <= 7,
            spec_day_number(cur) == dn - (i - 1),
            target == 0 || target >= i,
        ensures
            i == 7,
            target == 0,
        decreases 7 - i,
    {
        cur = cur.prev_day();
        if cur.weekday() == Weekday::Sun {
            proof {
                assert((dn - i) % 7 == 6);
                assert(i == target) by {
                    assert(dn == 7 * (dn / 7) + dn % 7);
                };
            }
            return cur;
        }
        proof {
            assert((dn - i) % 7 != 6);
            assert(i != target) by {
                assert(dn == 7 * (dn / 7) + dn % 7);
            };
        }
        i = i + 1;
    }
    proof {
        assert(spec_weekday(today) == Weekday::Sun) by {
            assert(dn % 7 == 6) by {
                assert(dn == 7 * (dn / 7) + dn % 7);
            };
        };
    }
    today
}

/// The law of the backward scan: for a date that is not a Sunday the result
/// is the most recent strictly earlier Sunday, at most six days back, with no
/// Sunday between it and the date; for a Sunday it is the date itself.
pub proof fn lemma_last_sunday_properties(today: Date, r: Date)
    requires
        today.wf(),
        r.wf(),
        spec_day_number(r) == spec_day_number(today) - ((spec_day_number(today) + 1) % 7),
    ensures
        spec_weekday(r) == Weekday::Sun,
        spec_weekday(today) != Weekday::Sun ==> spec_day_number(today) - 6 <= spec_day_number(r)
            < spec_day_number(today),
        spec_weekday(today) == Weekday::Sun ==> spec_day_number(r) == spec_day_number(today),
        forall|m: int|
            spec_day_number(r) < m < spec_day_number(today) ==> #[trigger] (m % 7) != 6,
{
    let dn = spec_day_number(today);
    let target = (dn + 1) % 7;
    assert(dn == 7 * (dn / 7) + dn % 7);
    assert((dn - target) % 7 == 6) by {
        assert(dn - target == 7 * ((dn + 1) / 7) - 1);
        assert((7 * ((dn + 1) / 7) - 1) % 7 == 6) by {
            vstd::arithmetic::div_mod::lemma_mod_multiples_vanish(
                (dn + 1) / 7,
                -1,
                7,
            );
        };
    };
    assert forall|m: int| spec_day_number(r) < m < dn implies #[trigger] (m % 7) != 6 by {
        let k = m - spec_day_number(r);
        assert(m == spec_day_number(r) + k && 1 <= k <= 6);
        assert(m % 7 == (spec_day_number(r) % 7 + k) % 7) by {
            vstd::arithmetic::div_mod::lemma_add_mod_noop(spec_day_number(r), k, 7);
            vstd::arithmetic::div_mod::lemma_mod_twice(spec_day_number(r) + k, 7);
        };
    };
}

/// The short Japanese label for a weekday, as the board renders it.
pub fn weekday_to_japanese(weekday: Weekday) -> (r: String)
    ensures
        r@ == spec_weekday_japanese(weekday),
{
    proof {
        reveal_strlit("\u{6708}");
        reveal_strlit("\u{706b}");
        reveal_strlit("\u{6c34}");
        reveal_strlit("\u{6728}");
        reveal_strlit("\u{91d1}");
        reveal_strlit("\u{571f}");
        reveal_strlit("\u{65e5}");
    }
    let s = match weekday {
        Weekday::Mon => "\u{6708}",
        Weekday::Tue => "\u{706b}",
        Weekday::Wed => "\u{6c34}",
        Weekday::Thu => "\u{6728}",
        Weekday::Fri => "\u{91d1}",
        Weekday::Sat => "\u{571f}",
        Weekday::Sun => "\u{65e5}",
    };
    proof {
        assert(s@ =~= spec_weekday_japanese(weekday));
    }
    s.to_owned()
}

/// The one-character Japanese weekday names, Monday through Sunday.
pub open spec fn spec_weekday_japanese(weekday: Weekday) -> Seq<char> {
    match weekday {
        Weekday::Mon => seq!['\u{6708}'],
        Weekday::Tue => seq!['\u{706b}'],
        Weekday::Wed => seq!['\u{6c34}'],
        Weekday::Thu => seq!['\u{6728}'],
        Weekday::Fri => seq!['\u{91d1}'],
        Weekday::Sat => seq!['\u{571f}'],
        Weekday::Sun => seq!['\u{65e5}'],
    }
}

/// Where day `i` of the week (zero is the Sunday the board starts on) sits in
/// the board's grid, as a column and row pair. The placement is deliberately
/// non-linear: the calendar occupies the top-left cell.
pub open spec fn spec_grid_position(i: int) -> (int, int) {
    if i == 0 {
        (1, 0)
    } else if i == 1 {
        (2, 0)
    } else if i == 2 {
        (3, 0)
    } else if i == 3 {
        (0, 1)
    } else if i == 4 {
        (1, 1)
    } else if i == 5 {
        (2, 1)
    } else {
        (3, 1)
    }
}

pub fn grid_position(i: usize) -> (r: (u8, u8))
    requires
        i < 7,
    ensures
        (r.0 as int, r.1 as int) == spec_grid_position(i as int),
{
    match i {
        0 => (1, 0),
        1 => (2, 0),
        2 => (3, 0),
        3 => (0, 1),
        4 => (1, 1),
        5 => (2, 1),
        _ => (3, 1),
    }
}

/// The seven dates of the board, `sunday` through the following Saturday.
pub fn week_dates(sunday: Date) -> (r: Vec<Date>)
    requires
        sunday.wf(),
        sunday.year <= 9998,
    ensures
        r@.len() == 7,
        forall|i: int|
            0 <= i < 7 ==> (#[trigger] r@[i]).wf() && spec_day_number(r@[i]) == spec_day_number(
                sunday,
            ) + i,
{
    let mut dates: Vec<Date> = Vec::new();
    let mut cur = sunday;
    dates.push(cur);
    let mut i: usize = 1;
    while i < 7
        invariant
            sunday.wf(),
            sunday.year <= 9998,
            cur.wf(),
            1 <= i <= 7,
            dates@.len() == i,
            spec_day_number(cur) == spec_day_number(sunday) + i - 1,
            cur.year <= sunday.year + 1,
            cur.year > sunday.year ==> cur.month == 1 && cur.day <= i,
            forall|j: int|
                0 <= j < i ==> (#[trigger] dates@[j]).wf() && spec_day_number(dates@[j])
                    == spec_day_number(sunday) + j,
        decreases 7 - i,
    {
        cur = cur.next_day();
        dates.push(cur);
        i = i + 1;
    }
    dates
}

/// Relies on chrono's `Local::now`, `DateTime::date_naive` and the `Datelike`
/// accessors `year`, `month` and `day`: chrono only represents real calendar
/// dates, so the returned month and day are a valid month and a valid day of
/// that month of that year. Which date comes back depends on the clock, and
/// chrono's now-call panics when the system clock is set before 1970 — a
/// clock this broken is fatal, matching the shell's treatment of an
/// unusable configuration.
#[verifier::external_body]
fn today_ymd() -> (r: (i32, u8, u8))
    ensures
        1 <= r.1 <= 12,
        1 <= r.2 <= spec_days_in_month(r.0 as int, r.1 as int),
{
    let now = chrono::Local::now().date_naive();
    (now.year(), now.month() as u8, now.day() as u8)
}

/// Take a real calendar day, given as plain year, month and day values,
/// into the library's date model: exactly the four-digit years are
/// accepted, any other year is refused.
pub fn date_in_range(y: i32, m: u8, d: u8) -> (r: Option<Date>)
    requires
        1 <= m <= 12,
        1 <= d as int <= spec_days_in_month(y as int, m as int),
    ensures
        1 <= y <= 9999 ==> (r matches Some(date) && date.year == y && date.month == m && date.day
            == d),
        !(1 <= y <= 9999) ==> r is None,
        r matches Some(date) ==> date.wf(),
{
    if 1 <= y && y <= 9999 {
        proof {
            assert(spec_days_in_month(y as int, m as int) == spec_days_in_month(
                y as u16 as int,
                m as int,
            ));
        }
        Some(Date { year: y as u16, month: m, day: d })
    } else {
        None
    }
}

/// The current local date, if it falls in the four-digit-year range the
/// library's calendar model covers. Which day comes back depends on the
/// clock; `date_in_range` pins what each reading maps to.
pub fn today() -> (r: Option<Date>)
    ensures
        r matches Some(d) ==> d.wf(),
{
    let (y, m, d) = today_ymd();
    date_in_range(y, m, d)
}

} // verus!
