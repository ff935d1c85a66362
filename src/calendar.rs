//! Proleptic Gregorian calendar dates between the years 1 and 9999, with the
//! one-step month and day roll-forwards and the business-day rules.

use vstd::prelude::*;

verus! {

/// First year a `Date` can hold.
pub const MIN_YEAR: i32 = 1;

/// Last year a `Date` can hold.
pub const MAX_YEAR: i32 = 9999;

pub open spec fn is_leap(y: int) -> bool {
    y % 4 == 0 && (y % 100 != 0 || y % 400 == 0)
}

pub open spec fn month_length(y: int, m: int) -> int {
    if m == 2 {
        if is_leap(y) { 29 } else { 28 }
    } else if m == 4 || m == 6 || m == 9 || m == 11 {
        30
    } else {
        31
    }
}

/// Days in the months of year `y` before month `m`.
pub open spec fn days_before_month(y: int, m: int) -> int
    decreases m,
{
    if m <= 1 { 0 } else { days_before_month(y, m - 1) + month_length(y, m - 1) }
}

/// Days in the years before year `y`, counted from 0001-01-01.
pub open spec fn days_before_year(y: int) -> int {
    365 * (y - 1) + (y - 1) / 4 - (y - 1) / 100 + (y - 1) / 400
}

/// A calendar date. 0001-01-01 has day number 0 and is a Monday.
#[derive(Clone, Copy, Debug, PartialEq, Eq, Structural)]
pub struct Date {
    pub year: i32,
    pub month: u32,
    pub day: u32,
}

pub open spec fn valid_ymd(y: int, m: int, d: int) -> bool {
    MIN_YEAR <= y <= MAX_YEAR && 1 <= m <= 12 && 1 <= d <= month_length(y, m)
}

impl Date {
    pub open spec fn wf(self) -> bool {
        valid_ymd(self.year as int, self.month as int, self.day as int)
    }

    /// Days since 0001-01-01.
    pub open spec fn num(self) -> int {
        days_before_year(self.year as int) + days_before_month(self.year as int, self.month as int)
            + self.day - 1
    }

    /// 0 for Monday up to 6 for Sunday.
    pub open spec fn weekday_spec(self) -> int {
        self.num() % 7
    }

    /// Builds a date from its parts, or `None` where they name no date.
    pub fn from_ymd(year: i32, month: u32, day: u32) -> (r: Option<Date>)
        ensures
            r.is_some() <==> valid_ymd(year as int, month as int, day as int),
            r.is_some() ==> r.unwrap() == (Date { year, month, day }),
    {
        if year < MIN_YEAR || year > MAX_YEAR || month < 1 || month > 12 || day < 1 {
            return None;
        }
        if day > days_in_month(year, month) {
            return None;
        }
        Some(Date { year, month, day })
    }
}

pub fn is_leap_year(year: i32) -> (r: bool)
    ensures
        r == is_leap(year as int),
{
    year % 4 == 0 && (year % 100 != 0 || year % 400 == 0)
}

pub fn days_in_month(year: i32, month: u32) -> (r: u32)
    ensures
        r == month_length(year as int, month as int),
{
    if month == 2 {
        if is_leap_year(year) { 29 } else { 28 }
    } else if month == 4 || month == 6 || month == 9 || month == 11 {
        30
    } else {
        31
    }
}


/// The date one calendar month later, with the day clamped to the end of the
/// target month.
pub open spec fn next_month(d: Date) -> Date {
    let (y, m) = if d.month == 12 { (d.year + 1, 1int) } else { (d.year as int, d.month + 1) };
    let last = month_length(y, m);
    Date { year: y as i32, month: m as u32, day: if d.day <= last { d.day } else { last as u32 } }
}

/// `n` one-month steps from `d`.
pub open spec fn add_months_spec(d: Date, n: nat) -> Date
    decreases n,
{
    if n == 0 { d } else { next_month(add_months_spec(d, (n - 1) as nat)) }
}

/// The next calendar day.
pub open spec fn next_day(d: Date) -> Date {
    if d.day < month_length(d.year as int, d.month as int) {
        Date { day: (d.day + 1) as u32, ..d }
    } else if d.month < 12 {
        Date { month: (d.month + 1) as u32, day: 1, ..d }
    } else {
        Date { year: (d.year + 1) as i32, month: 1, day: 1 }
    }
}

/// `n` one-day steps from `d`.
pub open spec fn add_days_spec(d: Date, n: nat) -> Date
    decreases n,
{
    if n == 0 { d } else { next_day(add_days_spec(d, (n - 1) as nat)) }
}

/// Position of the month in a count of months from January of year 1.
pub open spec fn month_index(d: Date) -> int {
    (d.year - 1) * 12 + d.month - 1
}

/// Month index of December 9999.
pub open spec fn last_month_index() -> int {
    (MAX_YEAR - 1) * 12 + 11
}

/// Day number of 9999-12-31.
pub open spec fn last_day_num() -> int {
    days_before_year(MAX_YEAR + 1) - 1
}

proof fn lemma_year_length(y: int)
    requires
        1 <= y,
    ensures
        days_before_month(y, 13) == if is_leap(y) { 366int } else { 365int },
        days_before_year(y + 1) == days_before_year(y) + days_before_month(y, 13),
{
    assert(days_before_month(y, 13) == if is_leap(y) { 366int } else { 365int }) by {
        reveal_with_fuel(days_before_month, 13);
    }
    let a = y - 1;
    assert(y / 4 == a / 4 + if y % 4 == 0 { 1int } else { 0int });
    assert(y / 100 == a / 100 + if y % 100 == 0 { 1int } else { 0int });
    assert(y / 400 == a / 400 + if y % 400 == 0 { 1int } else { 0int });
}

pub proof fn lemma_next_month_wf(d: Date)
    requires
        d.wf(),
        month_index(d) < last_month_index(),
    ensures
        next_month(d).wf(),
        month_index(next_month(d)) == month_index(d) + 1,
{
}

pub proof fn lemma_next_day(d: Date)
    requires
        d.wf(),
        d.num() < last_day_num(),
    ensures
        next_day(d).wf(),
        next_day(d).num() == d.num() + 1,
{
    let y = d.year as int;
    let m = d.month as int;
    assert(days_before_month(y, m + 1) == days_before_month(y, m) + month_length(y, m));
    if d.day == month_length(y, m) && m == 12 {
        lemma_year_length(y);
        assert(days_before_month(y, 12) + 31 == days_before_month(y, 13));
        assert(days_before_month(y + 1, 1) == 0);
    }
}

pub proof fn lemma_add_days(d: Date, n: nat)
    requires
        d.wf(),
        d.num() + n <= last_day_num(),
    ensures
        add_days_spec(d, n).wf(),
        add_days_spec(d, n).num() == d.num() + n,
    decreases n,
{
    if n > 0 {
        lemma_add_days(d, (n - 1) as nat);
        lemma_next_day(add_days_spec(d, (n - 1) as nat));
    }
}

pub proof fn lemma_add_months(d: Date, n: nat)
    requires
        d.wf(),
        month_index(d) + n <= last_month_index(),
    ensures
        add_months_spec(d, n).wf(),
        month_index(add_months_spec(d, n)) == month_index(d) + n,
    decreases n,
{
    if n > 0 {
        lemma_add_months(d, (n - 1) as nat);
        lemma_next_month_wf(add_months_spec(d, (n - 1) as nat));
    }
}


impl Date {
    /// Days since 0001-01-01.
    pub fn day_number(&self) -> (r: i64)
        requires
            self.wf(),
        ensures
            r == self.num(),
            0 <= r <= last_day_num(),
    {
        let y = self.year as i64;
        let mut before_month: i64 = 0;
        let mut m: u32 = 1;
        while m < self.month
            invariant
                self.wf(),
                y == self.year as i64,
                1 <= m <= self.month,
                before_month == days_before_month(y as int, m as int),
                before_month <= 31 * (m - 1),
            decreases self.month - m,
        {
            before_month = before_month + days_in_month(self.year, m) as i64;
            m = m + 1;
        }
        proof {
            lemma_num_bounds(*self);
        }
        365 * (y - 1) + (y - 1) / 4 - (y - 1) / 100 + (y - 1) / 400 + before_month
            + self.day as i64 - 1
    }

    /// 0 for Monday up to 6 for Sunday.
    pub fn weekday(&self) -> (r: u32)
        requires
            self.wf(),
        ensures
            r == self.weekday_spec(),
            r < 7,
    {
        (self.day_number() % 7) as u32
    }
}

proof fn lemma_days_before_month_bounds(y: int, m: int)
    requires
        1 <= m <= 13,
    ensures
        0 <= days_before_month(y, m) <= 31 * (m - 1),
        days_before_month(y, m) + month_length(y, m) <= days_before_month(y, 13) || m == 13,
    decreases m,
{
    reveal_with_fuel(days_before_month, 13);
    if m > 1 {
        lemma_days_before_month_bounds(y, m - 1);
    }
}

proof fn lemma_days_before_year_monotone(a: int, b: int)
    requires
        1 <= a <= b,
    ensures
        days_before_year(a) <= days_before_year(b),
    decreases b - a,
{
    if a < b {
        lemma_days_before_year_monotone(a, b - 1);
        lemma_year_length(b - 1);
        lemma_days_before_month_bounds(b - 1, 13);
    }
}

pub proof fn lemma_num_bounds(d: Date)
    requires
        d.wf(),
    ensures
        0 <= d.num() <= last_day_num(),
{
    let y = d.year as int;
    lemma_days_before_month_bounds(y, d.month as int);
    lemma_year_length(y);
    lemma_days_before_year_monotone(1, y);
    lemma_days_before_year_monotone(y + 1, MAX_YEAR + 1);
}


/// The same day one month later, clamped to the end of the target month.
pub fn add_one_month(date: Date) -> (r: Date)
    requires
        date.wf(),
        month_index(date) < last_month_index(),
    ensures
        r == next_month(date),
        r.wf(),
{
    proof {
        lemma_next_month_wf(date);
    }
    let (y, m) = if date.month == 12 { (date.year + 1, 1u32) } else { (date.year, date.month + 1) };
    let last = days_in_month(y, m);
    Date { year: y, month: m, day: if date.day <= last { date.day } else { last } }
}

/// Steps forward `months` times by one month, clamping the day each time.
pub fn add_months(date: Date, months: u32) -> (r: Date)
    requires
        date.wf(),
        month_index(date) + months <= last_month_index(),
    ensures
        r == add_months_spec(date, months as nat),
        r.wf(),
        month_index(r) == month_index(date) + months,
{
    let mut due_date = date;
    let mut i: u32 = 0;
    while i < months
        invariant
            date.wf(),
            month_index(date) + months <= last_month_index(),
            i <= months,
            due_date == add_months_spec(date, i as nat),
        decreases months - i,
    {
        proof {
            lemma_add_months(date, i as nat);
        }
        due_date = add_one_month(due_date);
        i = i + 1;
    }
    proof {
        lemma_add_months(date, months as nat);
    }
    due_date
}

/// The next calendar day.
pub fn add_one_day(date: Date) -> (r: Date)
    requires
        date.wf(),
        date.num() < last_day_num(),
    ensures
        r == next_day(date),
        r.wf(),
        r.num() == date.num() + 1,
{
    proof {
        lemma_next_day(date);
    }
    if date.day < days_in_month(date.year, date.month) {
        Date { day: date.day + 1, ..date }
    } else if date.month < 12 {
        Date { month: date.month + 1, day: 1, ..date }
    } else {
        Date { year: date.year + 1, month: 1, day: 1 }
    }
}

/// Steps forward `days` times by one day; a count below one leaves the date.
pub fn add_days(date: Date, days: i64) -> (r: Date)
    requires
        date.wf(),
        date.num() + days <= last_day_num(),
    ensures
        r == add_days_spec(date, if days > 0 { days as nat } else { 0 }),
        r.wf(),
        r.num() == date.num() + if days > 0 { days as int } else { 0 },
{
    let mut due_date = date;
    let mut i: i64 = 0;
    while i < days
        invariant
            date.wf(),
            date.num() + days <= last_day_num(),
            0 <= i,
            i <= days || i == 0,
            due_date == add_days_spec(date, i as nat),
        decreases days - i,
    {
        proof {
            lemma_add_days(date, i as nat);
        }
        due_date = add_one_day(due_date);
        i = i + 1;
    }
    proof {
        lemma_num_bounds(date);
        lemma_add_days(date, i as nat);
    }
    due_date
}


/// Neither a Saturday, a Sunday nor one of the listed holidays.
pub open spec fn business_day(d: Date, holidays: Seq<Date>) -> bool {
    d.weekday_spec() < 5 && !holidays.contains(d)
}

/// How many days ahead a business day is always found: every week holds a
/// Monday, and each holiday can rule out at most one of them.
pub open spec fn search_window(holidays: Seq<Date>) -> int {
    7 * (holidays.len() + 1) as int
}

/// The first business day on or after `d`, looking at most `fuel` days ahead.
pub open spec fn first_business_from(d: Date, holidays: Seq<Date>, fuel: nat) -> Date
    decreases fuel,
{
    if fuel == 0 || business_day(d, holidays) {
        d
    } else {
        first_business_from(next_day(d), holidays, (fuel - 1) as nat)
    }
}

/// The first business day on or after `d`.
pub open spec fn next_business_day_spec(d: Date, holidays: Seq<Date>) -> Date {
    first_business_from(d, holidays, search_window(holidays) as nat)
}

/// The `n`-th business day after `d` (`d` itself for `n == 0`).
pub open spec fn business_day_after(d: Date, n: nat, holidays: Seq<Date>) -> Date
    decreases n,
{
    if n == 0 {
        d
    } else {
        next_business_day_spec(next_day(business_day_after(d, (n - 1) as nat, holidays)), holidays)
    }
}

proof fn lemma_add_days_compose(d: Date, a: nat, b: nat)
    ensures
        add_days_spec(add_days_spec(d, a), b) == add_days_spec(d, a + b),
    decreases b,
{
    if b > 0 {
        lemma_add_days_compose(d, a, (b - 1) as nat);
    }
}

/// Within the search window after `d` there is a business day.
proof fn lemma_business_day_exists(d: Date, holidays: Seq<Date>)
    requires
        d.wf(),
        d.num() + search_window(holidays) <= last_day_num(),
    ensures
        exists|k: nat| k < search_window(holidays) && business_day(add_days_spec(d, k), holidays),
    decreases holidays.len(),
{
    let r = d.num() % 7;
    let k0: nat = if r == 0 { 0 } else { (7 - r) as nat };
    lemma_add_days(d, k0);
    let monday = add_days_spec(d, k0);
    assert(monday.weekday_spec() == 0);
    if business_day(monday, holidays) {
        return;
    }
    let idx = choose|i: int| 0 <= i < holidays.len() && holidays[i] == monday;
    let rest = holidays.remove(idx);
    lemma_add_days(d, 7);
    let next_week = add_days_spec(d, 7);
    lemma_business_day_exists(next_week, rest);
    let k1 = choose|k: nat|
        k < search_window(rest) && business_day(add_days_spec(next_week, k), rest);
    lemma_add_days_compose(d, 7, k1);
    let found = add_days_spec(d, 7 + k1);
    lemma_add_days(d, 7 + k1);
    if holidays.contains(found) {
        let j = choose|j: int| 0 <= j < holidays.len() && holidays[j] == found;
        assert(j != idx);
        if j < idx {
            assert(rest[j] == found);
        } else {
            assert(rest[j - 1] == found);
        }
    }
    assert(business_day(add_days_spec(d, (7 + k1) as nat), holidays));
}

/// Once a business day lies `k` days ahead, the search stops by then.
proof fn lemma_first_business_from(d: Date, holidays: Seq<Date>, fuel: nat, k: nat)
    requires
        d.wf(),
        d.num() + fuel <= last_day_num(),
        k <= fuel,
        business_day(add_days_spec(d, k), holidays),
    ensures
        business_day(first_business_from(d, holidays, fuel), holidays),
        first_business_from(d, holidays, fuel).wf(),
        d.num() <= first_business_from(d, holidays, fuel).num() <= d.num() + k,
    decreases k,
{
    if !business_day(d, holidays) {
        assert(k > 0);
        lemma_next_day(d);
        lemma_add_days_compose(d, 1, (k - 1) as nat);
        assert(add_days_spec(d, 1) == next_day(d)) by {
            reveal_with_fuel(add_days_spec, 2);
        }
        lemma_first_business_from(next_day(d), holidays, (fuel - 1) as nat, (k - 1) as nat);
    }
}

proof fn lemma_first_business_from_ge(d: Date, holidays: Seq<Date>, fuel: nat)
    requires
        d.wf(),
        d.num() + fuel <= last_day_num(),
    ensures
        first_business_from(d, holidays, fuel).wf(),
        d.num() <= first_business_from(d, holidays, fuel).num(),
    decreases fuel,
{
    if fuel > 0 && !business_day(d, holidays) {
        lemma_next_day(d);
        lemma_first_business_from_ge(next_day(d), holidays, (fuel - 1) as nat);
    }
}

/// The first business day on or after `d` lies within the search window.
pub proof fn lemma_next_business_day(d: Date, holidays: Seq<Date>)
    requires
        d.wf(),
        d.num() + search_window(holidays) <= last_day_num(),
    ensures
        business_day(next_business_day_spec(d, holidays), holidays),
        next_business_day_spec(d, holidays).wf(),
        d.num() <= next_business_day_spec(d, holidays).num() < d.num() + search_window(holidays),
{
    lemma_business_day_exists(d, holidays);
    let k = choose|k: nat| k < search_window(holidays) && business_day(add_days_spec(d, k), holidays);
    lemma_first_business_from(d, holidays, search_window(holidays) as nat, k);
}


/// Whether `date` is a business day under the given holiday table.
pub fn is_business_day(date: Date, holidays: &Vec<Date>) -> (r: bool)
    requires
        date.wf(),
    ensures
        r == business_day(date, holidays@),
{
    if date.weekday() >= 5 {
        return false;
    }
    let mut i: usize = 0;
    while i < holidays.len()
        invariant
            i <= holidays.len(),
            forall|j: int| 0 <= j < i ==> holidays@[j] != date,
        decreases holidays.len() - i,
    {
        if holidays[i] == date {
            assert(holidays@.contains(date));
            return false;
        }
        i = i + 1;
    }
    true
}

/// `date` itself if it is a business day, else the first business day after it.
pub fn get_next_business_day(date: Date, holidays: &Vec<Date>) -> (r: Date)
    requires
        date.wf(),
        date.num() + search_window(holidays@) <= last_day_num(),
    ensures
        r == next_business_day_spec(date, holidays@),
        r.wf(),
        business_day(r, holidays@),
        date.num() <= r.num() < date.num() + search_window(holidays@),
{
    proof {
        lemma_next_business_day(date, holidays@);
    }
    let ghost window = search_window(holidays@) as nat;
    let mut cur = date;
    let ghost mut fuel: nat = window;
    while !is_business_day(cur, holidays)
        invariant
            cur.wf(),
            cur.num() + fuel <= last_day_num(),
            first_business_from(cur, holidays@, fuel) == next_business_day_spec(date, holidays@),
            business_day(next_business_day_spec(date, holidays@), holidays@),
            date.num() <= cur.num() <= next_business_day_spec(date, holidays@).num(),
            next_business_day_spec(date, holidays@).num() < date.num() + window,
            cur.num() - date.num() + fuel == window,
        decreases fuel,
    {
        assert(fuel > 0) by {
            if fuel == 0 {
                assert(first_business_from(cur, holidays@, fuel) == cur);
            }
        }
        cur = add_one_day(cur);
        proof {
            fuel = (fuel - 1) as nat;
            lemma_first_business_from_ge(cur, holidays@, fuel);
        }
    }
    assert(first_business_from(cur, holidays@, fuel) == cur);
    cur
}

/// The first business day on which money can be disbursed: the day after
/// `base_date` when that is `today`, else `base_date`, moved forward to a
/// business day.
pub fn next_disbursement_date(base_date: Date, today: Date, holidays: &Vec<Date>) -> (r: Date)
    requires
        base_date.wf(),
        base_date.num() + 1 + search_window(holidays@) <= last_day_num(),
    ensures
        r == next_business_day_spec(
            if base_date == today { next_day(base_date) } else { base_date },
            holidays@,
        ),
        r.wf(),
        business_day(r, holidays@),
        base_date.num() <= r.num() <= base_date.num() + search_window(holidays@),
{
    let start = if base_date == today { add_one_day(base_date) } else { base_date };
    get_next_business_day(start, holidays)
}

proof fn lemma_business_day_after_bound(d: Date, n: nat, holidays: Seq<Date>)
    requires
        d.wf(),
        d.num() + (search_window(holidays) + 1) * n <= last_day_num(),
    ensures
        business_day_after(d, n, holidays).wf(),
        d.num() <= business_day_after(d, n, holidays).num() <= d.num() + (search_window(holidays) + 1) * n,
    decreases n,
{
    if n > 0 {
        let w = search_window(holidays);
        assert((w + 1) * n == (w + 1) * (n - 1) + w + 1) by (nonlinear_arith);
        assert(w >= 0);
        lemma_business_day_after_bound(d, (n - 1) as nat, holidays);
        let prev = business_day_after(d, (n - 1) as nat, holidays);
        lemma_next_day(prev);
        lemma_next_business_day(next_day(prev), holidays);
    }
}

/// The first disbursement date after `base_date`, and the business day that
/// closes a window of `days` business days starting there.
pub fn disbursement_date_range(base_date: Date, days: u32, today: Date, holidays: &Vec<Date>) -> (r: (
    Date,
    Date,
))
    requires
        base_date.wf(),
        base_date.num() + 1 + (search_window(holidays@) + 1) * (days + 1) <= last_day_num(),
    ensures
        r.0 == next_business_day_spec(
            if base_date == today { next_day(base_date) } else { base_date },
            holidays@,
        ),
        r.1 == business_day_after(r.0, if days > 1 { (days - 1) as nat } else { 0 }, holidays@),
{
    let ghost w = search_window(holidays@);
    assert((w + 1) * (days + 1) == (w + 1) * days + w + 1) by (nonlinear_arith);
    let start_date = next_disbursement_date(base_date, today, holidays);
    proof {
        assert((w + 1) * days >= (w + 1) * (days - 1)) by (nonlinear_arith)
            requires days >= 1 || days == 0, w >= 0;
    }
    let mut end_date = start_date;
    let mut i: u32 = 1;
    while i < days
        invariant
            start_date.wf(),
            start_date.num() + (w + 1) * days <= last_day_num(),
            w == search_window(holidays@),
            1 <= i,
            i <= days || i == 1,
            end_date == business_day_after(start_date, (i - 1) as nat, holidays@),
        decreases days - i,
    {
        proof {
            assert((w + 1) * (i - 1) <= (w + 1) * days) by (nonlinear_arith)
                requires i - 1 <= days, w >= 0;
            assert((w + 1) * i <= (w + 1) * days) by (nonlinear_arith)
                requires i < days, w >= 0;
            assert((w + 1) * i == (w + 1) * (i - 1) + w + 1) by (nonlinear_arith);
            lemma_business_day_after_bound(start_date, (i - 1) as nat, holidays@);
            lemma_next_day(end_date);
            lemma_next_business_day(next_day(end_date), holidays@);
        }
        end_date = get_next_business_day(add_one_day(end_date), holidays);
        i = i + 1;
    }
    (start_date, end_date)
}


/// The days that are not business days among the `n` days that start at `d`,
/// in calendar order.
pub open spec fn non_business_run(d: Date, n: nat, holidays: Seq<Date>) -> Seq<Date>
    decreases n,
{
    if n == 0 {
        seq![]
    } else {
        let prefix = non_business_run(d, (n - 1) as nat, holidays);
        let last = add_days_spec(d, (n - 1) as nat);
        if business_day(last, holidays) { prefix } else { prefix.push(last) }
    }
}

/// Number of days from `start` to `end`, both included; zero when `end` comes
/// first.
pub open spec fn inclusive_span(start: Date, end: Date) -> nat {
    if end.num() >= start.num() { (end.num() - start.num() + 1) as nat } else { 0 }
}

/// The non-business days from `start_date` to `end_date`, both included.
pub fn get_non_business_days_between(start_date: Date, end_date: Date, holidays: &Vec<Date>) -> (r:
    Vec<Date>)
    requires
        start_date.wf(),
        end_date.wf(),
    ensures
        r@ == non_business_run(start_date, inclusive_span(start_date, end_date), holidays@),
{
    let first = start_date.day_number();
    let last = end_date.day_number();
    let mut result: Vec<Date> = Vec::new();
    if last < first {
        return result;
    }
    let n: i64 = last - first + 1;
    let mut cur = start_date;
    let mut i: i64 = 0;
    while i < n
        invariant
            start_date.wf(),
            n == inclusive_span(start_date, end_date),
            start_date.num() + n - 1 <= last_day_num(),
            0 <= i <= n,
            i < n ==> cur == add_days_spec(start_date, i as nat),
            result@ == non_business_run(start_date, i as nat, holidays@),
        decreases n - i,
    {
        proof {
            lemma_add_days(start_date, i as nat);
        }
        if !is_business_day(cur, holidays) {
            result.push(cur);
        }
        if i + 1 < n {
            proof {
                lemma_add_days(start_date, (i + 1) as nat);
            }
            cur = add_one_day(cur);
        }
        i = i + 1;
    }
    result
}


/// How many business days there are among the `n` days that start at `d`.
pub open spec fn business_count(d: Date, n: nat, holidays: Seq<Date>) -> int
    decreases n,
{
    if n == 0 {
        0
    } else {
        business_count(d, (n - 1) as nat, holidays) + if business_day(
            add_days_spec(d, (n - 1) as nat),
            holidays,
        ) {
            1int
        } else {
            0int
        }
    }
}

/// Business days strictly between `a` and `b`, negated when `b` comes first.
pub open spec fn business_days_between(a: Date, b: Date, holidays: Seq<Date>) -> int {
    if b.num() > a.num() + 1 {
        business_count(next_day(a), (b.num() - a.num() - 1) as nat, holidays)
    } else if a.num() > b.num() + 1 {
        -business_count(next_day(b), (a.num() - b.num() - 1) as nat, holidays)
    } else {
        0
    }
}

pub proof fn lemma_business_count_bounds(d: Date, n: nat, holidays: Seq<Date>)
    ensures
        0 <= business_count(d, n, holidays) <= n,
    decreases n,
{
    if n > 0 {
        lemma_business_count_bounds(d, (n - 1) as nat, holidays);
    }
}

/// Business days among the `n` days from `d` on.
fn count_business_days(d: Date, n: i64, holidays: &Vec<Date>) -> (r: i64)
    requires
        d.wf(),
        0 <= n,
        d.num() + n <= last_day_num(),
    ensures
        r == business_count(d, n as nat, holidays@),
{
    let mut count: i64 = 0;
    let mut cur = d;
    let mut i: i64 = 0;
    while i < n
        invariant
            d.wf(),
            d.num() + n <= last_day_num(),
            0 <= i <= n,
            cur == add_days_spec(d, i as nat),
            count == business_count(d, i as nat, holidays@),
        decreases n - i,
    {
        proof {
            lemma_add_days(d, i as nat);
            lemma_business_count_bounds(d, i as nat, holidays@);
        }
        if is_business_day(cur, holidays) {
            count = count + 1;
        }
        cur = add_one_day(cur);
        i = i + 1;
    }
    count
}

/// Business days strictly between `a` and `b`; negative when `b` comes first.
pub fn diff_in_business_days(a: Date, b: Date, holidays: &Vec<Date>) -> (r: i64)
    requires
        a.wf(),
        b.wf(),
    ensures
        r == business_days_between(a, b, holidays@),
{
    let na = a.day_number();
    let nb = b.day_number();
    if nb > na + 1 {
        proof {
            lemma_next_day(a);
        }
        count_business_days(add_one_day(a), nb - na - 1, holidays)
    } else if na > nb + 1 {
        proof {
            lemma_next_day(b);
            lemma_business_count_bounds(next_day(b), (na - nb - 1) as nat, holidays@);
        }
        -count_business_days(add_one_day(b), na - nb - 1, holidays)
    } else {
        0
    }
}


/// A date `k` years before the end of the calendar leaves at least `365 * k`
/// days of room.
pub proof fn lemma_room_after(d: Date, k: nat)
    requires
        d.wf(),
        month_index(d) + 12 * k <= last_month_index(),
    ensures
        d.num() + 365 * k <= last_day_num(),
{
    let y = d.year as int;
    assert(y + k <= MAX_YEAR);
    lemma_days_before_month_bounds(y, d.month as int);
    lemma_year_length(y);
    lemma_years_length_at_least(y + 1, MAX_YEAR + 1);
}

proof fn lemma_years_length_at_least(a: int, b: int)
    requires
        1 <= a <= b,
    ensures
        days_before_year(b) >= days_before_year(a) + 365 * (b - a),
    decreases b - a,
{
    if a < b {
        lemma_years_length_at_least(a, b - 1);
        lemma_year_length(b - 1);
        lemma_days_before_month_bounds(b - 1, 13);
        reveal_with_fuel(days_before_month, 13);
    }
}

} // verus!
