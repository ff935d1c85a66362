//! The dates of an installment schedule: due dates, and the calendar and
//! business days that accrue between them.

use vstd::prelude::*;
use crate::calendar::{
    add_months_spec, add_one_month, business_count, business_days_between, diff_in_business_days,
    get_next_business_day, last_day_num, last_month_index, lemma_add_months,
    lemma_business_count_bounds, lemma_next_business_day,
    lemma_num_bounds, lemma_room_after, month_index, next_business_day_spec, next_day,
    search_window, Date,
};

verus! {

/// Due date of installment `i` (from 0): `i` one-month steps from the first
/// payment date, moved to the next business day in business-day mode.
pub open spec fn due_date_at(first_payment: Date, i: nat, business_days_only: bool, holidays: Seq<
    Date,
>) -> Date {
    if business_days_only {
        next_business_day_spec(add_months_spec(first_payment, i), holidays)
    } else {
        add_months_spec(first_payment, i)
    }
}

/// The date from which installment `i` accrues: the disbursement for the
/// first one, the previous due date after that.
pub open spec fn anchor_at(
    disbursement: Date,
    first_payment: Date,
    i: nat,
    business_days_only: bool,
    holidays: Seq<Date>,
) -> Date {
    if i == 0 {
        disbursement
    } else {
        due_date_at(first_payment, (i - 1) as nat, business_days_only, holidays)
    }
}

/// Sum of the first `k` values.
pub open spec fn prefix_sum(s: Seq<i64>, k: nat) -> int
    decreases k,
{
    if k == 0 || k > s.len() { 0 } else { prefix_sum(s, (k - 1) as nat) + s[k - 1] }
}

/// The dates and day counts of each installment of a schedule.
pub struct DueDateSchedule {
    pub due_dates: Vec<Date>,
    /// Calendar days from each installment's anchor to its due date.
    pub diffs: Vec<i64>,
    /// Calendar days from the disbursement to each due date.
    pub accumulated_days: Vec<i64>,
    /// Business days strictly between anchor and due date in business-day
    /// mode; the calendar days otherwise.
    pub business_diffs: Vec<i64>,
    /// Running sums of `business_diffs`.
    pub accumulated_business_days: Vec<i64>,
}

/// The room the schedule needs before the end of the calendar: its months and
/// enough whole years to look for a business day after the last one.
pub open spec fn schedule_fits(first_payment: Date, installments: nat, holidays: Seq<Date>) -> bool {
    month_index(first_payment) + installments + 12 * (search_window(holidays) / 365 + 1)
        <= last_month_index()
}

impl DueDateSchedule {
    /// What the schedule holds for the given contract dates.
    pub open spec fn describes(
        &self,
        disbursement: Date,
        first_payment: Date,
        installments: nat,
        business_days_only: bool,
        holidays: Seq<Date>,
    ) -> bool {
        &&& self.due_dates@.len() == installments
        &&& self.diffs@.len() == installments
        &&& self.accumulated_days@.len() == installments
        &&& self.business_diffs@.len() == installments
        &&& self.accumulated_business_days@.len() == installments
        &&& forall|i: int|
            #![trigger self.due_dates@[i]]
            0 <= i < installments ==> {
                let due = due_date_at(first_payment, i as nat, business_days_only, holidays);
                let anchor = anchor_at(
                    disbursement,
                    first_payment,
                    i as nat,
                    business_days_only,
                    holidays,
                );
                &&& self.due_dates@[i] == due
                &&& self.diffs@[i] == due.num() - anchor.num()
                &&& self.accumulated_days@[i] == due.num() - disbursement.num()
                &&& self.business_diffs@[i] == if business_days_only {
                    business_days_between(anchor, due, holidays)
                } else {
                    due.num() - anchor.num()
                }
                &&& self.accumulated_business_days@[i] == prefix_sum(
                    self.business_diffs@,
                    (i + 1) as nat,
                )
            }
    }
}

proof fn lemma_due_date(first_payment: Date, i: nat, installments: nat, business_days_only: bool, holidays: Seq<Date>)
    requires
        first_payment.wf(),
        i < installments,
        schedule_fits(first_payment, installments, holidays),
    ensures
        due_date_at(first_payment, i, business_days_only, holidays).wf(),
        0 <= due_date_at(first_payment, i, business_days_only, holidays).num() <= last_day_num(),
        add_months_spec(first_payment, i).num() + search_window(holidays) <= last_day_num(),
{
    let w = search_window(holidays);
    lemma_add_months(first_payment, i);
    let d = add_months_spec(first_payment, i);
    lemma_room_after(d, (w / 365 + 1) as nat);
    if business_days_only {
        lemma_next_business_day(d, holidays);
    }
    lemma_num_bounds(due_date_at(first_payment, i, business_days_only, holidays));
}

proof fn lemma_business_days_between_bound(a: Date, b: Date, holidays: Seq<Date>)
    requires
        a.wf(),
        b.wf(),
    ensures
        -4_000_000 <= business_days_between(a, b, holidays) <= 4_000_000,
{
    lemma_num_bounds(a);
    lemma_num_bounds(b);
    if b.num() > a.num() + 1 {
        lemma_business_count_bounds(next_day(a), (b.num() - a.num() - 1) as nat, holidays);
    } else if a.num() > b.num() + 1 {
        lemma_business_count_bounds(next_day(b), (a.num() - b.num() - 1) as nat, holidays);
    }
}

/// Builds the due dates and day counts of a schedule of `installments`
/// installments.
pub fn due_date_schedule(
    disbursement: Date,
    first_payment: Date,
    installments: u32,
    business_days_only: bool,
    holidays: &Vec<Date>,
) -> (r: DueDateSchedule)
    requires
        disbursement.wf(),
        first_payment.wf(),
        schedule_fits(first_payment, installments as nat, holidays@),
    ensures
        r.describes(disbursement, first_payment, installments as nat, business_days_only, holidays@),
{
    let mut due_dates: Vec<Date> = Vec::new();
    let mut diffs: Vec<i64> = Vec::new();
    let mut accumulated_days: Vec<i64> = Vec::new();
    let mut business_diffs: Vec<i64> = Vec::new();
    let mut accumulated_business_days: Vec<i64> = Vec::new();
    let mut last_due_date = disbursement;
    let mut month_start = first_payment;
    let mut accumulated_business: i64 = 0;
    let ghost h = holidays@;
    let start = disbursement.day_number();
    let mut i: u32 = 0;
    while i < installments
        invariant
            disbursement.wf(),
            first_payment.wf(),
            h == holidays@,
            start == disbursement.num(),
            schedule_fits(first_payment, installments as nat, h),
            i <= installments,
            i < installments ==> month_start == add_months_spec(first_payment, i as nat),
            last_due_date == anchor_at(disbursement, first_payment, i as nat, business_days_only, h),
            last_due_date.wf(),
            -4_000_000 * i <= accumulated_business <= 4_000_000 * i,
            accumulated_business == prefix_sum(business_diffs@, i as nat),
            due_dates@.len() == i,
            diffs@.len() == i,
            accumulated_days@.len() == i,
            business_diffs@.len() == i,
            accumulated_business_days@.len() == i,
            forall|k: int|
                #![trigger due_dates@[k]]
                0 <= k < i ==> {
                    let due = due_date_at(first_payment, k as nat, business_days_only, h);
                    let anchor = anchor_at(disbursement, first_payment, k as nat, business_days_only, h);
                    &&& due_dates@[k] == due
                    &&& diffs@[k] == due.num() - anchor.num()
                    &&& accumulated_days@[k] == due.num() - disbursement.num()
                    &&& business_diffs@[k] == if business_days_only {
                        business_days_between(anchor, due, h)
                    } else {
                        due.num() - anchor.num()
                    }
                    &&& accumulated_business_days@[k] == prefix_sum(business_diffs@, (k + 1) as nat)
                },
        decreases installments - i,
    {
        proof {
            lemma_due_date(first_payment, i as nat, installments as nat, business_days_only, h);
            lemma_add_months(first_payment, i as nat);
            lemma_num_bounds(disbursement);
        }
        let due_date = if business_days_only {
            get_next_business_day(month_start, holidays)
        } else {
            month_start
        };
        let due_num = due_date.day_number();
        let diff = due_num - last_due_date.day_number();
        let business_diff = if business_days_only {
            proof {
                lemma_business_days_between_bound(last_due_date, due_date, h);
            }
            diff_in_business_days(last_due_date, due_date, holidays)
        } else {
            diff
        };
        accumulated_business = accumulated_business + business_diff;
        let ghost old_business_diffs = business_diffs@;
        due_dates.push(due_date);
        diffs.push(diff);
        accumulated_days.push(due_num - start);
        business_diffs.push(business_diff);
        accumulated_business_days.push(accumulated_business);
        proof {
            assert(business_diffs@.subrange(0, i as int) == old_business_diffs);
            lemma_prefix_sum_push(old_business_diffs, business_diff);
            assert forall|k: int| 0 <= k < i implies #[trigger] prefix_sum(business_diffs@, (k + 1) as nat)
                == prefix_sum(old_business_diffs, (k + 1) as nat) by {
                lemma_prefix_sum_prefix(old_business_diffs, business_diff, (k + 1) as nat);
            }
        }
        last_due_date = due_date;
        if i + 1 < installments {
            proof {
                lemma_add_months(first_payment, (i + 1) as nat);
            }
            month_start = add_one_month(month_start);
        }
        i = i + 1;
    }
    DueDateSchedule { due_dates, diffs, accumulated_days, business_diffs, accumulated_business_days }
}

proof fn lemma_prefix_sum_push(s: Seq<i64>, x: i64)
    ensures
        prefix_sum(s.push(x), (s.len() + 1) as nat) == prefix_sum(s, s.len()) + x,
{
    lemma_prefix_sum_prefix(s, x, s.len());
}

proof fn lemma_prefix_sum_prefix(s: Seq<i64>, x: i64, k: nat)
    requires
        k <= s.len(),
    ensures
        prefix_sum(s.push(x), k) == prefix_sum(s, k),
    decreases k,
{
    if k > 0 {
        lemma_prefix_sum_prefix(s, x, (k - 1) as nat);
    }
}

} // verus!
