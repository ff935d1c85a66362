//! The rules of the installment-count sweep and of the down-payment
//! pre-schedule: which requests are refused, where a sweep stops, and the
//! dates on which each down-payment branch starts its main contract.

use vstd::prelude::*;
use crate::calendar::{
    add_days, add_days_spec, add_months, add_months_spec, last_day_num, last_month_index,
    lemma_add_days, lemma_add_months, lemma_next_business_day, lemma_room_after, month_index,
    get_next_business_day, next_business_day_spec, search_window, Date,
};

verus! {

/// Passes of the fixed-point loop that settles the installment amount and
/// the tax it carries; a fixed budget, not a tolerance.
pub const CONVERGENCE_PASSES: u32 = 7;

/// The closed-form strategy, which settles the tax in one pass.
#[derive(Clone, Copy, Debug, PartialEq, Eq, Structural)]
pub struct BMP;

/// The strategy that runs the fixed-point loop for `CONVERGENCE_PASSES`
/// passes.
#[derive(Clone, Copy, Debug, PartialEq, Eq, Structural)]
pub struct Iterative;

/// The fixed-point strategy of the QiTech tables, which rounds the tax
/// steps differently from `Iterative`.
#[derive(Clone, Copy, Debug, PartialEq, Eq, Structural)]
pub struct QiTech;

/// Why a plan could not be computed.
#[derive(Clone, Copy, Debug, PartialEq, Eq, Structural)]
pub enum PaymentPlanError {
    /// The rate solver found no rate for the cash flows.
    CalculationError,
    /// The requested number of installments is zero.
    InvalidNumberOfInstallments,
    /// The requested amount is not above zero.
    InvalidRequestedAmount,
    /// A solved rate turned out not to be a number.
    XirCalculationError,
}

/// Refuses a request before any computation: first on its amount, then on
/// its installment count.
pub fn validate_request(amount_at_most_zero: bool, installments: u32) -> (r: Result<
    (),
    PaymentPlanError,
>)
    ensures
        amount_at_most_zero ==> r == Err::<(), _>(PaymentPlanError::InvalidRequestedAmount),
        !amount_at_most_zero && installments == 0 ==> r == Err::<(), _>(
            PaymentPlanError::InvalidNumberOfInstallments,
        ),
        !amount_at_most_zero && installments > 0 ==> r is Ok,
{
    if amount_at_most_zero {
        return Err(PaymentPlanError::InvalidRequestedAmount);
    }
    if installments == 0 {
        return Err(PaymentPlanError::InvalidNumberOfInstallments);
    }
    Ok(())
}

/// Whether the entry for installment count `count` (from 1) is kept: one
/// under the minimum installment is kept only as the first entry, and one over
/// the maximum total never.
pub open spec fn kept(count: int, below_floor: bool, above_ceiling: bool) -> bool {
    !(below_floor && count != 1) && !above_ceiling
}

/// The sweep's stop rule for one installment count.
pub fn keep_entry(count: u32, below_floor: bool, above_ceiling: bool) -> (r: bool)
    ensures
        r == kept(count as int, below_floor, above_ceiling),
{
    !(below_floor && count != 1) && !above_ceiling
}

/// How many entries a sweep emits, given for each count (index 0 for count 1)
/// whether its installment is under the floor and whether its total is over
/// the ceiling: the entries before the first one that is not kept.
pub open spec fn sweep_length(below_floor: Seq<bool>, above_ceiling: Seq<bool>) -> nat
    decreases below_floor.len(),
{
    if below_floor.len() == 0 {
        0
    } else {
        let n = (below_floor.len() - 1) as nat;
        let shorter = sweep_length(below_floor.take(n as int), above_ceiling);
        if shorter == n && n < above_ceiling.len() && kept(n + 1 as int, below_floor[n as int], above_ceiling[n as int]) {
            (n + 1) as nat
        } else {
            shorter
        }
    }
}

/// The number of entries the sweep keeps: counts are taken in order and the
/// first one that is not kept ends the sweep.
pub fn kept_count(below_floor: &Vec<bool>, above_ceiling: &Vec<bool>) -> (r: usize)
    requires
        below_floor.len() == above_ceiling.len(),
    ensures
        r == sweep_length(below_floor@, above_ceiling@),
        r <= below_floor.len(),
        forall|k: int| 0 <= k < r ==> kept(k + 1, below_floor@[k], above_ceiling@[k]),
        r < below_floor.len() ==> !kept(r + 1, below_floor@[r as int], above_ceiling@[r as int]),
{
    let n = below_floor.len();
    let mut i: usize = 0;
    while i < n
        invariant
            n == below_floor.len() == above_ceiling.len(),
            i <= n,
            forall|k: int| 0 <= k < i ==> kept(k + 1, below_floor@[k], above_ceiling@[k]),
            sweep_length(below_floor@.take(i as int), above_ceiling@) == i,
        decreases n - i,
    {
        proof {
            lemma_sweep_length_take(below_floor@, above_ceiling@, i as nat);
        }
        if (below_floor[i] && i != 0) || above_ceiling[i] {
            proof {
                lemma_sweep_length_stops(below_floor@, above_ceiling@, i as nat, n as nat);
                assert(below_floor@.take(n as int) == below_floor@);
            }
            return i;
        }
        i = i + 1;
    }
    assert(below_floor@.take(n as int) == below_floor@);
    i
}

proof fn lemma_sweep_length_take(b: Seq<bool>, c: Seq<bool>, i: nat)
    requires
        i < b.len(),
        b.len() == c.len(),
    ensures
        sweep_length(b.take(i + 1 as int), c) == if sweep_length(b.take(i as int), c) == i && kept(
            i + 1 as int,
            b[i as int],
            c[i as int],
        ) {
            (i + 1) as nat
        } else {
            sweep_length(b.take(i as int), c)
        },
{
    assert(b.take(i + 1 as int).take(i as int) == b.take(i as int));
}

/// Once count `i + 1` is refused, longer prefixes keep the same length.
proof fn lemma_sweep_length_stops(b: Seq<bool>, c: Seq<bool>, i: nat, m: nat)
    requires
        i < m <= b.len(),
        b.len() == c.len(),
        sweep_length(b.take(i as int), c) == i,
        !kept(i + 1 as int, b[i as int], c[i as int]),
    ensures
        sweep_length(b.take(m as int), c) == i,
    decreases m - i,
{
    if m == i + 1 {
        lemma_sweep_length_take(b, c, i);
    } else {
        lemma_sweep_length_stops(b, c, i, (m - 1) as nat);
        lemma_sweep_length_take(b, c, (m - 1) as nat);
    }
}


/// The sweep keeps a run of consecutive counts from 1: never more than were
/// requested, each kept count passes both limits, and the count after the
/// last kept one, if any was requested, fails one of them.
pub proof fn lemma_sweep_is_prefix(below_floor: Seq<bool>, above_ceiling: Seq<bool>)
    requires
        below_floor.len() == above_ceiling.len(),
    ensures
        sweep_length(below_floor, above_ceiling) <= below_floor.len(),
        forall|k: int|
            0 <= k < sweep_length(below_floor, above_ceiling) ==> kept(
                k + 1,
                below_floor[k],
                above_ceiling[k],
            ),
        sweep_length(below_floor, above_ceiling) < below_floor.len() ==> !kept(
            sweep_length(below_floor, above_ceiling) + 1 as int,
            below_floor[sweep_length(below_floor, above_ceiling) as int],
            above_ceiling[sweep_length(below_floor, above_ceiling) as int],
        ),
    decreases below_floor.len(),
{
    let n = below_floor.len();
    if n > 0 {
        let b = below_floor.take(n - 1);
        let c = above_ceiling.take(n - 1);
        lemma_sweep_length_ignores_tail(b, above_ceiling, c);
        lemma_sweep_is_prefix(b, c);
        let len = sweep_length(below_floor, above_ceiling);
        let shorter = sweep_length(b, c);
        assert forall|k: int| 0 <= k < len implies kept(k + 1, below_floor[k], above_ceiling[k]) by {
            if k < shorter {
                assert(b[k] == below_floor[k] && c[k] == above_ceiling[k]);
            }
        }
        if len < n && len < shorter {
            assert(b[len as int] == below_floor[len as int]);
        }
    }
}

proof fn lemma_sweep_length_ignores_tail(b: Seq<bool>, c: Seq<bool>, c2: Seq<bool>)
    requires
        b.len() <= c.len(),
        b.len() <= c2.len(),
        forall|i: int| 0 <= i < b.len() ==> c[i] == c2[i],
    ensures
        sweep_length(b, c) == sweep_length(b, c2),
    decreases b.len(),
{
    let n = b.len();
    if n > 0 {
        lemma_sweep_length_ignores_tail(b.take(n - 1), c, c2);
    }
}

/// With no count under the floor and none over the ceiling, every requested
/// count is kept.
pub proof fn lemma_sweep_without_limits_keeps_all(below_floor: Seq<bool>, above_ceiling: Seq<bool>)
    requires
        below_floor.len() == above_ceiling.len(),
        forall|k: int| 0 <= k < below_floor.len() ==> !below_floor[k] && !above_ceiling[k],
    ensures
        sweep_length(below_floor, above_ceiling) == below_floor.len(),
{
    lemma_sweep_is_prefix(below_floor, above_ceiling);
}

/// When every count after the first is under the floor and the first is not
/// over the ceiling, the sweep keeps exactly the first count.
pub proof fn lemma_sweep_keeps_first_under_floor(below_floor: Seq<bool>, above_ceiling: Seq<bool>)
    requires
        below_floor.len() == above_ceiling.len(),
        below_floor.len() >= 1,
        !above_ceiling[0],
        forall|k: int| 1 <= k < below_floor.len() ==> below_floor[k],
    ensures
        sweep_length(below_floor, above_ceiling) == 1,
{
    lemma_sweep_is_prefix(below_floor, above_ceiling);
    assert(kept(1, below_floor[0], above_ceiling[0]));
    let len = sweep_length(below_floor, above_ceiling);
    if len > 1 {
        assert(kept(2, below_floor[1], above_ceiling[1]));
    }
}

/// A down-payment schedule has no ceiling: it keeps counts `1..k` when `k + 1`
/// is the first count after the first whose installment falls under the floor.
pub proof fn lemma_down_payment_stops_at_floor(below_floor: Seq<bool>, no_ceiling: Seq<bool>, k: nat)
    requires
        below_floor.len() == no_ceiling.len(),
        forall|j: int| 0 <= j < no_ceiling.len() ==> !no_ceiling[j],
        1 <= k < below_floor.len(),
        below_floor[k as int],
        forall|j: int| 1 <= j < k ==> !below_floor[j],
    ensures
        sweep_length(below_floor, no_ceiling) == k,
{
    lemma_sweep_is_prefix(below_floor, no_ceiling);
    let len = sweep_length(below_floor, no_ceiling);
    if len < k {
        assert(kept(len + 1 as int, below_floor[len as int], no_ceiling[len as int]));
    }
    if len > k {
        assert(kept(k + 1 as int, below_floor[k as int], no_ceiling[k as int]));
    }
}


/// Calendar days between a down payment's first due date and the start of
/// the main contract: five days to pay, and the contract starts a day later.
pub const DOWN_PAYMENT_START_OFFSET_DAYS: i64 = 6;

/// The dates of the main contract that follows a down payment of `i + 1`
/// installments: it starts `i` months after the first start date, and its
/// first payment falls `i + 1` months after the down payment's first one.
pub struct BranchDates {
    pub requested_date: Date,
    pub first_payment_date: Date,
}

/// Room before the end of the calendar for every branch of a down payment.
pub open spec fn down_payment_fits(first_payment_date: Date, installments: nat) -> bool {
    &&& first_payment_date.num() + DOWN_PAYMENT_START_OFFSET_DAYS <= last_day_num()
    &&& month_index(add_days_spec(first_payment_date, DOWN_PAYMENT_START_OFFSET_DAYS as nat))
        + installments <= last_month_index()
    &&& month_index(first_payment_date) + installments + 1 <= last_month_index()
}

/// The main-contract dates of each down-payment branch, for down payments of
/// `1..=installments` installments.
pub fn down_payment_branch_dates(first_payment_date: Date, installments: u32) -> (r: Vec<BranchDates>)
    requires
        first_payment_date.wf(),
        down_payment_fits(first_payment_date, installments as nat),
    ensures
        r@.len() == installments,
        forall|i: int|
            #![trigger r@[i]]
            0 <= i < installments ==> r@[i].requested_date == add_months_spec(
                add_days_spec(first_payment_date, DOWN_PAYMENT_START_OFFSET_DAYS as nat),
                i as nat,
            ) && r@[i].first_payment_date == add_months_spec(first_payment_date, (i + 1) as nat),
{
    let ghost start = add_days_spec(first_payment_date, DOWN_PAYMENT_START_OFFSET_DAYS as nat);
    let mut contract_start_date = add_days(first_payment_date, DOWN_PAYMENT_START_OFFSET_DAYS);
    proof {
        lemma_add_months(first_payment_date, 1);
    }
    let mut contract_first_payment_date = add_months(first_payment_date, 1);
    let mut result: Vec<BranchDates> = Vec::new();
    let mut i: u32 = 0;
    while i < installments
        invariant
            first_payment_date.wf(),
            down_payment_fits(first_payment_date, installments as nat),
            start == add_days_spec(first_payment_date, DOWN_PAYMENT_START_OFFSET_DAYS as nat),
            start.wf(),
            i <= installments,
            i < installments ==> contract_start_date == add_months_spec(start, i as nat),
            i < installments ==> contract_first_payment_date == add_months_spec(first_payment_date, (i + 1) as nat),
            result@.len() == i,
            forall|k: int|
                #![trigger result@[k]]
                0 <= k < i ==> result@[k].requested_date == add_months_spec(start, k as nat)
                    && result@[k].first_payment_date == add_months_spec(first_payment_date, (k + 1) as nat),
        decreases installments - i,
    {
        result.push(BranchDates {
            requested_date: contract_start_date,
            first_payment_date: contract_first_payment_date,
        });
        if i + 1 < installments {
            proof {
                lemma_add_months(start, i as nat);
                lemma_add_months(first_payment_date, (i + 1) as nat);
            }
            contract_start_date = add_months(contract_start_date, 1);
            contract_first_payment_date = add_months(contract_first_payment_date, 1);
            proof {
                reveal_with_fuel(add_months_spec, 2);
            }
        }
        i = i + 1;
    }
    result
}

/// In business-day mode both contract anchors move to the next business day;
/// otherwise they stay. Returns the disbursement date, then the first payment
/// date.
pub fn contract_anchors(
    disbursement_date: Date,
    first_payment_date: Date,
    business_days_only: bool,
    holidays: &Vec<Date>,
) -> (r: (Date, Date))
    requires
        disbursement_date.wf(),
        first_payment_date.wf(),
        disbursement_date.num() + search_window(holidays@) <= last_day_num(),
        first_payment_date.num() + search_window(holidays@) <= last_day_num(),
    ensures
        business_days_only ==> r == (
            next_business_day_spec(disbursement_date, holidays@),
            next_business_day_spec(first_payment_date, holidays@),
        ),
        !business_days_only ==> r == (disbursement_date, first_payment_date),
        r.0.wf(),
        r.1.wf(),
{
    if business_days_only {
        (get_next_business_day(disbursement_date, holidays), get_next_business_day(first_payment_date, holidays))
    } else {
        (disbursement_date, first_payment_date)
    }
}

} // verus!
