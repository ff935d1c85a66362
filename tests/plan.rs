use payment_plan::calendar::Date;
use payment_plan::command::{Args, CalcType};
use payment_plan::plan::{
    contract_anchors, down_payment_branch_dates, keep_entry, kept_count, validate_request,
    PaymentPlanError, CONVERGENCE_PASSES,
};

fn d(y: i32, m: u32, day: u32) -> Date {
    Date::from_ymd(y, m, day).unwrap()
}

#[test]
fn non_positive_amount_is_refused_first() {
    assert_eq!(validate_request(true, 6), Err(PaymentPlanError::InvalidRequestedAmount));
    assert_eq!(validate_request(true, 0), Err(PaymentPlanError::InvalidRequestedAmount));
}

#[test]
fn zero_installments_are_refused() {
    assert_eq!(validate_request(false, 0), Err(PaymentPlanError::InvalidNumberOfInstallments));
    assert_eq!(validate_request(false, 1), Ok(()));
}

#[test]
fn first_entry_is_kept_under_the_floor() {
    assert!(keep_entry(1, true, false));
    assert!(!keep_entry(2, true, false));
    assert!(!keep_entry(1, false, true));
    assert!(keep_entry(5, false, false));
}

#[test]
fn sweep_without_limits_keeps_every_count() {
    let none = vec![false; 6];
    assert_eq!(kept_count(&none, &none), 6);
    assert_eq!(kept_count(&vec![], &vec![]), 0);
}

#[test]
fn sweep_with_a_floor_above_every_count_but_the_first() {
    let below = vec![true, true, true, true];
    let above = vec![false; 4];
    assert_eq!(kept_count(&below, &above), 1);
}

#[test]
fn sweep_stops_at_the_first_refused_count() {
    let below = vec![false, false, true, false];
    let above = vec![false; 4];
    assert_eq!(kept_count(&below, &above), 2);
    let below2 = vec![false; 4];
    let above2 = vec![false, false, false, true];
    assert_eq!(kept_count(&below2, &above2), 3);
    // A total over the ceiling refuses even the first count.
    assert_eq!(kept_count(&vec![false, false], &vec![true, false]), 0);
}

#[test]
fn down_payment_floor_stops_the_branches() {
    // 1000 split in 1..=4: 1000, 500, 333.33, 250 against a floor of 300.
    let amounts = [1000.0f64, 500.0, 1000.0 / 3.0, 250.0];
    let below: Vec<bool> = amounts.iter().map(|a| *a < 300.0).collect();
    assert_eq!(kept_count(&below, &vec![false; 4]), 3);
}

#[test]
fn down_payment_branches_shift_by_a_month() {
    let r = down_payment_branch_dates(d(2022, 6, 20), 3);
    assert_eq!(r.len(), 3);
    assert_eq!(r[0].requested_date, d(2022, 6, 26));
    assert_eq!(r[0].first_payment_date, d(2022, 7, 20));
    assert_eq!(r[1].requested_date, d(2022, 7, 26));
    assert_eq!(r[1].first_payment_date, d(2022, 8, 20));
    assert_eq!(r[2].requested_date, d(2022, 8, 26));
    assert_eq!(r[2].first_payment_date, d(2022, 9, 20));
    assert!(down_payment_branch_dates(d(2022, 6, 20), 0).is_empty());
}

#[test]
fn down_payment_branch_dates_clamp_month_ends() {
    let r = down_payment_branch_dates(d(2023, 1, 31), 2);
    assert_eq!(r[0].requested_date, d(2023, 2, 6));
    assert_eq!(r[0].first_payment_date, d(2023, 2, 28));
    assert_eq!(r[1].requested_date, d(2023, 3, 6));
    assert_eq!(r[1].first_payment_date, d(2023, 3, 28));
}

#[test]
fn anchors_move_only_in_business_day_mode() {
    let disbursement = d(2022, 3, 26);
    let first = d(2022, 4, 30);
    assert_eq!(contract_anchors(disbursement, first, false, &vec![]), (disbursement, first));
    assert_eq!(contract_anchors(disbursement, first, true, &vec![d(2022, 3, 28)]), (d(2022, 3, 29), d(2022, 5, 2)));
}

#[test]
fn fixed_pass_budget_and_default_command() {
    assert_eq!(CONVERGENCE_PASSES, 7);
    assert_eq!(CalcType::default(), CalcType::Normal);
    let args = Args { calc_type: CalcType::DownPayment };
    assert_eq!(args.calc_type, CalcType::DownPayment);
}
