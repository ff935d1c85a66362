use payment_plan::calendar::Date;
use payment_plan::schedule::due_date_schedule;

fn d(y: i32, m: u32, day: u32) -> Date {
    Date::from_ymd(y, m, day).unwrap()
}

#[test]
fn monthly_schedule_of_six_installments() {
    // Disbursed 2022-03-30, first payment 2022-04-30.
    let s = due_date_schedule(d(2022, 3, 30), d(2022, 4, 30), 6, false, &vec![]);
    assert_eq!(
        s.due_dates,
        vec![d(2022, 4, 30), d(2022, 5, 30), d(2022, 6, 30), d(2022, 7, 30), d(2022, 8, 30), d(2022, 9, 30)]
    );
    assert_eq!(s.diffs, vec![31, 30, 31, 30, 31, 31]);
    assert_eq!(s.accumulated_days, vec![31, 61, 92, 122, 153, 184]);
    assert_eq!(s.business_diffs, s.diffs);
    assert_eq!(s.accumulated_business_days, s.accumulated_days);
}

#[test]
fn monthly_schedule_keeps_clamped_days() {
    let s = due_date_schedule(d(2023, 1, 1), d(2023, 1, 31), 3, false, &vec![]);
    assert_eq!(s.due_dates, vec![d(2023, 1, 31), d(2023, 2, 28), d(2023, 3, 28)]);
    assert_eq!(s.diffs, vec![30, 28, 28]);
    assert_eq!(s.accumulated_days, vec![30, 58, 86]);
}

#[test]
fn empty_schedule() {
    let s = due_date_schedule(d(2023, 1, 1), d(2023, 1, 31), 0, true, &vec![]);
    assert!(s.due_dates.is_empty());
    assert!(s.accumulated_business_days.is_empty());
}

#[test]
fn business_day_schedule_moves_due_dates() {
    // 2022-04-30 is a Saturday: the first due date moves to Monday 2022-05-02.
    let holidays = vec![d(2022, 6, 30)];
    let s = due_date_schedule(d(2022, 3, 30), d(2022, 4, 30), 3, true, &holidays);
    assert_eq!(s.due_dates, vec![d(2022, 5, 2), d(2022, 5, 30), d(2022, 7, 1)]);
    assert_eq!(s.diffs, vec![33, 28, 32]);
    assert_eq!(s.accumulated_days, vec![33, 61, 93]);
    // Business days strictly between the anchors: 2022-03-31..2022-05-01,
    // then 2022-05-03..2022-05-29, then 2022-05-31..2022-06-30.
    assert_eq!(s.business_diffs, vec![22, 19, 22]);
    assert_eq!(s.accumulated_business_days, vec![22, 41, 63]);
}
