use payment_plan::calendar::{
    add_days, add_months, add_one_month, diff_in_business_days, disbursement_date_range,
    get_next_business_day, get_non_business_days_between, is_business_day, is_leap_year,
    next_disbursement_date, Date,
};

fn d(y: i32, m: u32, day: u32) -> Date {
    Date::from_ymd(y, m, day).unwrap()
}

/// The national holidays of 2078 that the cases below cross.
fn holidays_2078() -> Vec<Date> {
    vec![d(2078, 1, 1), d(2078, 2, 14), d(2078, 2, 15), d(2078, 4, 1), d(2078, 11, 2), d(2078, 11, 15), d(2078, 12, 25)]
}

#[test]
fn test_next_disbursement_date() {
    let base_date = d(2078, 2, 12);
    let today = d(2026, 10, 19);
    let result = next_disbursement_date(base_date, today, &holidays_2078());
    let expected = d(2078, 2, 16);
    assert_eq!(result, expected);
}

#[test]
fn test_disbursement_data_range() {
    let base_date = d(2078, 2, 12);
    let days = 5;
    let result = disbursement_date_range(base_date, days, d(2026, 10, 19), &holidays_2078());
    let expected = (d(2078, 2, 16), d(2078, 2, 22));
    assert_eq!(result, expected);
}

#[test]
fn test_get_non_business_days_between() {
    let start_date = d(2078, 11, 12);
    let end_date = d(2078, 11, 22);
    let result = get_non_business_days_between(start_date, end_date, &holidays_2078());
    let expected = vec![d(2078, 11, 12), d(2078, 11, 13), d(2078, 11, 15), d(2078, 11, 19), d(2078, 11, 20)];
    assert_eq!(result, expected);
}

#[test]
fn next_disbursement_date_skips_today() {
    let base = d(2024, 10, 23);
    assert_eq!(next_disbursement_date(base, base, &vec![]), d(2024, 10, 24));
    // A Friday that is today moves past the weekend.
    let friday = d(2024, 10, 25);
    assert_eq!(next_disbursement_date(friday, friday, &vec![]), d(2024, 10, 28));
}

#[test]
fn disbursement_range_of_one_day_is_the_start() {
    let r = disbursement_date_range(d(2078, 2, 12), 1, d(2026, 10, 19), &holidays_2078());
    assert_eq!(r, (d(2078, 2, 16), d(2078, 2, 16)));
    let r0 = disbursement_date_range(d(2078, 2, 12), 0, d(2026, 10, 19), &holidays_2078());
    assert_eq!(r0, (d(2078, 2, 16), d(2078, 2, 16)));
}

#[test]
fn non_business_days_of_an_empty_range() {
    let r = get_non_business_days_between(d(2078, 11, 22), d(2078, 11, 12), &holidays_2078());
    assert!(r.is_empty());
    let one = get_non_business_days_between(d(2078, 11, 13), d(2078, 11, 13), &holidays_2078());
    assert_eq!(one, vec![d(2078, 11, 13)]);
}

#[test]
fn from_ymd_rejects_impossible_dates() {
    assert!(Date::from_ymd(2023, 2, 29).is_none());
    assert!(Date::from_ymd(2024, 2, 29).is_some());
    assert!(Date::from_ymd(2024, 13, 1).is_none());
    assert!(Date::from_ymd(2024, 4, 31).is_none());
    assert!(Date::from_ymd(0, 1, 1).is_none());
    assert!(Date::from_ymd(10000, 1, 1).is_none());
    assert!(Date::from_ymd(2024, 1, 0).is_none());
}

#[test]
fn leap_years() {
    assert!(is_leap_year(2024));
    assert!(!is_leap_year(1900));
    assert!(is_leap_year(2000));
    assert!(!is_leap_year(2023));
}

#[test]
fn day_numbers_and_weekdays() {
    assert_eq!(d(1, 1, 1).day_number(), 0);
    assert_eq!(d(1970, 1, 1).day_number(), 719_162);
    assert_eq!(d(9999, 12, 31).day_number(), 3_652_058);
    assert_eq!(d(1, 1, 1).weekday(), 0);
    // 2022-04-30 is a Saturday, 2022-03-30 a Wednesday.
    assert_eq!(d(2022, 4, 30).weekday(), 5);
    assert_eq!(d(2022, 3, 30).weekday(), 2);
}

#[test]
fn month_steps_clamp_one_at_a_time() {
    assert_eq!(add_one_month(d(2024, 1, 31)), d(2024, 2, 29));
    assert_eq!(add_one_month(d(2023, 1, 31)), d(2023, 2, 28));
    assert_eq!(add_one_month(d(2022, 12, 15)), d(2023, 1, 15));
    // Stepping one month at a time keeps the clamped day.
    assert_eq!(add_months(d(2023, 1, 31), 2), d(2023, 3, 28));
    assert_eq!(add_months(d(2022, 4, 30), 5), d(2022, 9, 30));
    assert_eq!(add_months(d(2022, 4, 30), 0), d(2022, 4, 30));
}

#[test]
fn day_steps_cross_month_and_year_ends() {
    assert_eq!(add_days(d(2022, 12, 31), 1), d(2023, 1, 1));
    assert_eq!(add_days(d(2024, 2, 28), 1), d(2024, 2, 29));
    assert_eq!(add_days(d(2022, 3, 30), 31), d(2022, 4, 30));
    assert_eq!(add_days(d(2022, 3, 30), 0), d(2022, 3, 30));
    assert_eq!(add_days(d(2022, 3, 30), -5), d(2022, 3, 30));
}

#[test]
fn business_days_follow_weekends_and_holidays() {
    let h = holidays_2078();
    assert!(!is_business_day(d(2078, 2, 12), &h));
    assert!(!is_business_day(d(2078, 2, 14), &h));
    assert!(is_business_day(d(2078, 2, 14), &vec![]));
    assert!(is_business_day(d(2078, 2, 16), &h));
    assert_eq!(get_next_business_day(d(2078, 2, 16), &h), d(2078, 2, 16));
    assert_eq!(get_next_business_day(d(2078, 2, 12), &h), d(2078, 2, 16));
}

#[test]
fn business_day_difference_is_signed_and_strict() {
    let h = holidays_2078();
    // Strictly between Friday the 11th and Wednesday the 16th: all off days.
    assert_eq!(diff_in_business_days(d(2078, 2, 11), d(2078, 2, 16), &h), 0);
    assert_eq!(diff_in_business_days(d(2078, 2, 11), d(2078, 2, 18), &h), 2);
    assert_eq!(diff_in_business_days(d(2078, 2, 18), d(2078, 2, 11), &h), -2);
    assert_eq!(diff_in_business_days(d(2078, 2, 16), d(2078, 2, 17), &h), 0);
}
