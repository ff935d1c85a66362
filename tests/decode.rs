use payment_plan::decode::{deserialize_down_payment_params, deserialize_params, DecodeError};

const PARAMS: [u8; 72] = [
    8, 128, 215, 164, 195, 135, 48, 16, 128, 143, 144, 198, 253, 47, 25, 0, 0, 0, 0, 0, 168, 166, 64, 32, 6, 49,
    117, 2, 154, 8, 27, 158, 158, 63, 65, 197, 143, 49, 119, 45, 33, 111, 63, 73, 107, 160, 226, 10, 204, 139,
    21, 63, 81, 236, 81, 184, 30, 133, 235, 161, 63, 97, 0, 0, 0, 0, 101, 205, 205, 65, 104, 1,
];

#[test]
fn plan_request_fields() {
    let p = deserialize_params(&PARAMS).unwrap();
    assert_eq!(p.first_payment_date_millis, 1_651_287_600_000);
    assert_eq!(p.requested_date_millis, 1_648_609_200_000);
    assert_eq!(f64::from_bits(p.requested_amount), 2900.0);
    assert_eq!(p.installments, 6);
    assert_eq!(f64::from_bits(p.mdr), 0.0299);
    assert_eq!(f64::from_bits(p.iof_overall), 0.0038);
    assert_eq!(f64::from_bits(p.iof_percentage), 0.03 / 365.0);
    assert_eq!(f64::from_bits(p.interest_rate), 0.035);
    assert_eq!(f64::from_bits(p.max_total_amount), 1e9);
    assert_eq!(p.tac_percentage, 0);
    assert_eq!(p.debit_service_percentage, 0);
    assert!(p.disbursement_only_on_business_days);
}

#[test]
fn empty_request_has_defaults() {
    let p = deserialize_params(&[]).unwrap();
    assert_eq!(p.installments, 0);
    assert_eq!(p.requested_amount, 0);
    assert!(!p.disbursement_only_on_business_days);
}

#[test]
fn unknown_fields_are_skipped_and_last_value_wins() {
    let bytes = [152, 6, 5, 149, 6, 1, 2, 3, 4, 138, 6, 2, 1, 2, 32, 7, 32, 9];
    let p = deserialize_params(&bytes).unwrap();
    assert_eq!(p.installments, 9);
}

#[test]
fn malformed_requests_are_refused() {
    // A varint that never ends.
    assert_eq!(deserialize_params(&[32, 128]), Err(DecodeError));
    // Field number zero.
    assert_eq!(deserialize_params(&[0, 1]), Err(DecodeError));
    // A known varint field sent as a double.
    assert_eq!(deserialize_params(&[33, 0, 0, 0, 0, 0, 0, 0, 0]), Err(DecodeError));
    // A double cut short.
    assert_eq!(deserialize_params(&[25, 0, 0]), Err(DecodeError));
    // A group.
    assert_eq!(deserialize_params(&[155, 6]), Err(DecodeError));
    // A length past the end.
    assert_eq!(deserialize_params(&[138, 6, 5, 1]), Err(DecodeError));
    // An eleven-byte varint.
    assert_eq!(deserialize_params(&[32, 255, 255, 255, 255, 255, 255, 255, 255, 255, 255, 1]), Err(DecodeError));
    // A tenth byte that overflows 64 bits.
    assert_eq!(deserialize_params(&[32, 255, 255, 255, 255, 255, 255, 255, 255, 255, 2]), Err(DecodeError));
}

#[test]
fn largest_varint_is_read() {
    let p = deserialize_params(&[16, 255, 255, 255, 255, 255, 255, 255, 255, 255, 1]).unwrap();
    assert_eq!(p.requested_date_millis, -1);
    // A count wider than 32 bits keeps its low 32 bits.
    let q = deserialize_params(&[32, 128, 128, 128, 128, 16]).unwrap();
    assert_eq!(q.installments, 0);
}

#[test]
fn down_payment_request_merges_nested_params() {
    let bytes = [10, 2, 32, 3, 16, 232, 7, 25, 0, 0, 0, 0, 0, 64, 143, 64, 40, 4, 10, 2, 40, 80];
    let d = deserialize_down_payment_params(&bytes).unwrap();
    let p = d.params.unwrap();
    assert_eq!(p.installments, 3);
    assert_eq!(p.debit_service_percentage, 80);
    assert_eq!(d.first_payment_date_millis, 1000);
    assert_eq!(f64::from_bits(d.requested_amount), 1000.0);
    assert_eq!(d.installments, 4);
    assert_eq!(d.min_installment_amount, 0);
}

#[test]
fn down_payment_request_refuses_bad_nested_params() {
    assert_eq!(deserialize_down_payment_params(&[10, 2, 32, 128]), Err(DecodeError));
    assert!(deserialize_down_payment_params(&[]).unwrap().params.is_none());
}
