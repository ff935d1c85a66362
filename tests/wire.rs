use payment_plan::wire::{
    serialize_down_payment_response, serialize_down_payment_responses, serialize_reimbursement_response,
    serialize_response, serialize_responses, DownPaymentResponse, DownPaymentResponses,
    InvoiceResponseReimbursement, InvoiceStatus, PlanResponse, PlanResponses, ReimbursementResponse,
};

fn blank_plan() -> PlanResponse {
    PlanResponse {
        installment: 0,
        due_date_millis: 0,
        disbursement_date_millis: 0,
        accumulated_days: 0,
        days_index: 0,
        accumulated_days_index: 0,
        interest_rate: 0,
        installment_amount: 0,
        installment_amount_without_tac: 0,
        total_amount: 0,
        debit_service: 0,
        customer_debit_service_amount: 0,
        customer_amount: 0,
        calculation_basis_for_effective_interest_rate: 0,
        merchant_debit_service_amount: 0,
        merchant_total_amount: 0,
        settled_to_merchant: 0,
        mdr_amount: 0,
        effective_interest_rate: 0,
        total_effective_cost: 0,
        eir_yearly: 0,
        tec_yearly: 0,
        eir_monthly: 0,
        tec_monthly: 0,
        total_iof: 0,
        contract_amount: 0,
        contract_amount_without_tac: 0,
        tac_amount: 0,
        iof_percentage: 0,
        overall_iof: 0,
        pre_disbursement_amount: 0,
        paid_total_iof: 0,
        paid_contract_amount: 0,
    }
}

fn sample_plan() -> PlanResponse {
    let mut p = blank_plan();
    p.installment = 6;
    p.due_date_millis = 1_664_496_000_000;
    p.accumulated_days = 184;
    p.installment_amount = 552.43f64.to_bits();
    p.total_iof = (-0.0f64).to_bits();
    p.contract_amount = 2936.56f64.to_bits();
    p
}

const SAMPLE_PLAN_BYTES: [u8; 31] = [
    8, 6, 16, 128, 184, 197, 221, 184, 48, 32, 184, 1, 65, 61, 10, 215, 163, 112, 67, 129, 64, 209, 1, 133,
    235, 81, 184, 30, 241, 166, 64,
];

#[test]
fn plan_entry_encoding() {
    assert_eq!(serialize_response(sample_plan()), SAMPLE_PLAN_BYTES.to_vec());
}

#[test]
fn default_fields_are_left_out() {
    assert!(serialize_response(blank_plan()).is_empty());
}

#[test]
fn negative_values_take_ten_bytes() {
    let mut p = blank_plan();
    p.due_date_millis = -1;
    assert_eq!(serialize_response(p), vec![16, 255, 255, 255, 255, 255, 255, 255, 255, 255, 1]);
}

#[test]
fn plan_list_encoding() {
    let mut one = blank_plan();
    one.installment = 1;
    let list = PlanResponses { responses: vec![sample_plan(), one] };
    let mut expected = vec![10, 31];
    expected.extend_from_slice(&SAMPLE_PLAN_BYTES);
    expected.extend_from_slice(&[10, 2, 8, 1]);
    assert_eq!(serialize_responses(list), expected);
    assert!(serialize_responses(PlanResponses { responses: vec![] }).is_empty());
}

#[test]
fn down_payment_encoding() {
    let mut one = blank_plan();
    one.installment = 1;
    let branch = DownPaymentResponse {
        first_payment_date_millis: 1000,
        plans: Some(PlanResponses { responses: vec![one] }),
        installment_amount: 250.0f64.to_bits(),
        total_amount: 0,
        installment_quantity: 4,
    };
    assert_eq!(
        serialize_down_payment_response(branch),
        vec![8, 232, 7, 18, 4, 10, 2, 8, 1, 25, 0, 0, 0, 0, 0, 64, 111, 64, 40, 4]
    );
}

#[test]
fn down_payment_list_encoding() {
    let without_plans = DownPaymentResponse {
        first_payment_date_millis: 1000,
        plans: None,
        installment_amount: 0,
        total_amount: 0,
        installment_quantity: 4,
    };
    let empty = DownPaymentResponse {
        first_payment_date_millis: 0,
        plans: None,
        installment_amount: 0,
        total_amount: 0,
        installment_quantity: 0,
    };
    let list = DownPaymentResponses { responses: vec![without_plans, empty] };
    assert_eq!(serialize_down_payment_responses(list), vec![10, 5, 8, 232, 7, 40, 4, 10, 0]);
}

#[test]
fn reimbursement_encoding() {
    let invoice = InvoiceResponseReimbursement {
        id: 7,
        days_difference_between_repurchase_date_and_due_at: -3,
        present_value_repurchase: 10.5f64.to_bits(),
    };
    let empty = InvoiceResponseReimbursement {
        id: 0,
        days_difference_between_repurchase_date_and_due_at: 0,
        present_value_repurchase: 0,
    };
    let r = ReimbursementResponse {
        customer_charge_back_amount: 1.5f64.to_bits(),
        total_present_value_repurchase: 0,
        subsidy_for_cancellation: 0,
        reimbursement_value: 0,
        reimbursement_invoice_due_date_millis: 86_400_000,
        reference_date_for_repurchase_millis: 0,
        invoices: vec![invoice, empty],
        interest_rate_daily: 0,
    };
    assert_eq!(
        serialize_reimbursement_response(r),
        vec![
            9, 0, 0, 0, 0, 0, 0, 248, 63, 40, 128, 184, 153, 41, 58, 22, 8, 7, 16, 253, 255, 255, 255, 255,
            255, 255, 255, 255, 1, 25, 0, 0, 0, 0, 0, 0, 37, 64, 58, 0
        ]
    );
}

#[test]
fn invoice_status_defaults_to_created() {
    assert_eq!(InvoiceStatus::default(), InvoiceStatus::CREATED);
}
