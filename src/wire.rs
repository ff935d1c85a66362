//! Protocol Buffers encoding of the plan records: the bytes of each field
//! kind, written through prost's field encoders.

use vstd::prelude::*;

verus! {

/// Largest field number the wire format allows.
pub const MAX_TAG: u32 = 536_870_911;

/// Base-128 varint: seven bits per byte, low bits first, the high bit set on
/// every byte but the last.
pub open spec fn varint(v: nat) -> Seq<u8>
    decreases v,
{
    if v < 128 {
        seq![v as u8]
    } else {
        seq![(v % 128 + 128) as u8] + varint(v / 128)
    }
}

/// A field key: the field number and the wire type packed in one varint.
pub open spec fn key(tag: nat, wire_type: nat) -> Seq<u8> {
    varint(tag * 8 + wire_type)
}

/// The eight bytes of a 64-bit value, least significant first.
pub open spec fn le_bytes(v: nat) -> Seq<u8> {
    seq![
        (v % 0x100) as u8,
        (v / 0x100 % 0x100) as u8,
        (v / 0x1_0000 % 0x100) as u8,
        (v / 0x100_0000 % 0x100) as u8,
        (v / 0x1_0000_0000 % 0x100) as u8,
        (v / 0x100_0000_0000 % 0x100) as u8,
        (v / 0x1_0000_0000_0000 % 0x100) as u8,
        (v / 0x100_0000_0000_0000 % 0x100) as u8,
    ]
}

/// An unsigned varint field; a zero value is left out.
pub open spec fn varint_field(tag: nat, v: nat) -> Seq<u8> {
    if v == 0 { seq![] } else { key(tag, 0) + varint(v) }
}

/// The two's-complement reading of a signed 64-bit value.
pub open spec fn int64_bits(v: int) -> nat {
    if v < 0 { (v + 0x1_0000_0000_0000_0000) as nat } else { v as nat }
}

/// A signed 64-bit varint field; a zero value is left out.
pub open spec fn int64_field(tag: nat, v: int) -> Seq<u8> {
    varint_field(tag, int64_bits(v))
}

/// A double field given by its IEEE-754 bit pattern; positive and negative
/// zero are left out.
pub open spec fn double_field(tag: nat, bits: nat) -> Seq<u8> {
    if bits == 0 || bits == 0x8000_0000_0000_0000 { seq![] } else { key(tag, 1) + le_bytes(bits) }
}

/// A boolean field; `false` is left out.
pub open spec fn bool_field(tag: nat, b: bool) -> Seq<u8> {
    varint_field(tag, if b { 1 } else { 0 })
}

/// A length-delimited field holding an encoded message.
pub open spec fn message_field(tag: nat, bytes: Seq<u8>) -> Seq<u8> {
    key(tag, 2) + varint(bytes.len()) + bytes
}

/// Relies on prost::encoding::uint64::encode: it writes the key with wire
/// type 0, then the value as a varint.
#[verifier::external_body]
fn put_varint_field(tag: u32, value: u64, buf: &mut Vec<u8>)
    requires
        1 <= tag <= MAX_TAG,
    ensures
        final(buf)@ == old(buf)@ + key(tag as nat, 0) + varint(value as nat),
{
    prost::encoding::uint64::encode(tag, &value, buf)
}

/// Relies on prost::encoding::fixed64::encode: it writes the key with wire
/// type 1, then the value's eight bytes, least significant first.
#[verifier::external_body]
fn put_fixed64_field(tag: u32, value: u64, buf: &mut Vec<u8>)
    requires
        1 <= tag <= MAX_TAG,
    ensures
        final(buf)@ == old(buf)@ + key(tag as nat, 1) + le_bytes(value as nat),
{
    prost::encoding::fixed64::encode(tag, &value, buf)
}

/// Relies on prost::encoding::bytes::encode: it writes the key with wire type
/// 2, the length as a varint, then the bytes.
#[verifier::external_body]
fn put_bytes_field(tag: u32, value: &Vec<u8>, buf: &mut Vec<u8>)
    requires
        1 <= tag <= MAX_TAG,
    ensures
        final(buf)@ == old(buf)@ + key(tag as nat, 2) + varint(value@.len()) + value@,
{
    prost::encoding::bytes::encode(tag, value, buf)
}

/// Writes an unsigned field, leaving out zero.
pub fn write_uint(buf: &mut Vec<u8>, tag: u32, value: u64)
    requires
        1 <= tag <= MAX_TAG,
    ensures
        final(buf)@ == old(buf)@ + varint_field(tag as nat, value as nat),
{
    if value != 0 {
        put_varint_field(tag, value, buf);
    } else {
        assert(old(buf)@ + seq![] == old(buf)@);
    }
}

/// Writes a signed 64-bit field, leaving out zero.
pub fn write_int64(buf: &mut Vec<u8>, tag: u32, value: i64)
    requires
        1 <= tag <= MAX_TAG,
    ensures
        final(buf)@ == old(buf)@ + int64_field(tag as nat, value as int),
{
    let bits: u64 = if value < 0 {
        (value as i128 + 0x1_0000_0000_0000_0000i128) as u64
    } else {
        value as u64
    };
    write_uint(buf, tag, bits);
}

/// Writes a double field given by its bit pattern, leaving out both zeros.
pub fn write_double(buf: &mut Vec<u8>, tag: u32, bits: u64)
    requires
        1 <= tag <= MAX_TAG,
    ensures
        final(buf)@ == old(buf)@ + double_field(tag as nat, bits as nat),
{
    if bits != 0 && bits != 0x8000_0000_0000_0000 {
        put_fixed64_field(tag, bits, buf);
    } else {
        assert(old(buf)@ + seq![] == old(buf)@);
    }
}

/// Writes a boolean field, leaving out `false`.
pub fn write_bool(buf: &mut Vec<u8>, tag: u32, value: bool)
    requires
        1 <= tag <= MAX_TAG,
    ensures
        final(buf)@ == old(buf)@ + bool_field(tag as nat, value),
{
    write_uint(buf, tag, if value { 1 } else { 0 });
}

/// Writes an encoded message as a length-delimited field.
pub fn write_message(buf: &mut Vec<u8>, tag: u32, bytes: &Vec<u8>)
    requires
        1 <= tag <= MAX_TAG,
    ensures
        final(buf)@ == old(buf)@ + message_field(tag as nat, bytes@),
{
    put_bytes_field(tag, bytes, buf);
    assert(old(buf)@ + key(tag as nat, 2) + varint(bytes@.len()) + bytes@ =~= old(buf)@ + message_field(tag as nat, bytes@));
}

/// One plan entry as it travels on the wire. Amounts and rates are the bit
/// patterns of IEEE-754 doubles, dates are milliseconds since the Unix epoch.
#[derive(Clone, Copy, Debug, PartialEq, Eq, Structural)]
pub struct PlanResponse {
    pub installment: u32,
    pub due_date_millis: i64,
    pub disbursement_date_millis: i64,
    pub accumulated_days: i64,
    pub days_index: u64,
    pub accumulated_days_index: u64,
    pub interest_rate: u64,
    pub installment_amount: u64,
    pub installment_amount_without_tac: u64,
    pub total_amount: u64,
    pub debit_service: u64,
    pub customer_debit_service_amount: u64,
    pub customer_amount: u64,
    pub calculation_basis_for_effective_interest_rate: u64,
    pub merchant_debit_service_amount: u64,
    pub merchant_total_amount: u64,
    pub settled_to_merchant: u64,
    pub mdr_amount: u64,
    pub effective_interest_rate: u64,
    pub total_effective_cost: u64,
    pub eir_yearly: u64,
    pub tec_yearly: u64,
    pub eir_monthly: u64,
    pub tec_monthly: u64,
    pub total_iof: u64,
    pub contract_amount: u64,
    pub contract_amount_without_tac: u64,
    pub tac_amount: u64,
    pub iof_percentage: u64,
    pub overall_iof: u64,
    pub pre_disbursement_amount: u64,
    pub paid_total_iof: u64,
    pub paid_contract_amount: u64,
}

/// The encoding of a plan entry: its fields in order, numbered from 1.
#[verifier::opaque]
pub open spec fn plan_response_bytes(r: PlanResponse) -> Seq<u8> {
    Seq::empty()
        + varint_field(1, r.installment as nat)
        + int64_field(2, r.due_date_millis as int)
        + int64_field(3, r.disbursement_date_millis as int)
        + int64_field(4, r.accumulated_days as int)
        + double_field(5, r.days_index as nat)
        + double_field(6, r.accumulated_days_index as nat)
        + double_field(7, r.interest_rate as nat)
        + double_field(8, r.installment_amount as nat)
        + double_field(9, r.installment_amount_without_tac as nat)
        + double_field(10, r.total_amount as nat)
        + double_field(11, r.debit_service as nat)
        + double_field(12, r.customer_debit_service_amount as nat)
        + double_field(13, r.customer_amount as nat)
        + double_field(14, r.calculation_basis_for_effective_interest_rate as nat)
        + double_field(15, r.merchant_debit_service_amount as nat)
        + double_field(16, r.merchant_total_amount as nat)
        + double_field(17, r.settled_to_merchant as nat)
        + double_field(18, r.mdr_amount as nat)
        + double_field(19, r.effective_interest_rate as nat)
        + double_field(20, r.total_effective_cost as nat)
        + double_field(21, r.eir_yearly as nat)
        + double_field(22, r.tec_yearly as nat)
        + double_field(23, r.eir_monthly as nat)
        + double_field(24, r.tec_monthly as nat)
        + double_field(25, r.total_iof as nat)
        + double_field(26, r.contract_amount as nat)
        + double_field(27, r.contract_amount_without_tac as nat)
        + double_field(28, r.tac_amount as nat)
        + double_field(29, r.iof_percentage as nat)
        + double_field(30, r.overall_iof as nat)
        + double_field(31, r.pre_disbursement_amount as nat)
        + double_field(32, r.paid_total_iof as nat)
        + double_field(33, r.paid_contract_amount as nat)
}

/// Encodes one plan entry.
pub fn serialize_response(response: PlanResponse) -> (r: Vec<u8>)
    ensures
        r@ == plan_response_bytes(response),
{
    reveal(plan_response_bytes);
    let mut buf: Vec<u8> = Vec::new();
    write_uint(&mut buf, 1, response.installment as u64);
    write_int64(&mut buf, 2, response.due_date_millis);
    write_int64(&mut buf, 3, response.disbursement_date_millis);
    write_int64(&mut buf, 4, response.accumulated_days);
    write_double(&mut buf, 5, response.days_index);
    write_double(&mut buf, 6, response.accumulated_days_index);
    write_double(&mut buf, 7, response.interest_rate);
    write_double(&mut buf, 8, response.installment_amount);
    write_double(&mut buf, 9, response.installment_amount_without_tac);
    write_double(&mut buf, 10, response.total_amount);
    write_double(&mut buf, 11, response.debit_service);
    write_double(&mut buf, 12, response.customer_debit_service_amount);
    write_double(&mut buf, 13, response.customer_amount);
    write_double(&mut buf, 14, response.calculation_basis_for_effective_interest_rate);
    write_double(&mut buf, 15, response.merchant_debit_service_amount);
    write_double(&mut buf, 16, response.merchant_total_amount);
    write_double(&mut buf, 17, response.settled_to_merchant);
    write_double(&mut buf, 18, response.mdr_amount);
    write_double(&mut buf, 19, response.effective_interest_rate);
    write_double(&mut buf, 20, response.total_effective_cost);
    write_double(&mut buf, 21, response.eir_yearly);
    write_double(&mut buf, 22, response.tec_yearly);
    write_double(&mut buf, 23, response.eir_monthly);
    write_double(&mut buf, 24, response.tec_monthly);
    write_double(&mut buf, 25, response.total_iof);
    write_double(&mut buf, 26, response.contract_amount);
    write_double(&mut buf, 27, response.contract_amount_without_tac);
    write_double(&mut buf, 28, response.tac_amount);
    write_double(&mut buf, 29, response.iof_percentage);
    write_double(&mut buf, 30, response.overall_iof);
    write_double(&mut buf, 31, response.pre_disbursement_amount);
    write_double(&mut buf, 32, response.paid_total_iof);
    write_double(&mut buf, 33, response.paid_contract_amount);
    buf
}

/// A list of plan entries, one for each installment count.
#[derive(Clone, Debug)]
pub struct PlanResponses {
    pub responses: Vec<PlanResponse>,
}

/// Each entry of a list as a message in field 1.
pub open spec fn repeated_plan_bytes(s: Seq<PlanResponse>) -> Seq<u8>
    decreases s.len(),
{
    if s.len() == 0 {
        seq![]
    } else {
        repeated_plan_bytes(s.drop_last()) + message_field(1, plan_response_bytes(s.last()))
    }
}

/// The encoding of a list of plan entries.
pub open spec fn plan_responses_bytes(r: PlanResponses) -> Seq<u8> {
    repeated_plan_bytes(r.responses@)
}

fn write_plan_responses(buf: &mut Vec<u8>, responses: &Vec<PlanResponse>)
    ensures
        final(buf)@ == old(buf)@ + repeated_plan_bytes(responses@),
{
    let ghost start = buf@;
    let mut i: usize = 0;
    while i < responses.len()
        invariant
            i <= responses.len(),
            buf@ == start + repeated_plan_bytes(responses@.take(i as int)),
        decreases responses.len() - i,
    {
        let bytes = serialize_response(responses[i]);
        write_message(buf, 1, &bytes);
        proof {
            let next = responses@.take(i + 1 as int);
            assert(next.drop_last() == responses@.take(i as int));
            assert(next.last() == responses@[i as int]);
        }
        i = i + 1;
    }
    assert(responses@.take(i as int) == responses@);
    if responses.len() == 0 {
        assert(start + seq![] == start);
    }
}

/// Encodes a list of plan entries.
pub fn serialize_responses(responses: PlanResponses) -> (r: Vec<u8>)
    ensures
        r@ == plan_responses_bytes(responses),
{
    let mut buf: Vec<u8> = Vec::new();
    write_plan_responses(&mut buf, &responses.responses);
    assert(Seq::<u8>::empty() + repeated_plan_bytes(responses.responses@) == repeated_plan_bytes(responses.responses@));
    buf
}

/// One down-payment branch as it travels on the wire: the down payment's own
/// terms and the plans of the main contract that follows it.
#[derive(Clone, Debug)]
pub struct DownPaymentResponse {
    pub first_payment_date_millis: i64,
    pub plans: Option<PlanResponses>,
    pub installment_amount: u64,
    pub total_amount: u64,
    pub installment_quantity: u32,
}

/// The encoding of a down-payment branch.
pub open spec fn down_payment_response_bytes(r: DownPaymentResponse) -> Seq<u8> {
    Seq::empty()
        + int64_field(1, r.first_payment_date_millis as int)
        + match r.plans {
            Some(p) => message_field(2, plan_responses_bytes(p)),
            None => seq![],
        }
        + double_field(3, r.installment_amount as nat)
        + double_field(4, r.total_amount as nat)
        + varint_field(5, r.installment_quantity as nat)
}

/// Encodes one down-payment branch.
pub fn serialize_down_payment_response(response: DownPaymentResponse) -> (r: Vec<u8>)
    ensures
        r@ == down_payment_response_bytes(response),
{
    down_payment_bytes(&response)
}

fn down_payment_bytes(response: &DownPaymentResponse) -> (r: Vec<u8>)
    ensures
        r@ == down_payment_response_bytes(*response),
{
    let mut buf: Vec<u8> = Vec::new();
    write_int64(&mut buf, 1, response.first_payment_date_millis);
    match &response.plans {
        Some(p) => {
            let mut bytes: Vec<u8> = Vec::new();
            write_plan_responses(&mut bytes, &p.responses);
            assert(Seq::<u8>::empty() + repeated_plan_bytes(p.responses@) == repeated_plan_bytes(
                p.responses@,
            ));
            write_message(&mut buf, 2, &bytes);
        },
        None => {
            assert(buf@ + seq![] == buf@);
        },
    }
    write_double(&mut buf, 3, response.installment_amount);
    write_double(&mut buf, 4, response.total_amount);
    write_uint(&mut buf, 5, response.installment_quantity as u64);
    buf
}


/// A list of down-payment branches.
#[derive(Clone, Debug)]
pub struct DownPaymentResponses {
    pub responses: Vec<DownPaymentResponse>,
}

/// Each branch of a list as a message in field 1.
pub open spec fn repeated_down_payment_bytes(s: Seq<DownPaymentResponse>) -> Seq<u8>
    decreases s.len(),
{
    if s.len() == 0 {
        seq![]
    } else {
        repeated_down_payment_bytes(s.drop_last()) + message_field(
            1,
            down_payment_response_bytes(s.last()),
        )
    }
}

/// The encoding of a list of down-payment branches.
pub open spec fn down_payment_responses_bytes(r: DownPaymentResponses) -> Seq<u8> {
    repeated_down_payment_bytes(r.responses@)
}

/// Encodes a list of down-payment branches.
pub fn serialize_down_payment_responses(responses: DownPaymentResponses) -> (r: Vec<u8>)
    ensures
        r@ == down_payment_responses_bytes(responses),
{
    let items = &responses.responses;
    let mut buf: Vec<u8> = Vec::new();
    let mut i: usize = 0;
    while i < items.len()
        invariant
            i <= items.len(),
            buf@ == repeated_down_payment_bytes(items@.take(i as int)),
        decreases items.len() - i,
    {
        let bytes = down_payment_bytes(&items[i]);
        write_message(&mut buf, 1, &bytes);
        proof {
            let next = items@.take(i + 1 as int);
            assert(next.drop_last() == items@.take(i as int));
            assert(next.last() == items@[i as int]);
        }
        i = i + 1;
    }
    assert(items@.take(i as int) == items@);
    buf
}


/// Where an invoice stands when a reimbursement is computed.
#[allow(non_camel_case_types)]
#[derive(Clone, Copy, Debug, PartialEq, Eq, Structural)]
pub enum InvoiceStatus {
    OVERDUE,
    CREATED,
    READJUSTED,
    PAID,
    IRRELEVANT,
}

impl Default for InvoiceStatus {
    fn default() -> (r: InvoiceStatus)
        ensures
            r == InvoiceStatus::CREATED,
    {
        InvoiceStatus::CREATED
    }
}

/// One invoice of a reimbursement result: its id, the days between the
/// repurchase date and its due date, and its present value as the bit pattern
/// of a double.
#[derive(Clone, Copy, Debug, PartialEq, Eq, Structural)]
pub struct InvoiceResponseReimbursement {
    pub id: u32,
    pub days_difference_between_repurchase_date_and_due_at: i64,
    pub present_value_repurchase: u64,
}

/// The encoding of a reimbursement invoice.
pub open spec fn invoice_response_bytes(r: InvoiceResponseReimbursement) -> Seq<u8> {
    Seq::empty()
        + varint_field(1, r.id as nat)
        + int64_field(2, r.days_difference_between_repurchase_date_and_due_at as int)
        + double_field(3, r.present_value_repurchase as nat)
}

fn invoice_bytes(response: InvoiceResponseReimbursement) -> (r: Vec<u8>)
    ensures
        r@ == invoice_response_bytes(response),
{
    let mut buf: Vec<u8> = Vec::new();
    write_uint(&mut buf, 1, response.id as u64);
    write_int64(&mut buf, 2, response.days_difference_between_repurchase_date_and_due_at);
    write_double(&mut buf, 3, response.present_value_repurchase);
    buf
}

/// Each invoice of a list as a message in the given field.
pub open spec fn repeated_invoice_bytes(tag: nat, s: Seq<InvoiceResponseReimbursement>) -> Seq<u8>
    decreases s.len(),
{
    if s.len() == 0 {
        seq![]
    } else {
        repeated_invoice_bytes(tag, s.drop_last()) + message_field(tag, invoice_response_bytes(s.last()))
    }
}

fn write_invoices(buf: &mut Vec<u8>, tag: u32, invoices: &Vec<InvoiceResponseReimbursement>)
    requires
        1 <= tag <= MAX_TAG,
    ensures
        final(buf)@ == old(buf)@ + repeated_invoice_bytes(tag as nat, invoices@),
{
    let ghost start = buf@;
    let mut i: usize = 0;
    while i < invoices.len()
        invariant
            1 <= tag <= MAX_TAG,
            i <= invoices.len(),
            buf@ == start + repeated_invoice_bytes(tag as nat, invoices@.take(i as int)),
        decreases invoices.len() - i,
    {
        let bytes = invoice_bytes(invoices[i]);
        write_message(buf, tag, &bytes);
        proof {
            let next = invoices@.take(i + 1 as int);
            assert(next.drop_last() == invoices@.take(i as int));
            assert(next.last() == invoices@[i as int]);
        }
        i = i + 1;
    }
    assert(invoices@.take(i as int) == invoices@);
    if invoices.len() == 0 {
        assert(start + seq![] == start);
    }
}

/// The result of a reimbursement computation as it travels on the wire.
/// Amounts and rates are bit patterns of doubles, dates milliseconds since
/// the Unix epoch.
#[derive(Clone, Debug)]
pub struct ReimbursementResponse {
    pub customer_charge_back_amount: u64,
    pub total_present_value_repurchase: u64,
    pub subsidy_for_cancellation: u64,
    pub reimbursement_value: u64,
    pub reimbursement_invoice_due_date_millis: i64,
    pub reference_date_for_repurchase_millis: i64,
    pub invoices: Vec<InvoiceResponseReimbursement>,
    pub interest_rate_daily: u64,
}

/// The encoding of a reimbursement result: its fields in order, numbered
/// from 1, the invoices repeated in field 7.
pub open spec fn reimbursement_response_bytes(r: ReimbursementResponse) -> Seq<u8> {
    Seq::empty()
        + double_field(1, r.customer_charge_back_amount as nat)
        + double_field(2, r.total_present_value_repurchase as nat)
        + double_field(3, r.subsidy_for_cancellation as nat)
        + double_field(4, r.reimbursement_value as nat)
        + int64_field(5, r.reimbursement_invoice_due_date_millis as int)
        + int64_field(6, r.reference_date_for_repurchase_millis as int)
        + repeated_invoice_bytes(7, r.invoices@)
        + double_field(8, r.interest_rate_daily as nat)
}

/// Encodes a reimbursement result.
pub fn serialize_reimbursement_response(response: ReimbursementResponse) -> (r: Vec<u8>)
    ensures
        r@ == reimbursement_response_bytes(response),
{
    let mut buf: Vec<u8> = Vec::new();
    write_double(&mut buf, 1, response.customer_charge_back_amount);
    write_double(&mut buf, 2, response.total_present_value_repurchase);
    write_double(&mut buf, 3, response.subsidy_for_cancellation);
    write_double(&mut buf, 4, response.reimbursement_value);
    write_int64(&mut buf, 5, response.reimbursement_invoice_due_date_millis);
    write_int64(&mut buf, 6, response.reference_date_for_repurchase_millis);
    write_invoices(&mut buf, 7, &response.invoices);
    write_double(&mut buf, 8, response.interest_rate_daily);
    buf
}

} // verus!
