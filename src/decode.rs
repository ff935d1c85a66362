//! Decoding of plan requests from their Protocol Buffers encoding. Fields
//! come in any order, the last occurrence of a field wins, unknown fields
//! are skipped, and groups are refused.

use vstd::prelude::*;

verus! {

/// The value of a varint's bytes: seven bits from each, low bits first.
pub open spec fn leb(s: Seq<u8>) -> nat
    decreases s.len(),
{
    if s.len() == 0 { 0 } else { (s[0] % 128) as nat + 128 * leb(s.drop_first()) }
}

/// Length of the varint at the front of `s`, looking from byte `k`: it ends
/// at the first byte under 0x80, which must come within ten bytes, and a
/// tenth byte must be under 2 for the value to fit 64 bits.
pub open spec fn varint_len_from(s: Seq<u8>, k: nat) -> Option<nat>
    decreases 10 - k,
{
    if k >= 10 || k >= s.len() {
        None
    } else if s[k as int] < 128 {
        if k == 9 && s[k as int] >= 2 { None } else { Some((k + 1) as nat) }
    } else {
        varint_len_from(s, k + 1)
    }
}

/// The varint at the front of `s` and its length, if there is a valid one.
pub open spec fn varint_at(s: Seq<u8>) -> Option<(nat, nat)> {
    match varint_len_from(s, 0) {
        Some(n) => Some((leb(s.take(n as int)), n)),
        None => None,
    }
}

/// The 64-bit value of eight bytes, least significant first.
pub open spec fn fixed64_value(s: Seq<u8>) -> nat {
    (s[0] + s[1] * 0x100int + s[2] * 0x1_0000int + s[3] * 0x100_0000int + s[4] * 0x1_0000_0000int
        + s[5] * 0x100_0000_0000int + s[6] * 0x1_0000_0000_0000int + s[7] * 0x100_0000_0000_0000int) as nat
}

/// Relies on prost::encoding::decode_varint over a byte slice: it reads the
/// varint at the front and advances past it, or fails when no byte under
/// 0x80 comes within ten bytes or a tenth byte is 2 or more.
#[verifier::external_body]
fn decode_varint_at(bytes: &[u8], pos: usize) -> (r: Option<(u64, usize)>)
    requires
        pos <= bytes@.len(),
    ensures
        match varint_at(bytes@.skip(pos as int)) {
            Some((v, n)) => r == Some((v as u64, n as usize)) && v < 0x1_0000_0000_0000_0000,
            None => r is None,
        },
{
    let mut rest = &bytes[pos..];
    let before = rest.len();
    match prost::encoding::decode_varint(&mut rest) {
        Ok(v) => Some((v, before - rest.len())),
        Err(_) => None,
    }
}

proof fn lemma_varint_len_bounds(s: Seq<u8>, k: nat)
    ensures
        varint_len_from(s, k) matches Some(n) ==> k < n <= 10 && n <= s.len(),
    decreases 10 - k,
{
    if k < 10 && k < s.len() && s[k as int] >= 128 {
        lemma_varint_len_bounds(s, k + 1);
    }
}

/// Reads eight bytes, least significant first.
fn read_fixed64(bytes: &[u8], pos: usize) -> (r: u64)
    requires
        pos + 8 <= bytes@.len(),
    ensures
        r == fixed64_value(bytes@.skip(pos as int)),
{
    let s = Ghost(bytes@.skip(pos as int));
    assert(bytes@[pos as int] == s@[0] && bytes@[pos + 1] == s@[1] && bytes@[pos + 2] == s@[2]
        && bytes@[pos + 3] == s@[3] && bytes@[pos + 4] == s@[4] && bytes@[pos + 5] == s@[5]
        && bytes@[pos + 6] == s@[6] && bytes@[pos + 7] == s@[7]);
    bytes[pos] as u64 + bytes[pos + 1] as u64 * 0x100 + bytes[pos + 2] as u64 * 0x1_0000 + bytes[pos
        + 3] as u64 * 0x100_0000 + bytes[pos + 4] as u64 * 0x1_0000_0000 + bytes[pos + 5] as u64
        * 0x100_0000_0000 + bytes[pos + 6] as u64 * 0x1_0000_0000_0000 + bytes[pos + 7] as u64
        * 0x100_0000_0000_0000
}

/// A plan request as it travels on the wire. Amounts and rates are the bit
/// patterns of IEEE-754 doubles, dates milliseconds since the Unix epoch.
#[derive(Clone, Copy, Debug, PartialEq, Eq, Structural)]
pub struct PlanParams {
    pub first_payment_date_millis: i64,
    pub requested_date_millis: i64,
    pub requested_amount: u64,
    pub installments: u32,
    pub debit_service_percentage: u32,
    pub mdr: u64,
    pub tac_percentage: u64,
    pub iof_overall: u64,
    pub iof_percentage: u64,
    pub interest_rate: u64,
    pub min_installment_amount: u64,
    pub max_total_amount: u64,
    pub disbursement_only_on_business_days: bool,
}

/// A request with every field at its default.
pub open spec fn empty_plan_params() -> PlanParams {
    PlanParams {
        first_payment_date_millis: 0,
        requested_date_millis: 0,
        requested_amount: 0,
        installments: 0,
        debit_service_percentage: 0,
        mdr: 0,
        tac_percentage: 0,
        iof_overall: 0,
        iof_percentage: 0,
        interest_rate: 0,
        min_installment_amount: 0,
        max_total_amount: 0,
        disbursement_only_on_business_days: false,
    }
}

/// The signed reading of a 64-bit value, as a cast reinterprets it.
pub open spec fn int64_of(v: nat) -> i64 {
    if v >= 0x8000_0000_0000_0000 { (v - 0x1_0000_0000_0000_0000) as i64 } else { v as i64 }
}

fn int64_from_bits(v: u64) -> (r: i64)
    ensures
        r == int64_of(v as nat),
{
    if v >= 0x8000_0000_0000_0000 {
        (v - 0x8000_0000_0000_0000) as i64 - 0x4000_0000_0000_0000 - 0x4000_0000_0000_0000
    } else {
        v as i64
    }
}

/// The value and length of a payload of wire type `wt` at the front of `s`.
/// Length-delimited and 32-bit payloads are only measured; groups and
/// unknown wire types are refused.
pub open spec fn payload_at(s: Seq<u8>, wt: nat) -> Option<(nat, nat)> {
    if wt == 0 {
        varint_at(s)
    } else if wt == 1 {
        if s.len() >= 8 { Some((fixed64_value(s), 8nat)) } else { None }
    } else if wt == 2 {
        match varint_at(s) {
            Some((l, n)) => if n + l <= s.len() { Some((0nat, n + l)) } else { None },
            None => None,
        }
    } else if wt == 5 {
        if s.len() >= 4 { Some((0nat, 4nat)) } else { None }
    } else {
        None
    }
}

/// What a field with number `tag`, wire type `wt` and payload value `v` makes
/// of `p`: a known field takes the value, an unknown one leaves `p`, and a
/// known field with another wire type is refused.
#[verifier::opaque]
pub open spec fn apply_plan_field(p: PlanParams, tag: nat, wt: nat, v: nat) -> Option<PlanParams> {
    if false {
        None
    } else if tag == 1 {
        if wt != 0 { None } else { Some(PlanParams { first_payment_date_millis: int64_of(v), ..p }) }
    } else if tag == 2 {
        if wt != 0 { None } else { Some(PlanParams { requested_date_millis: int64_of(v), ..p }) }
    } else if tag == 3 {
        if wt != 1 { None } else { Some(PlanParams { requested_amount: v as u64, ..p }) }
    } else if tag == 4 {
        if wt != 0 { None } else { Some(PlanParams { installments: (v % 0x1_0000_0000) as u32, ..p }) }
    } else if tag == 5 {
        if wt != 0 { None } else { Some(PlanParams { debit_service_percentage: (v % 0x1_0000_0000) as u32, ..p }) }
    } else if tag == 6 {
        if wt != 1 { None } else { Some(PlanParams { mdr: v as u64, ..p }) }
    } else if tag == 7 {
        if wt != 1 { None } else { Some(PlanParams { tac_percentage: v as u64, ..p }) }
    } else if tag == 8 {
        if wt != 1 { None } else { Some(PlanParams { iof_overall: v as u64, ..p }) }
    } else if tag == 9 {
        if wt != 1 { None } else { Some(PlanParams { iof_percentage: v as u64, ..p }) }
    } else if tag == 10 {
        if wt != 1 { None } else { Some(PlanParams { interest_rate: v as u64, ..p }) }
    } else if tag == 11 {
        if wt != 1 { None } else { Some(PlanParams { min_installment_amount: v as u64, ..p }) }
    } else if tag == 12 {
        if wt != 1 { None } else { Some(PlanParams { max_total_amount: v as u64, ..p }) }
    } else if tag == 13 {
        if wt != 0 { None } else { Some(PlanParams { disbursement_only_on_business_days: v != 0, ..p }) }
    } else {
        Some(p)
    }
}

/// Decodes the fields of `s` into `p`, in order; `None` where the bytes are
/// not a well-formed message.
#[verifier::opaque]
pub open spec fn parse_plan_params(s: Seq<u8>, p: PlanParams) -> Option<PlanParams>
    decreases s.len(),
{
    if s.len() == 0 {
        Some(p)
    } else {
        match varint_at(s) {
            None => None,
            Some((key, kn)) => {
                if key > 0xFFFF_FFFF || key / 8 == 0 || kn < 1 || kn > s.len() {
                    None
                } else {
                    let rest = s.skip(kn as int);
                    match payload_at(rest, key % 8) {
                        None => None,
                        Some((v, n)) => {
                            if n > rest.len() {
                                None
                            } else {
                                match apply_plan_field(p, key / 8, key % 8, v) {
                                    None => None,
                                    Some(q) => parse_plan_params(rest.skip(n as int), q),
                                }
                            }
                        },
                    }
                }
            },
        }
    }
}

/// The bytes are not a well-formed request.
#[derive(Clone, Copy, Debug, PartialEq, Eq, Structural)]
pub struct DecodeError;

/// Reads the payload of wire type `wt` that starts at `pos`: its value and
/// its length.
fn read_payload(buf: &[u8], pos: usize, wt: u64) -> (r: Option<(u64, usize)>)
    requires
        pos <= buf@.len(),
    ensures
        match payload_at(buf@.skip(pos as int), wt as nat) {
            Some((v, n)) => r == Some((v as u64, n as usize)) && v < 0x1_0000_0000_0000_0000 && pos
                + n <= buf@.len(),
            None => r is None,
        },
{
    let ghost rest = buf@.skip(pos as int);
    proof {
        lemma_varint_len_bounds(rest, 0);
    }
    if wt == 0 {
        decode_varint_at(buf, pos)
    } else if wt == 1 {
        if buf.len() - pos >= 8 {
            Some((read_fixed64(buf, pos), 8))
        } else {
            None
        }
    } else if wt == 2 {
        match decode_varint_at(buf, pos) {
            Some((l, ln)) => {
                if l <= (buf.len() - pos - ln) as u64 {
                    Some((0, ln + l as usize))
                } else {
                    None
                }
            },
            None => None,
        }
    } else if wt == 5 {
        if buf.len() - pos >= 4 {
            Some((0, 4))
        } else {
            None
        }
    } else {
        None
    }
}

/// The field's effect on a plan request, as `apply_plan_field` states it.
fn apply_field(start: PlanParams, tag: u64, wt: u64, v: u64) -> (r: Option<PlanParams>)
    ensures
        r == apply_plan_field(start, tag as nat, wt as nat, v as nat),
{
    reveal(apply_plan_field);
    let mut p = start;
    if tag == 1 {
        if wt != 0 {
            return None;
        }
        p.first_payment_date_millis = int64_from_bits(v);
    } else if tag == 2 {
        if wt != 0 {
            return None;
        }
        p.requested_date_millis = int64_from_bits(v);
    } else if tag == 3 {
        if wt != 1 {
            return None;
        }
        p.requested_amount = v;
    } else if tag == 4 {
        if wt != 0 {
            return None;
        }
        p.installments = (v % 0x1_0000_0000) as u32;
    } else if tag == 5 {
        if wt != 0 {
            return None;
        }
        p.debit_service_percentage = (v % 0x1_0000_0000) as u32;
    } else if tag == 6 {
        if wt != 1 {
            return None;
        }
        p.mdr = v;
    } else if tag == 7 {
        if wt != 1 {
            return None;
        }
        p.tac_percentage = v;
    } else if tag == 8 {
        if wt != 1 {
            return None;
        }
        p.iof_overall = v;
    } else if tag == 9 {
        if wt != 1 {
            return None;
        }
        p.iof_percentage = v;
    } else if tag == 10 {
        if wt != 1 {
            return None;
        }
        p.interest_rate = v;
    } else if tag == 11 {
        if wt != 1 {
            return None;
        }
        p.min_installment_amount = v;
    } else if tag == 12 {
        if wt != 1 {
            return None;
        }
        p.max_total_amount = v;
    } else if tag == 13 {
        if wt != 0 {
            return None;
        }
        p.disbursement_only_on_business_days = v != 0;
    }
    Some(p)
}

proof fn lemma_parse_plan_step(s: Seq<u8>, p: PlanParams, key: nat, kn: nat, v: nat, n: nat)
    requires
        s.len() > 0,
        varint_at(s) == Some((key, kn)),
        key <= 0xFFFF_FFFF,
        key / 8 != 0,
        1 <= kn <= s.len(),
        payload_at(s.skip(kn as int), key % 8) == Some((v, n)),
        n <= s.len() - kn,
    ensures
        parse_plan_params(s, p) == match apply_plan_field(p, key / 8, key % 8, v) {
            None => None,
            Some(q) => parse_plan_params(s.skip(kn as int).skip(n as int), q),
        },
{
    reveal_with_fuel(parse_plan_params, 1);
}

proof fn lemma_parse_plan_fails(s: Seq<u8>, p: PlanParams)
    requires
        s.len() > 0,
        match varint_at(s) {
            None => true,
            Some((key, kn)) => key > 0xFFFF_FFFF || key / 8 == 0 || payload_at(s.skip(kn as int), key % 8) is None,
        },
    ensures
        parse_plan_params(s, p) is None,
{
    reveal_with_fuel(parse_plan_params, 1);
}

proof fn lemma_parse_plan_empty(s: Seq<u8>, p: PlanParams)
    requires
        s.len() == 0,
    ensures
        parse_plan_params(s, p) == Some(p),
{
    reveal_with_fuel(parse_plan_params, 1);
}

/// Decodes a plan request.
pub fn deserialize_params(buf: &[u8]) -> (r: Result<PlanParams, DecodeError>)
    ensures
        match parse_plan_params(buf@, empty_plan_params()) {
            Some(p) => r == Ok::<PlanParams, DecodeError>(p),
            None => r is Err,
        },
{
    let p = PlanParams {
        first_payment_date_millis: 0,
        requested_date_millis: 0,
        requested_amount: 0,
        installments: 0,
        debit_service_percentage: 0,
        mdr: 0,
        tac_percentage: 0,
        iof_overall: 0,
        iof_percentage: 0,
        interest_rate: 0,
        min_installment_amount: 0,
        max_total_amount: 0,
        disbursement_only_on_business_days: false,
    };
    merge_plan_params(buf, p)
}

/// Decodes the fields of `buf` over `p`: fields present replace those of `p`.
fn merge_plan_params(buf: &[u8], start: PlanParams) -> (r: Result<PlanParams, DecodeError>)
    ensures
        match parse_plan_params(buf@, start) {
            Some(p) => r == Ok::<PlanParams, DecodeError>(p),
            None => r is Err,
        },
{
    let mut p = start;
    let mut pos: usize = 0;
    assert(buf@.skip(0) =~= buf@);
    while pos < buf.len()
        invariant
            pos <= buf@.len(),
            parse_plan_params(buf@, start) == parse_plan_params(buf@.skip(pos as int), p),
        decreases buf@.len() - pos,
    {
        let ghost s = buf@.skip(pos as int);
        proof {
            lemma_varint_len_bounds(s, 0);
        }
        let (key, kn) = match decode_varint_at(buf, pos) {
            Some(x) => x,
            None => {
                proof {
                    lemma_parse_plan_fails(s, p);
                }
                return Err(DecodeError);
            },
        };
        if key > 0xFFFF_FFFF || key / 8 == 0 {
            proof {
                lemma_parse_plan_fails(s, p);
            }
            return Err(DecodeError);
        }
        let wt = key % 8;
        let tag = key / 8;
        let kpos = pos + kn;
        let ghost rest = s.skip(kn as int);
        assert(rest =~= buf@.skip(kpos as int));
        proof {
            lemma_varint_len_bounds(rest, 0);
        }
        let (v, n) = match read_payload(buf, kpos, wt) {
            Some(x) => x,
            None => {
                proof {
                    lemma_parse_plan_fails(s, p);
                }
                return Err(DecodeError);
            },
        };
        proof {
            lemma_parse_plan_step(s, p, key as nat, kn as nat, v as nat, n as nat);
        }
        p = match apply_field(p, tag, wt, v) {
            Some(q) => q,
            None => return Err(DecodeError),
        };
        assert(rest.skip(n as int) =~= buf@.skip((kpos + n) as int));
        pos = kpos + n;
    }
    proof {
        lemma_parse_plan_empty(buf@.skip(pos as int), p);
    }
    Ok(p)
}


/// A down-payment request as it travels on the wire: the main contract's
/// request, and the down payment's own first date, amount, floor and count.
#[derive(Clone, Copy, Debug, PartialEq, Eq, Structural)]
pub struct DownPaymentParams {
    pub params: Option<PlanParams>,
    pub first_payment_date_millis: i64,
    pub requested_amount: u64,
    pub min_installment_amount: u64,
    pub installments: u32,
}

/// A down-payment request with every field at its default.
pub open spec fn empty_down_payment_params() -> DownPaymentParams {
    DownPaymentParams {
        params: None,
        first_payment_date_millis: 0,
        requested_amount: 0,
        min_installment_amount: 0,
        installments: 0,
    }
}

/// The bytes of the length-delimited payload at the front of `s`.
pub open spec fn delimited_bytes(s: Seq<u8>) -> Seq<u8> {
    match varint_at(s) {
        Some((l, n)) => s.subrange(n as int, (n + l) as int),
        None => seq![],
    }
}

/// What a field makes of a down-payment request. The nested request is
/// merged into the one already read, as repeated message fields merge.
#[verifier::opaque]
pub open spec fn apply_down_payment_field(
    d: DownPaymentParams,
    tag: nat,
    wt: nat,
    v: nat,
    payload: Seq<u8>,
) -> Option<DownPaymentParams> {
    if tag == 1 {
        if wt != 2 {
            None
        } else {
            let base = match d.params {
                Some(p) => p,
                None => empty_plan_params(),
            };
            match parse_plan_params(payload, base) {
                Some(p) => Some(DownPaymentParams { params: Some(p), ..d }),
                None => None,
            }
        }
    } else if tag == 2 {
        if wt != 0 { None } else { Some(DownPaymentParams { first_payment_date_millis: int64_of(v), ..d }) }
    } else if tag == 3 {
        if wt != 1 { None } else { Some(DownPaymentParams { requested_amount: v as u64, ..d }) }
    } else if tag == 4 {
        if wt != 1 { None } else { Some(DownPaymentParams { min_installment_amount: v as u64, ..d }) }
    } else if tag == 5 {
        if wt != 0 { None } else { Some(DownPaymentParams { installments: (v % 0x1_0000_0000) as u32, ..d }) }
    } else {
        Some(d)
    }
}

/// Decodes the fields of `s` into `d`, in order; `None` where the bytes are
/// not a well-formed message.
#[verifier::opaque]
pub open spec fn parse_down_payment_params(s: Seq<u8>, d: DownPaymentParams) -> Option<DownPaymentParams>
    decreases s.len(),
{
    if s.len() == 0 {
        Some(d)
    } else {
        match varint_at(s) {
            None => None,
            Some((key, kn)) => {
                if key > 0xFFFF_FFFF || key / 8 == 0 || kn < 1 || kn > s.len() {
                    None
                } else {
                    let rest = s.skip(kn as int);
                    match payload_at(rest, key % 8) {
                        None => None,
                        Some((v, n)) => {
                            if n > rest.len() {
                                None
                            } else {
                                match apply_down_payment_field(
                                    d,
                                    key / 8,
                                    key % 8,
                                    v,
                                    if key % 8 == 2 { delimited_bytes(rest) } else { seq![] },
                                ) {
                                    None => None,
                                    Some(q) => parse_down_payment_params(rest.skip(n as int), q),
                                }
                            }
                        },
                    }
                }
            },
        }
    }
}

/// The field's effect on a down-payment request, as
/// `apply_down_payment_field` states it.
fn apply_down_payment(start: DownPaymentParams, tag: u64, wt: u64, v: u64, payload: &[u8]) -> (r: Result<
    DownPaymentParams,
    DecodeError,
>)
    ensures
        match apply_down_payment_field(start, tag as nat, wt as nat, v as nat, payload@) {
            Some(d) => r == Ok::<DownPaymentParams, DecodeError>(d),
            None => r is Err,
        },
{
    reveal(apply_down_payment_field);
    let mut d = start;
    if tag == 1 {
        if wt != 2 {
            return Err(DecodeError);
        }
        let base = match d.params {
            Some(p) => p,
            None => PlanParams {
                first_payment_date_millis: 0,
                requested_date_millis: 0,
                requested_amount: 0,
                installments: 0,
                debit_service_percentage: 0,
                mdr: 0,
                tac_percentage: 0,
                iof_overall: 0,
                iof_percentage: 0,
                interest_rate: 0,
                min_installment_amount: 0,
                max_total_amount: 0,
                disbursement_only_on_business_days: false,
            },
        };
        let p = merge_plan_params(payload, base)?;
        d.params = Some(p);
    } else if tag == 2 {
        if wt != 0 {
            return Err(DecodeError);
        }
        d.first_payment_date_millis = int64_from_bits(v);
    } else if tag == 3 {
        if wt != 1 {
            return Err(DecodeError);
        }
        d.requested_amount = v;
    } else if tag == 4 {
        if wt != 1 {
            return Err(DecodeError);
        }
        d.min_installment_amount = v;
    } else if tag == 5 {
        if wt != 0 {
            return Err(DecodeError);
        }
        d.installments = (v % 0x1_0000_0000) as u32;
    }
    Ok(d)
}

proof fn lemma_parse_down_payment_step(s: Seq<u8>, d: DownPaymentParams, key: nat, kn: nat, v: nat, n: nat)
    requires
        s.len() > 0,
        varint_at(s) == Some((key, kn)),
        key <= 0xFFFF_FFFF,
        key / 8 != 0,
        1 <= kn <= s.len(),
        payload_at(s.skip(kn as int), key % 8) == Some((v, n)),
        n <= s.len() - kn,
    ensures
        parse_down_payment_params(s, d) == match apply_down_payment_field(
            d,
            key / 8,
            key % 8,
            v,
            if key % 8 == 2 { delimited_bytes(s.skip(kn as int)) } else { seq![] },
        ) {
            None => None,
            Some(q) => parse_down_payment_params(s.skip(kn as int).skip(n as int), q),
        },
{
    reveal_with_fuel(parse_down_payment_params, 1);
}

proof fn lemma_parse_down_payment_fails(s: Seq<u8>, d: DownPaymentParams)
    requires
        s.len() > 0,
        match varint_at(s) {
            None => true,
            Some((key, kn)) => key > 0xFFFF_FFFF || key / 8 == 0 || payload_at(s.skip(kn as int), key % 8) is None,
        },
    ensures
        parse_down_payment_params(s, d) is None,
{
    reveal_with_fuel(parse_down_payment_params, 1);
}

proof fn lemma_parse_down_payment_empty(s: Seq<u8>, d: DownPaymentParams)
    requires
        s.len() == 0,
    ensures
        parse_down_payment_params(s, d) == Some(d),
{
    reveal_with_fuel(parse_down_payment_params, 1);
}

/// Decodes a down-payment request.
pub fn deserialize_down_payment_params(buf: &[u8]) -> (r: Result<DownPaymentParams, DecodeError>)
    ensures
        match parse_down_payment_params(buf@, empty_down_payment_params()) {
            Some(d) => r == Ok::<DownPaymentParams, DecodeError>(d),
            None => r is Err,
        },
{
    let mut d = DownPaymentParams {
        params: None,
        first_payment_date_millis: 0,
        requested_amount: 0,
        min_installment_amount: 0,
        installments: 0,
    };
    let ghost start = d;
    let mut pos: usize = 0;
    assert(buf@.skip(0) =~= buf@);
    while pos < buf.len()
        invariant
            pos <= buf@.len(),
            start == empty_down_payment_params(),
            parse_down_payment_params(buf@, start) == parse_down_payment_params(buf@.skip(pos as int), d),
        decreases buf@.len() - pos,
    {
        let ghost s = buf@.skip(pos as int);
        proof {
            lemma_varint_len_bounds(s, 0);
        }
        let (key, kn) = match decode_varint_at(buf, pos) {
            Some(x) => x,
            None => {
                proof {
                    lemma_parse_down_payment_fails(s, d);
                }
                return Err(DecodeError);
            },
        };
        if key > 0xFFFF_FFFF || key / 8 == 0 {
            proof {
                lemma_parse_down_payment_fails(s, d);
            }
            return Err(DecodeError);
        }
        let wt = key % 8;
        let tag = key / 8;
        let kpos = pos + kn;
        let ghost rest = s.skip(kn as int);
        assert(rest =~= buf@.skip(kpos as int));
        proof {
            lemma_varint_len_bounds(rest, 0);
        }
        let (v, n) = match read_payload(buf, kpos, wt) {
            Some(x) => x,
            None => {
                proof {
                    lemma_parse_down_payment_fails(s, d);
                }
                return Err(DecodeError);
            },
        };
        proof {
            lemma_parse_down_payment_step(s, d, key as nat, kn as nat, v as nat, n as nat);
        }
        let payload = if wt == 2 {
            let ln = match decode_varint_at(buf, kpos) {
                Some((_, ln)) => ln,
                None => 0,
            };
            vstd::slice::slice_subrange(buf, kpos + ln, kpos + n)
        } else {
            vstd::slice::slice_subrange(buf, 0, 0)
        };
        assert(payload@ =~= if wt == 2 { delimited_bytes(rest) } else { seq![] });
        d = apply_down_payment(d, tag, wt, v, payload)?;
        assert(rest.skip(n as int) =~= buf@.skip((kpos + n) as int));
        pos = kpos + n;
    }
    proof {
        lemma_parse_down_payment_empty(buf@.skip(pos as int), d);
    }
    Ok(d)
}

} // verus!
