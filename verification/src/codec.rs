use vstd::prelude::*;

use crate::cost::{CostBreakdown, CostInfo};
use crate::meter::{RecordStatus, UsageRecord};
use crate::text;

verus! {

/// Literal segment `{\"id\":` of the wire form.
pub open spec fn lit_obj_id() -> Seq<u8> {
    seq![123u8, 34u8, 105u8, 100u8, 34u8, 58u8]
}

/// Literal segment `,\"request_id\":` of the wire form.
pub open spec fn lit_req_id() -> Seq<u8> {
    seq![44u8, 34u8, 114u8, 101u8, 113u8, 117u8, 101u8, 115u8, 116u8, 95u8, 105u8, 100u8, 34u8, 58u8]
}

/// Literal segment `,\"service_id\":` of the wire form.
pub open spec fn lit_svc_id() -> Seq<u8> {
    seq![44u8, 34u8, 115u8, 101u8, 114u8, 118u8, 105u8, 99u8, 101u8, 95u8, 105u8, 100u8, 34u8, 58u8]
}

/// Literal segment `,\"consumer_id\":` of the wire form.
pub open spec fn lit_con_id() -> Seq<u8> {
    seq![44u8, 34u8, 99u8, 111u8, 110u8, 115u8, 117u8, 109u8, 101u8, 114u8, 95u8, 105u8, 100u8, 34u8, 58u8]
}

/// Literal segment `,\"timestamp\":` of the wire form.
pub open spec fn lit_ts() -> Seq<u8> {
    seq![44u8, 34u8, 116u8, 105u8, 109u8, 101u8, 115u8, 116u8, 97u8, 109u8, 112u8, 34u8, 58u8]
}

/// Literal segment `,\"duration_ms\":` of the wire form.
pub open spec fn lit_dur() -> Seq<u8> {
    seq![44u8, 34u8, 100u8, 117u8, 114u8, 97u8, 116u8, 105u8, 111u8, 110u8, 95u8, 109u8, 115u8, 34u8, 58u8]
}

/// Literal segment `,\"usage\":{\"prompt_tokens\":` of the wire form.
pub open spec fn lit_usage() -> Seq<u8> {
    seq![44u8, 34u8, 117u8, 115u8, 97u8, 103u8, 101u8, 34u8, 58u8, 123u8, 34u8, 112u8, 114u8, 111u8, 109u8, 112u8, 116u8, 95u8, 116u8, 111u8, 107u8, 101u8, 110u8, 115u8, 34u8, 58u8]
}

/// Literal segment `,\"completion_tokens\":` of the wire form.
pub open spec fn lit_completion() -> Seq<u8> {
    seq![44u8, 34u8, 99u8, 111u8, 109u8, 112u8, 108u8, 101u8, 116u8, 105u8, 111u8, 110u8, 95u8, 116u8, 111u8, 107u8, 101u8, 110u8, 115u8, 34u8, 58u8]
}

/// Literal segment `,\"total_tokens\":` of the wire form.
pub open spec fn lit_total() -> Seq<u8> {
    seq![44u8, 34u8, 116u8, 111u8, 116u8, 97u8, 108u8, 95u8, 116u8, 111u8, 107u8, 101u8, 110u8, 115u8, 34u8, 58u8]
}

/// Literal segment `},\"cost\":{\"amount_micros\":` of the wire form.
pub open spec fn lit_cost() -> Seq<u8> {
    seq![125u8, 44u8, 34u8, 99u8, 111u8, 115u8, 116u8, 34u8, 58u8, 123u8, 34u8, 97u8, 109u8, 111u8, 117u8, 110u8, 116u8, 95u8, 109u8, 105u8, 99u8, 114u8, 111u8, 115u8, 34u8, 58u8]
}

/// Literal segment `,\"currency\":\"` of the wire form.
pub open spec fn lit_currency() -> Seq<u8> {
    seq![44u8, 34u8, 99u8, 117u8, 114u8, 114u8, 101u8, 110u8, 99u8, 121u8, 34u8, 58u8, 34u8]
}

/// Literal segment `,\"breakdown\":{\"kind\":` of the wire form.
pub open spec fn lit_breakdown() -> Seq<u8> {
    seq![44u8, 34u8, 98u8, 114u8, 101u8, 97u8, 107u8, 100u8, 111u8, 119u8, 110u8, 34u8, 58u8, 123u8, 34u8, 107u8, 105u8, 110u8, 100u8, 34u8, 58u8]
}

/// Literal segment `,\"prompt_tokens\":` of the wire form.
pub open spec fn lit_b_prompt() -> Seq<u8> {
    seq![44u8, 34u8, 112u8, 114u8, 111u8, 109u8, 112u8, 116u8, 95u8, 116u8, 111u8, 107u8, 101u8, 110u8, 115u8, 34u8, 58u8]
}

/// Literal segment `,\"completion_tokens\":` of the wire form.
pub open spec fn lit_b_completion() -> Seq<u8> {
    seq![44u8, 34u8, 99u8, 111u8, 109u8, 112u8, 108u8, 101u8, 116u8, 105u8, 111u8, 110u8, 95u8, 116u8, 111u8, 107u8, 101u8, 110u8, 115u8, 34u8, 58u8]
}

/// Literal segment `,\"total_tokens\":` of the wire form.
pub open spec fn lit_b_total() -> Seq<u8> {
    seq![44u8, 34u8, 116u8, 111u8, 116u8, 97u8, 108u8, 95u8, 116u8, 111u8, 107u8, 101u8, 110u8, 115u8, 34u8, 58u8]
}

/// Literal segment `,\"rate_micros\":` of the wire form.
pub open spec fn lit_b_rate() -> Seq<u8> {
    seq![44u8, 34u8, 114u8, 97u8, 116u8, 101u8, 95u8, 109u8, 105u8, 99u8, 114u8, 111u8, 115u8, 34u8, 58u8]
}

/// Literal segment `,\"requests\":` of the wire form.
pub open spec fn lit_b_requests() -> Seq<u8> {
    seq![44u8, 34u8, 114u8, 101u8, 113u8, 117u8, 101u8, 115u8, 116u8, 115u8, 34u8, 58u8]
}

/// Literal segment `}},\"status\":\"` of the wire form.
pub open spec fn lit_status() -> Seq<u8> {
    seq![125u8, 125u8, 44u8, 34u8, 115u8, 116u8, 97u8, 116u8, 117u8, 115u8, 34u8, 58u8, 34u8]
}

/// Literal segment `,\"error\":` of the wire form.
pub open spec fn lit_err_field() -> Seq<u8> {
    seq![44u8, 34u8, 101u8, 114u8, 114u8, 111u8, 114u8, 34u8, 58u8]
}

/// Literal segment `success\"` of the wire form.
pub open spec fn lit_success() -> Seq<u8> {
    seq![115u8, 117u8, 99u8, 99u8, 101u8, 115u8, 115u8, 34u8]
}

/// Literal segment `error\"` of the wire form.
pub open spec fn lit_error_word() -> Seq<u8> {
    seq![101u8, 114u8, 114u8, 111u8, 114u8, 34u8]
}

/// Literal segment `null` of the wire form.
pub open spec fn lit_null_word() -> Seq<u8> {
    seq![110u8, 117u8, 108u8, 108u8]
}

/// Literal segment `}` of the wire form.
pub open spec fn lit_close() -> Seq<u8> {
    seq![125u8]
}

/// The wire form of one byte inside a JSON string: quotes and backslashes
/// are escaped with a backslash, every other byte passes through.
pub open spec fn spec_esc_byte(b: u8) -> Seq<u8> {
    if b == 34 || b == 92 {
        seq![92u8, b]
    } else {
        seq![b]
    }
}

/// The wire form of a byte string inside a JSON string.
pub open spec fn spec_escape(s: Seq<u8>) -> Seq<u8>
    decreases s.len(),
{
    if s.len() == 0 {
        Seq::empty()
    } else {
        spec_escape(s.drop_last()) + spec_esc_byte(s.last())
    }
}

/// Append the escaped bytes of `s` to `out`.
#[verifier::loop_isolation(false)]
fn push_escaped(out: &mut Vec<u8>, s: &[u8])
    ensures
        final(out)@ == old(out)@ + spec_escape(s@),
{
    let mut i: usize = 0;
    proof {
        assert(s@.subrange(0, 0) =~= Seq::<u8>::empty());
        assert(out@ =~= out@ + spec_escape(s@.subrange(0, 0)));
    }
    while i < s.len()
        invariant
            i <= s@.len(),
            out@ == old(out)@ + spec_escape(s@.subrange(0, i as int)),
        decreases s@.len() - i,
    {
        let b: u8 = s[i];
        if b == 34 || b == 92 {
            out.push(92);
            out.push(b);
        } else {
            out.push(b);
        }
        proof {
            assert(s@.subrange(0, i + 1 as int).drop_last() =~= s@.subrange(0, i as int));
            assert(s@.subrange(0, i + 1 as int).last() == s@[i as int]);
            assert(out@ =~= old(out)@ + spec_escape(s@.subrange(0, i + 1 as int)));
        }
        i = i + 1;
    }
    proof {
        assert(s@.subrange(0, s@.len() as int) =~= s@);
    }
}

/// Escaping a concatenation escapes the parts in order.
proof fn lemma_escape_append(x: Seq<u8>, y: Seq<u8>)
    ensures
        spec_escape(x + y) == spec_escape(x) + spec_escape(y),
    decreases y.len(),
{
    if y.len() == 0 {
        assert(x + y =~= x);
        assert(spec_escape(x) + spec_escape(y) =~= spec_escape(x));
    } else {
        assert((x + y).drop_last() =~= x + y.drop_last());
        assert((x + y).last() == y.last());
        lemma_escape_append(x, y.drop_last());
        assert(spec_escape(x + y)
            == (spec_escape(x) + spec_escape(y.drop_last())) + spec_esc_byte(y.last()));
        assert((spec_escape(x) + spec_escape(y.drop_last())) + spec_esc_byte(y.last())
            =~= spec_escape(x) + (spec_escape(y.drop_last()) + spec_esc_byte(y.last())));
    }
}

/// Numeric encoding of a cost breakdown: its kind and the five numeric
/// fields, absent fields written as zero.
pub open spec fn bd_kind(b: CostBreakdown) -> u64 {
    match b {
        CostBreakdown::PerToken { .. } => 0,
        CostBreakdown::PerRequest { .. } => 1,
        CostBreakdown::Subscription => 2,
        CostBreakdown::UnknownModel => 3,
    }
}

/// Prompt tokens recorded in a breakdown.
pub open spec fn bd_prompt(b: CostBreakdown) -> u64 {
    match b {
        CostBreakdown::PerToken { prompt_tokens, .. } => prompt_tokens as u64,
        _ => 0,
    }
}

/// Completion tokens recorded in a breakdown.
pub open spec fn bd_completion(b: CostBreakdown) -> u64 {
    match b {
        CostBreakdown::PerToken { completion_tokens, .. } => completion_tokens as u64,
        _ => 0,
    }
}

/// Total tokens recorded in a breakdown.
pub open spec fn bd_total(b: CostBreakdown) -> u64 {
    match b {
        CostBreakdown::PerToken { total_tokens, .. } => total_tokens as u64,
        _ => 0,
    }
}

/// The rate recorded in a breakdown.
pub open spec fn bd_rate(b: CostBreakdown) -> u64 {
    match b {
        CostBreakdown::PerToken { rate_micros_per_token, .. } => rate_micros_per_token,
        CostBreakdown::PerRequest { rate_micros_per_request, .. } => rate_micros_per_request,
        _ => 0,
    }
}

/// The request count recorded in a breakdown.
pub open spec fn bd_requests(b: CostBreakdown) -> u64 {
    match b {
        CostBreakdown::PerRequest { requests, .. } => requests as u64,
        _ => 0,
    }
}

/// The wire form of a record status, with the string's closing quote.
pub open spec fn spec_status_bytes(s: RecordStatus) -> Seq<u8> {
    match s {
        RecordStatus::Success => lit_success(),
        RecordStatus::Error => lit_error_word(),
    }
}

/// Decimal digits of `n`.
pub open spec fn dec(n: nat) -> Seq<u8> {
    text::spec_dec_digits(n)
}

/// The wire form of the error field: `null`, or the escaped message in
/// quotes.
pub open spec fn spec_error_bytes(e: Option<Seq<char>>) -> Seq<u8> {
    match e {
        None => lit_null_word(),
        Some(msg) => seq![34u8] + spec_escape(vstd::utf8::encode_utf8(msg)) + seq![34u8],
    }
}


/// First part of the wire form: identifiers, times and token counts.
pub open spec fn spec_record_head(rec: UsageRecord) -> Seq<u8> {
    lit_obj_id() + dec(rec.id as nat)
        + lit_req_id() + dec(rec.request_id as nat)
        + lit_svc_id() + dec(rec.service_id as nat)
        + lit_con_id() + dec(rec.consumer_id as nat)
        + lit_ts() + dec(rec.timestamp as nat)
        + lit_dur() + dec(rec.duration_ms as nat)
        + lit_usage() + dec(rec.usage.prompt_tokens as nat)
        + lit_completion() + dec(rec.usage.completion_tokens as nat)
        + lit_total() + dec(rec.usage.total_tokens as nat)
        + lit_cost() + dec(rec.cost.amount_micros as nat)
}

/// Second part of the wire form: currency and the flattened breakdown.
pub open spec fn spec_record_mid(rec: UsageRecord) -> Seq<u8> {
    lit_currency() + spec_escape(vstd::utf8::encode_utf8(rec.cost.currency@)) + seq![34u8]
        + lit_breakdown() + dec(bd_kind(rec.cost.breakdown) as nat)
        + lit_b_prompt() + dec(bd_prompt(rec.cost.breakdown) as nat)
        + lit_b_completion() + dec(bd_completion(rec.cost.breakdown) as nat)
        + lit_b_total() + dec(bd_total(rec.cost.breakdown) as nat)
        + lit_b_rate() + dec(bd_rate(rec.cost.breakdown) as nat)
        + lit_b_requests() + dec(bd_requests(rec.cost.breakdown) as nat)
}

/// Third part of the wire form: status and the optional error message.
pub open spec fn spec_record_tail(rec: UsageRecord) -> Seq<u8> {
    lit_status() + spec_status_bytes(rec.status)
        + lit_err_field() + spec_error_bytes(match rec.error {
            Some(msg) => Some(msg@),
            None => None,
        })
        + lit_close()
}

/// The canonical JSON text of a usage record, as bytes: every field in a
/// fixed order, numbers in plain decimal, strings escaped, the breakdown
/// flattened to its kind and numeric fields.
pub open spec fn spec_record_bytes(rec: UsageRecord) -> Seq<u8> {
    spec_record_head(rec) + spec_record_mid(rec) + spec_record_tail(rec)
}

#[verifier::loop_isolation(false)]
#[verifier::rlimit(100)]
#[verifier::spinoff_prover]
fn push_record_head_ids(out: &mut Vec<u8>, rec: &UsageRecord)
    ensures
        final(out)@ == old(out)@ + (lit_obj_id() + dec(rec.id as nat)
            + lit_req_id() + dec(rec.request_id as nat)
            + lit_svc_id() + dec(rec.service_id as nat)
            + lit_con_id() + dec(rec.consumer_id as nat)
            + lit_ts() + dec(rec.timestamp as nat)
            + lit_dur() + dec(rec.duration_ms as nat)),
{
    {
    let l: Vec<u8> = vec![123, 34, 105, 100, 34, 58];
    proof { assert(l@ =~= lit_obj_id()); }
    out.extend_from_slice(l.as_slice());
    }
    text::push_dec_u128(out, rec.id);
    {
    let l: Vec<u8> = vec![44, 34, 114, 101, 113, 117, 101, 115, 116, 95, 105, 100, 34, 58];
    proof { assert(l@ =~= lit_req_id()); }
    out.extend_from_slice(l.as_slice());
    }
    text::push_dec_u128(out, rec.request_id);
    {
    let l: Vec<u8> = vec![44, 34, 115, 101, 114, 118, 105, 99, 101, 95, 105, 100, 34, 58];
    proof { assert(l@ =~= lit_svc_id()); }
    out.extend_from_slice(l.as_slice());
    }
    text::push_dec_u128(out, rec.service_id);
    {
    let l: Vec<u8> = vec![44, 34, 99, 111, 110, 115, 117, 109, 101, 114, 95, 105, 100, 34, 58];
    proof { assert(l@ =~= lit_con_id()); }
    out.extend_from_slice(l.as_slice());
    }
    text::push_dec_u128(out, rec.consumer_id);
    {
    let l: Vec<u8> = vec![44, 34, 116, 105, 109, 101, 115, 116, 97, 109, 112, 34, 58];
    proof { assert(l@ =~= lit_ts()); }
    out.extend_from_slice(l.as_slice());
    }
    text::push_dec_u64(out, rec.timestamp);
    {
    let l: Vec<u8> = vec![44, 34, 100, 117, 114, 97, 116, 105, 111, 110, 95, 109, 115, 34, 58];
    proof { assert(l@ =~= lit_dur()); }
    out.extend_from_slice(l.as_slice());
    }
    text::push_dec_u64(out, rec.duration_ms as u64);
}

#[verifier::rlimit(100)]
#[verifier::spinoff_prover]
fn push_record_head(out: &mut Vec<u8>, rec: &UsageRecord)
    ensures
        final(out)@ == old(out)@ + spec_record_head(*rec),
{
    push_record_head_ids(out, rec);
    {
    let l: Vec<u8> = vec![44, 34, 117, 115, 97, 103, 101, 34, 58, 123, 34, 112, 114, 111, 109, 112, 116, 95, 116, 111, 107, 101, 110, 115, 34, 58];
    proof { assert(l@ =~= lit_usage()); }
    out.extend_from_slice(l.as_slice());
    }
    text::push_dec_u64(out, rec.usage.prompt_tokens as u64);
    {
    let l: Vec<u8> = vec![44, 34, 99, 111, 109, 112, 108, 101, 116, 105, 111, 110, 95, 116, 111, 107, 101, 110, 115, 34, 58];
    proof { assert(l@ =~= lit_completion()); }
    out.extend_from_slice(l.as_slice());
    }
    text::push_dec_u64(out, rec.usage.completion_tokens as u64);
    {
    let l: Vec<u8> = vec![44, 34, 116, 111, 116, 97, 108, 95, 116, 111, 107, 101, 110, 115, 34, 58];
    proof { assert(l@ =~= lit_total()); }
    out.extend_from_slice(l.as_slice());
    }
    text::push_dec_u64(out, rec.usage.total_tokens as u64);
    {
    let l: Vec<u8> = vec![125, 44, 34, 99, 111, 115, 116, 34, 58, 123, 34, 97, 109, 111, 117, 110, 116, 95, 109, 105, 99, 114, 111, 115, 34, 58];
    proof { assert(l@ =~= lit_cost()); }
    out.extend_from_slice(l.as_slice());
    }
    text::push_dec_u64(out, rec.cost.amount_micros);
}

#[verifier::loop_isolation(false)]
#[verifier::rlimit(100)]
#[verifier::spinoff_prover]
fn push_record_mid(out: &mut Vec<u8>, rec: &UsageRecord)
    ensures
        final(out)@ == old(out)@ + spec_record_mid(*rec),
{
    {
    let l: Vec<u8> = vec![44, 34, 99, 117, 114, 114, 101, 110, 99, 121, 34, 58, 34];
    proof { assert(l@ =~= lit_currency()); }
    out.extend_from_slice(l.as_slice());
    }
    let cbytes: Vec<u8> = rec.cost.currency.as_str().as_bytes_vec();
    push_escaped(out, cbytes.as_slice());
    let ghost g_esc = out@;
    out.push(34);
    proof {
        assert(out@ =~= g_esc + seq![34u8]);
    }
    let (kval, pval, cval, tval, rval, qval): (u64, u64, u64, u64, u64, u64) = match &rec.cost.breakdown {
        CostBreakdown::PerToken { prompt_tokens, completion_tokens, total_tokens, rate_micros_per_token } => (
            0,
            *prompt_tokens as u64,
            *completion_tokens as u64,
            *total_tokens as u64,
            *rate_micros_per_token,
            0,
        ),
        CostBreakdown::PerRequest { requests, rate_micros_per_request } => (
            1, 0, 0, 0, *rate_micros_per_request, *requests as u64,
        ),
        CostBreakdown::Subscription => (2, 0, 0, 0, 0, 0),
        CostBreakdown::UnknownModel => (3, 0, 0, 0, 0, 0),
    };
    {
    let l: Vec<u8> = vec![44, 34, 98, 114, 101, 97, 107, 100, 111, 119, 110, 34, 58, 123, 34, 107, 105, 110, 100, 34, 58];
    proof { assert(l@ =~= lit_breakdown()); }
    out.extend_from_slice(l.as_slice());
    }
    text::push_dec_u64(out, kval);
    {
    let l: Vec<u8> = vec![44, 34, 112, 114, 111, 109, 112, 116, 95, 116, 111, 107, 101, 110, 115, 34, 58];
    proof { assert(l@ =~= lit_b_prompt()); }
    out.extend_from_slice(l.as_slice());
    }
    text::push_dec_u64(out, pval);
    {
    let l: Vec<u8> = vec![44, 34, 99, 111, 109, 112, 108, 101, 116, 105, 111, 110, 95, 116, 111, 107, 101, 110, 115, 34, 58];
    proof { assert(l@ =~= lit_b_completion()); }
    out.extend_from_slice(l.as_slice());
    }
    text::push_dec_u64(out, cval);
    {
    let l: Vec<u8> = vec![44, 34, 116, 111, 116, 97, 108, 95, 116, 111, 107, 101, 110, 115, 34, 58];
    proof { assert(l@ =~= lit_b_total()); }
    out.extend_from_slice(l.as_slice());
    }
    text::push_dec_u64(out, tval);
    {
    let l: Vec<u8> = vec![44, 34, 114, 97, 116, 101, 95, 109, 105, 99, 114, 111, 115, 34, 58];
    proof { assert(l@ =~= lit_b_rate()); }
    out.extend_from_slice(l.as_slice());
    }
    text::push_dec_u64(out, rval);
    {
    let l: Vec<u8> = vec![44, 34, 114, 101, 113, 117, 101, 115, 116, 115, 34, 58];
    proof { assert(l@ =~= lit_b_requests()); }
    out.extend_from_slice(l.as_slice());
    }
    text::push_dec_u64(out, qval);
}

#[verifier::loop_isolation(false)]
#[verifier::rlimit(100)]
#[verifier::spinoff_prover]
fn push_record_tail(out: &mut Vec<u8>, rec: &UsageRecord)
    ensures
        final(out)@ == old(out)@ + spec_record_tail(*rec),
{
    {
    let l: Vec<u8> = vec![125, 125, 44, 34, 115, 116, 97, 116, 117, 115, 34, 58, 34];
    proof { assert(l@ =~= lit_status()); }
    out.extend_from_slice(l.as_slice());
    }
    match rec.status {
        RecordStatus::Success => {
    {
    let l: Vec<u8> = vec![115, 117, 99, 99, 101, 115, 115, 34];
    proof { assert(l@ =~= lit_success()); }
    out.extend_from_slice(l.as_slice());
    }
        },
        RecordStatus::Error => {
    {
    let l: Vec<u8> = vec![101, 114, 114, 111, 114, 34];
    proof { assert(l@ =~= lit_error_word()); }
    out.extend_from_slice(l.as_slice());
    }
        },
    }
    {
    let l: Vec<u8> = vec![44, 34, 101, 114, 114, 111, 114, 34, 58];
    proof { assert(l@ =~= lit_err_field()); }
    out.extend_from_slice(l.as_slice());
    }
    match &rec.error {
        None => {
    {
    let l: Vec<u8> = vec![110, 117, 108, 108];
    proof { assert(l@ =~= lit_null_word()); }
    out.extend_from_slice(l.as_slice());
    }
        },
        Some(msg) => {
            let ghost g_open = out@;
            out.push(34);
            proof {
                assert(out@ =~= g_open + seq![34u8]);
            }
            let ebytes: Vec<u8> = msg.as_str().as_bytes_vec();
            push_escaped(out, ebytes.as_slice());
            let ghost g_msg = out@;
            out.push(34);
            proof {
                assert(out@ =~= g_msg + seq![34u8]);
            }
        },
    }
    {
    let l: Vec<u8> = vec![125];
    proof { assert(l@ =~= lit_close()); }
    out.extend_from_slice(l.as_slice());
    }
}

/// Serialize a usage record to its canonical JSON text.
pub fn format_usage_record(rec: &UsageRecord) -> (r: Vec<u8>)
    ensures
        r@ == spec_record_bytes(*rec),
{
    let mut out: Vec<u8> = Vec::new();
    push_record_head(&mut out, rec);
    push_record_mid(&mut out, rec);
    push_record_tail(&mut out, rec);
    proof {
        assert(out@ =~= spec_record_bytes(*rec));
    }
    out
}


/// Match `lit` at position `i`.
#[verifier::loop_isolation(false)]
fn eat_lit(b: &[u8], i: usize, lit: &[u8]) -> (r: Option<usize>)
    requires
        i <= b@.len(),
    ensures
        r matches Some(j) ==> j == i + lit@.len() && i + lit@.len() <= b@.len()
            && b@.subrange(i as int, j as int) == lit@,
        i + lit@.len() <= b@.len() && b@.subrange(i as int, i + lit@.len()) == lit@
            ==> r == Some((i + lit@.len()) as usize),
{
    let n: usize = b.len();
    let m: usize = lit.len();
    if m > n - i {
        return None;
    }
    let mut k: usize = 0;
    while k < m
        invariant
            k <= m,
            i + m <= n,
            forall|t: int| 0 <= t < k ==> b@[i + t] == lit@[t],
        decreases m - k,
    {
        if b[i + k] != lit[k] {
            proof {
                if b@.subrange(i as int, i + m as int) == lit@ {
                    assert(b@.subrange(i as int, i + m as int)[k as int] == lit@[k as int]);
                }
            }
            return None;
        }
        k = k + 1;
    }
    proof {
        assert(b@.subrange(i as int, i + m as int) =~= lit@);
    }
    Some(i + m)
}

/// The value of a nonempty digit run with a nonzero leading digit is the
/// number whose canonical digits the run is.
proof fn lemma_canonical_digits(s: Seq<u8>)
    requires
        s.len() >= 1,
        forall|i: int| 0 <= i < s.len() ==> text::spec_is_digit(#[trigger] s[i]),
        s.len() > 1 ==> s[0] != 48,
    ensures
        s == text::spec_dec_digits(text::spec_dec_value(s)),
    decreases s.len(),
{
    let v = text::spec_dec_value(s);
    if s.len() == 1 {
        assert(s.drop_last() =~= Seq::<u8>::empty());
        assert(text::spec_dec_value(Seq::<u8>::empty()) == 0);
        assert(text::spec_dec_value(s.drop_last()) == 0);
        assert(v == 0 * 10 + ((s.last() - 48) as nat));
        assert(s.last() == s[0]);
        assert(text::spec_dec_digits(v) =~= seq![(48 + v) as u8]);
        assert(s =~= text::spec_dec_digits(v));
    } else {
        let p = s.drop_last();
        lemma_dec_value_pos(p);
        lemma_canonical_digits(p);
        let pv = text::spec_dec_value(p);
        let d = (s.last() - 48) as nat;
        assert(v == pv * 10 + d);
        assert(pv >= 1);
        assert(v >= 10) by (nonlinear_arith)
            requires v == pv * 10 + d, pv >= 1, d >= 0;
        assert(v / 10 == pv && v % 10 == d) by (nonlinear_arith)
            requires v == pv * 10 + d, 0 <= d < 10;
        assert(text::spec_dec_digits(v) == text::spec_dec_digits(pv).push((48 + d) as u8));
        assert(s =~= p.push(s.last()));
        assert((48 + d) as u8 == s.last());
    }
}

/// A digit run with a nonzero leading digit has a positive value.
proof fn lemma_dec_value_pos(s: Seq<u8>)
    requires
        s.len() >= 1,
        forall|i: int| 0 <= i < s.len() ==> text::spec_is_digit(#[trigger] s[i]),
        s[0] != 48,
    ensures
        text::spec_dec_value(s) >= 1,
    decreases s.len(),
{
    if s.len() == 1 {
        assert(text::spec_dec_value(s.drop_last()) == 0) by {
            assert(s.drop_last() =~= Seq::<u8>::empty());
        };
    } else {
        let p = s.drop_last();
        lemma_dec_value_pos(p);
        assert(text::spec_dec_value(s) == text::spec_dec_value(p) * 10 + ((s.last() - 48) as nat));
        assert(text::spec_dec_value(p) * 10 >= 10) by (nonlinear_arith)
            requires text::spec_dec_value(p) >= 1;
    }
}

/// A number's canonical digits standing in `b` are all digits and read
/// back to the number.
proof fn lemma_dec_shape_digits(b: Seq<u8>, i: int, v: u128, j: int)
    requires
        0 <= i < j <= b.len(),
        b.subrange(i, j) == dec(v as nat),
    ensures
        forall|k: int| i <= k < j ==> text::spec_is_digit(#[trigger] b[k]),
        text::spec_dec_value(b.subrange(i, j)) == v as nat,
{
    text::lemma_dec_digits_are_digits(v as nat);
    text::lemma_dec_round_trip(v as nat);
    assert forall|k: int| i <= k < j implies text::spec_is_digit(#[trigger] b[k]) by {
        assert(b[k] == b.subrange(i, j)[k - i]);
        assert(text::spec_is_digit(dec(v as nat)[k - i]));
    }
}

/// Parse a canonical decimal number at `i`: a digit run without a leading
/// zero (unless it is the single digit zero). Whenever some number's
/// canonical digits stand at `i` bounded by a non-digit, the parse
/// returns exactly that number and the position after its digits.
fn parse_num(b: &[u8], i: usize) -> (r: Option<(u128, usize)>)
    requires
        i <= b@.len(),
    ensures
        r matches Some((v, j)) ==> i < j <= b@.len()
            && b@.subrange(i as int, j as int) == dec(v as nat),
        forall|v: u128, j: int|
            #![trigger b@.subrange(i as int, j), dec(v as nat)]
            {
                &&& i < j <= b@.len()
                &&& b@.subrange(i as int, j) == dec(v as nat)
                &&& (j == b@.len() || !text::spec_is_digit(b@[j]))
            } ==> (r matches Some((v2, j2)) && v2 == v && j2 == j),
{
    let ghost hyp = exists|v: u128, j: int|
        #![trigger b@.subrange(i as int, j), dec(v as nat)]
        {
            &&& i < j <= b@.len()
            &&& b@.subrange(i as int, j) == dec(v as nat)
            &&& (j == b@.len() || !text::spec_is_digit(b@[j]))
        };
    let ghost (v0, j0): (u128, int) = if hyp {
        choose|v: u128, j: int|
            #![trigger b@.subrange(i as int, j), dec(v as nat)]
            {
                &&& i < j <= b@.len()
                &&& b@.subrange(i as int, j) == dec(v as nat)
                &&& (j == b@.len() || !text::spec_is_digit(b@[j]))
            }
    } else {
        (0u128, 0int)
    };
    proof {
        if hyp {
            lemma_dec_shape_digits(b@, i as int, v0, j0);
        }
    }
    match text::parse_dec_run(b, i) {
        Some((v, j)) => {
            proof {
                if hyp {
                    assert(v == v0 && j as int == j0);
                }
                assert forall|v2: u128, j2: int|
                    #![trigger b@.subrange(i as int, j2), dec(v2 as nat)]
                    ({
                        &&& i < j2 <= b@.len()
                        &&& b@.subrange(i as int, j2) == dec(v2 as nat)
                        &&& (j2 == b@.len() || !text::spec_is_digit(b@[j2]))
                    }) implies v2 == v && j2 == j as int by {
                    lemma_dec_shape_digits(b@, i as int, v2, j2);
                }
            }
            if j > i + 1 && b[i] == 48 {
                proof {
                    if hyp {
                        text::lemma_dec_digits_leading(v0 as nat);
                        assert(b@[i as int] == b@.subrange(i as int, j0)[0]);
                        assert(dec(v0 as nat)[0] == 48);
                        assert(v0 as nat == 0) by {
                            if v0 as nat > 0 {
                                assert(dec(v0 as nat)[0] != 48);
                            }
                        };
                        assert(dec(0nat).len() == 1);
                        assert(false);
                    }
                }
                return None;
            }
            proof {
                lemma_canonical_digits(b@.subrange(i as int, j as int));
            }
            Some((v, j))
        },
        None => {
            proof {
                if hyp {
                    assert(false);
                }
            }
            None
        },
    }
}

/// Parse a canonically escaped string body ending at its closing quote:
/// the bytes read are exactly the escape of the result plus the quote, and
/// whenever an escaped string with its closing quote stands at `i`, the
/// parse returns exactly that string and the position after the quote.
#[verifier::loop_isolation(false)]
fn parse_string_body(b: &[u8], i: usize) -> (r: Option<(Vec<u8>, usize)>)
    requires
        i <= b@.len(),
    ensures
        r matches Some((s, j)) ==> i <= j <= b@.len()
            && b@.subrange(i as int, j as int) == spec_escape(s@) + seq![34u8],
        forall|s: Seq<u8>, j: int|
            #![trigger b@.subrange(i as int, j), spec_escape(s)]
            {
                &&& i <= j <= b@.len()
                &&& b@.subrange(i as int, j) == spec_escape(s) + seq![34u8]
            } ==> (r matches Some((s2, j2)) && s2@ == s && j2 == j),
{
    let ghost hyp = exists|s: Seq<u8>, j: int|
        #![trigger b@.subrange(i as int, j), spec_escape(s)]
        {
            &&& i <= j <= b@.len()
            &&& b@.subrange(i as int, j) == spec_escape(s) + seq![34u8]
        };
    let ghost (s0, j0): (Seq<u8>, int) = if hyp {
        choose|s: Seq<u8>, j: int|
            #![trigger b@.subrange(i as int, j), spec_escape(s)]
            {
                &&& i <= j <= b@.len()
                &&& b@.subrange(i as int, j) == spec_escape(s) + seq![34u8]
            }
    } else {
        (Seq::empty(), 0int)
    };
    proof {
        if hyp {
            assert((spec_escape(s0) + seq![34u8]).len() == spec_escape(s0).len() + 1);
            assert(j0 - i == spec_escape(s0).len() + 1);
        }
    }
    let n: usize = b.len();
    let mut acc: Vec<u8> = Vec::new();
    let mut cur: usize = i;
    proof {
        assert(b@.subrange(i as int, i as int) =~= spec_escape(acc@));
        if hyp {
            assert(acc@ =~= s0.subrange(0, 0));
        }
    }
    while cur < n
        invariant
            i <= cur <= n,
            b@.subrange(i as int, cur as int) == spec_escape(acc@),
            hyp ==> acc@.len() <= s0.len()
                && acc@ == s0.subrange(0, acc@.len() as int)
                && cur as int == i + spec_escape(acc@).len(),
        decreases n - cur,
    {
        proof {
            if hyp {
                lemma_string_step_facts(b@, i as int, s0, j0, acc@, cur as int);
            }
        }
        let c: u8 = b[cur];
        if c == 34 {
            proof {
                assert(b@.subrange(i as int, cur + 1 as int)
                    =~= spec_escape(acc@) + seq![34u8]);
                if hyp {
                    // a quote here means the whole string was read
                    assert(acc@.len() == s0.len());
                    assert(acc@ =~= s0);
                    assert(cur + 1 == j0);
                }
                assert forall|s: Seq<u8>, j: int|
                    #![trigger b@.subrange(i as int, j), spec_escape(s)]
                    ({
                        &&& i <= j <= b@.len()
                        &&& b@.subrange(i as int, j) == spec_escape(s) + seq![34u8]
                    }) implies s == acc@ && j == cur + 1 by {
                    lemma_string_shape_unique(b@, i as int, s, j, acc@, cur + 1);
                }
            }
            return Some((acc, cur + 1));
        } else if c == 92 {
            if cur + 1 >= n {
                proof {
                    if hyp {
                        assert(false);
                    }
                }
                return None;
            }
            let d: u8 = b[cur + 1];
            if d != 34 && d != 92 {
                proof {
                    if hyp {
                        assert(false);
                    }
                }
                return None;
            }
            let ghost acc0 = acc@;
            acc.push(d);
            proof {
                assert(acc@.drop_last() =~= acc0);
                assert(acc@.last() == d);
                assert(spec_escape(acc@) == spec_escape(acc0) + spec_esc_byte(d));
                assert(spec_esc_byte(d) =~= seq![92u8, d]);
                assert(b@.subrange(i as int, cur + 2 as int)
                    =~= spec_escape(acc0) + seq![92u8, d]);
                if hyp {
                    assert(acc@ =~= s0.subrange(0, acc@.len() as int));
                }
            }
            cur = cur + 2;
        } else {
            let ghost acc0 = acc@;
            acc.push(c);
            proof {
                assert(acc@.drop_last() =~= acc0);
                assert(acc@.last() == c);
                assert(spec_escape(acc@) == spec_escape(acc0) + spec_esc_byte(c));
                assert(spec_esc_byte(c) =~= seq![c]);
                assert(b@.subrange(i as int, cur + 1 as int)
                    =~= spec_escape(acc0) + seq![c]);
                if hyp {
                    assert(acc@ =~= s0.subrange(0, acc@.len() as int));
                }
            }
            cur = cur + 1;
        }
    }
    proof {
        if hyp {
            lemma_string_step_facts(b@, i as int, s0, j0, acc@, cur as int);
            assert(false);
        }
    }
    None
}

/// Mid-scan facts under the shape hypothesis: with the prefix `p` of `s0`
/// consumed, the byte at the cursor is the closing quote exactly when the
/// string is exhausted, and otherwise begins the escape of the next
/// character.
proof fn lemma_string_step_facts(b: Seq<u8>, i: int, s0: Seq<u8>, j0: int, p: Seq<u8>, cur: int)
    requires
        0 <= i <= j0 <= b.len(),
        b.subrange(i, j0) == spec_escape(s0) + seq![34u8],
        p.len() <= s0.len(),
        p == s0.subrange(0, p.len() as int),
        cur == i + spec_escape(p).len(),
    ensures
        cur < j0,
        cur < b.len(),
        p.len() == s0.len() ==> b[cur] == 34u8 && cur + 1 == j0,
        p.len() < s0.len() ==> {
            let nextc = s0[p.len() as int];
            &&& (nextc == 34u8 || nextc == 92u8) ==> cur + 1 < j0 && b[cur] == 92u8
                && b[cur + 1] == nextc
            &&& !(nextc == 34u8 || nextc == 92u8) ==> b[cur] == nextc && nextc != 34u8
        },
{
    let rest = s0.skip(p.len() as int);
    assert(s0 =~= p + rest);
    lemma_escape_append(p, rest);
    assert(spec_escape(s0) == spec_escape(p) + spec_escape(rest));
    assert((spec_escape(s0) + seq![34u8]).len() == spec_escape(s0).len() + 1);
    assert(j0 - i == spec_escape(s0).len() + 1);
    if p.len() == s0.len() {
        assert(rest =~= Seq::<u8>::empty());
        assert(spec_escape(rest) =~= Seq::<u8>::empty());
        assert(spec_escape(s0).len() == spec_escape(p).len());
        assert(b[cur] == b.subrange(i, j0)[cur - i]);
        assert((spec_escape(s0) + seq![34u8])[cur - i] == 34u8);
    } else {
        lemma_escape_head(rest);
        let nextc = rest[0];
        assert(nextc == s0[p.len() as int]);
        assert(spec_escape(rest) == spec_esc_byte(nextc) + spec_escape(rest.skip(1)));
        assert(b[cur] == b.subrange(i, j0)[cur - i]);
        if nextc == 34u8 || nextc == 92u8 {
            assert(spec_esc_byte(nextc) =~= seq![92u8, nextc]);
            assert((spec_escape(s0) + seq![34u8])[cur - i] == 92u8);
            assert(b[cur + 1] == b.subrange(i, j0)[cur + 1 - i]);
            assert((spec_escape(s0) + seq![34u8])[cur + 1 - i] == nextc);
        } else {
            assert(spec_esc_byte(nextc) =~= seq![nextc]);
            assert((spec_escape(s0) + seq![34u8])[cur - i] == nextc);
        }
    }
}

/// Only one escaped string with its closing quote stands at a position.
proof fn lemma_string_shape_unique(b: Seq<u8>, i: int, s1: Seq<u8>, j1: int, s2: Seq<u8>, j2: int)
    requires
        0 <= i,
        i <= j1 <= b.len(),
        i <= j2 <= b.len(),
        b.subrange(i, j1) == spec_escape(s1) + seq![34u8],
        b.subrange(i, j2) == spec_escape(s2) + seq![34u8],
    ensures
        s1 == s2,
        j1 == j2,
{
    let x = b.subrange(j1, b.len() as int);
    let y = b.subrange(j2, b.len() as int);
    assert((spec_escape(s1) + seq![34u8]).len() == spec_escape(s1).len() + 1);
    assert((spec_escape(s2) + seq![34u8]).len() == spec_escape(s2).len() + 1);
    let whole = b.subrange(i, b.len() as int);
    let l1 = spec_escape(s1) + (seq![34u8] + x);
    assert(whole.len() == l1.len());
    assert forall|t: int| 0 <= t < whole.len() implies whole[t] == l1[t] by {
        assert(whole[t] == b[i + t]);
        if t < j1 - i {
            assert(b.subrange(i, j1)[t] == b[i + t]);
            assert((spec_escape(s1) + seq![34u8])[t] == l1[t]);
        } else {
            assert(x[t - (j1 - i)] == b[i + t]);
        }
    }
    assert(whole =~= l1);
    let l2 = spec_escape(s2) + (seq![34u8] + y);
    assert(whole.len() == l2.len());
    assert forall|t: int| 0 <= t < whole.len() implies whole[t] == l2[t] by {
        assert(whole[t] == b[i + t]);
        if t < j2 - i {
            assert(b.subrange(i, j2)[t] == b[i + t]);
            assert((spec_escape(s2) + seq![34u8])[t] == l2[t]);
        } else {
            assert(y[t - (j2 - i)] == b[i + t]);
        }
    }
    assert(whole =~= l2);
    lemma_escape_peel(s1, s2, x, y);
    assert(j1 == j2) by {
        assert(x.len() == y.len());
    };
}

/// A range splits at any interior point.
proof fn lemma_subrange_split(s: Seq<u8>, a: int, i: int, j: int)
    requires
        0 <= a <= i <= j <= s.len(),
    ensures
        s.subrange(a, j) == s.subrange(a, i) + s.subrange(i, j),
{
    assert(s.subrange(a, j) =~= s.subrange(a, i) + s.subrange(i, j));
}

/// The numeric fields at the front of a record's text.
struct ParsedHead {
    id: u128,
    request_id: u128,
    service_id: u128,
    consumer_id: u128,
    timestamp: u64,
    duration_ms: u32,
    prompt_tokens: u32,
    completion_tokens: u32,
    total_tokens: u32,
    amount_micros: u64,
}

/// The wire form of the parsed numeric front, shaped exactly like
/// `spec_record_head`.
spec fn spec_parsed_head_bytes(h: ParsedHead) -> Seq<u8> {
    lit_obj_id() + dec(h.id as nat)
        + lit_req_id() + dec(h.request_id as nat)
        + lit_svc_id() + dec(h.service_id as nat)
        + lit_con_id() + dec(h.consumer_id as nat)
        + lit_ts() + dec(h.timestamp as nat)
        + lit_dur() + dec(h.duration_ms as nat)
        + lit_usage() + dec(h.prompt_tokens as nat)
        + lit_completion() + dec(h.completion_tokens as nat)
        + lit_total() + dec(h.total_tokens as nat)
        + lit_cost() + dec(h.amount_micros as nat)
}

/// Transfer the chosen witness's conclusion to every shape: the numeric
/// front determines the fields and the split point.
proof fn lemma_head_transfer(b: Seq<u8>, h0: ParsedHead, rest0: Seq<u8>, h: ParsedHead, j: int)
    requires
        b == spec_parsed_head_bytes(h0) + rest0,
        rest0.len() > 0,
        !text::spec_is_digit(rest0[0]),
        h == h0,
        j == b.len() - rest0.len(),
    ensures
        forall|h3: ParsedHead, rest3: Seq<u8>|
            #![trigger spec_parsed_head_bytes(h3).add(rest3)]
            {
                &&& b == spec_parsed_head_bytes(h3) + rest3
                &&& rest3.len() > 0
                &&& !text::spec_is_digit(rest3[0])
            } ==> (h3 == h && b.len() - rest3.len() == j),
{
    assert forall|h3: ParsedHead, rest3: Seq<u8>|
        #![trigger spec_parsed_head_bytes(h3).add(rest3)]
        ({
            &&& b == spec_parsed_head_bytes(h3) + rest3
            &&& rest3.len() > 0
            &&& !text::spec_is_digit(rest3[0])
        }) implies h3 == h && b.len() - rest3.len() == j by {
        lemma_parsed_head_unique(h3, rest3, h0, rest0);
    }
}

/// Parse components 1 through 4 of the numeric front, threading the
/// caller's shape hypothesis.
#[verifier::loop_isolation(false)]
#[verifier::rlimit(100)]
#[verifier::spinoff_prover]
fn parse_head_c1(
    b: &[u8],
    start_i: usize,
    Ghost(hyp): Ghost<bool>,
    Ghost(h0): Ghost<ParsedHead>,
    Ghost(rest0): Ghost<Seq<u8>>,
) -> (r: Option<((u128, u128), usize)>)
    requires
        start_i <= b@.len(),
        hyp ==> rest0.len() > 0 && !text::spec_is_digit(rest0[0]),
        hyp ==> b@.skip(start_i as int) == lit_obj_id() + (dec(h0.id as nat) + (lit_req_id() + (dec(h0.request_id as nat) + (lit_svc_id() + (dec(h0.service_id as nat) + (lit_con_id() + (dec(h0.consumer_id as nat) + (lit_ts() + (dec(h0.timestamp as nat) + (lit_dur() + (dec(h0.duration_ms as nat) + (lit_usage() + (dec(h0.prompt_tokens as nat) + (lit_completion() + (dec(h0.completion_tokens as nat) + (lit_total() + (dec(h0.total_tokens as nat) + (lit_cost() + (dec(h0.amount_micros as nat) + (rest0)))))))))))))))))))),
    ensures
        r matches Some((vals, j)) ==> start_i <= j <= b@.len()
            && b@.subrange(start_i as int, j as int) == lit_obj_id() + dec(vals.0 as nat) + lit_req_id() + dec(vals.1 as nat),
        hyp ==> (r matches Some((vals, j))
            && vals.0 == h0.id as u128 && vals.1 == h0.request_id as u128
            && b@.skip(j as int) == lit_svc_id() + (dec(h0.service_id as nat) + (lit_con_id() + (dec(h0.consumer_id as nat) + (lit_ts() + (dec(h0.timestamp as nat) + (lit_dur() + (dec(h0.duration_ms as nat) + (lit_usage() + (dec(h0.prompt_tokens as nat) + (lit_completion() + (dec(h0.completion_tokens as nat) + (lit_total() + (dec(h0.total_tokens as nat) + (lit_cost() + (dec(h0.amount_micros as nat) + (rest0))))))))))))))))),
{
    let ghost t21 = rest0;
    let ghost t20 = dec(h0.amount_micros as nat) + t21;
    let ghost t19 = lit_cost() + t20;
    let ghost t18 = dec(h0.total_tokens as nat) + t19;
    let ghost t17 = lit_total() + t18;
    let ghost t16 = dec(h0.completion_tokens as nat) + t17;
    let ghost t15 = lit_completion() + t16;
    let ghost t14 = dec(h0.prompt_tokens as nat) + t15;
    let ghost t13 = lit_usage() + t14;
    let ghost t12 = dec(h0.duration_ms as nat) + t13;
    let ghost t11 = lit_dur() + t12;
    let ghost t10 = dec(h0.timestamp as nat) + t11;
    let ghost t9 = lit_ts() + t10;
    let ghost t8 = dec(h0.consumer_id as nat) + t9;
    let ghost t7 = lit_con_id() + t8;
    let ghost t6 = dec(h0.service_id as nat) + t7;
    let ghost t5 = lit_svc_id() + t6;
    let ghost t4 = dec(h0.request_id as nat) + t5;
    let ghost t3 = lit_req_id() + t4;
    let ghost t2 = dec(h0.id as nat) + t3;
    let ghost t1 = lit_obj_id() + t2;
    let i: usize = start_i;
    let ghost start: usize = start_i;
    let ghost mut pre: Seq<u8> = Seq::empty();
    proof {
        if hyp {
            assert(b@.skip(i as int) == t1);
        }
    }
    let lv: Vec<u8> = vec![123, 34, 105, 100, 34, 58];
    proof {
        assert(lv@ =~= lit_obj_id());
        if hyp {
            lemma_split_at(b@, i as int, lit_obj_id(), t2);
        }
    }
    let ghost i0 = i;
    let i: usize = match eat_lit(b, i, lv.as_slice()) {
        Some(j) => j,
        None => {
            proof { if hyp { assert(false); } }
            return None;
        },
    };
    proof {
        lemma_subrange_split(b@, start as int, i0 as int, i as int);
        pre = lit_obj_id();
    }
    let ghost i0 = i;
    proof {
        if hyp {
            text::lemma_dec_digits_are_digits(h0.id as nat);
            lemma_split_at(b@, i as int, dec(h0.id as nat), t3);
            assert(t3[0] == lit_req_id()[0]);
            assert(!text::spec_is_digit(b@[i as int + dec(h0.id as nat).len()])) by {
                assert(b@.skip(i as int + dec(h0.id as nat).len())[0]
                    == b@[i as int + dec(h0.id as nat).len()]);
            };
        }
    }
    let (v_id, i): (u128, usize) = match parse_num(b, i) {
        Some(p) => p,
        None => {
            proof { if hyp { assert(false); } }
            return None;
        },
    };
    proof {
        if hyp {
            assert(v_id == h0.id as u128);
        }
    }
    proof {
        lemma_subrange_split(b@, start as int, i0 as int, i as int);
        pre = pre + dec(v_id as nat);
    }
    let lv: Vec<u8> = vec![44, 34, 114, 101, 113, 117, 101, 115, 116, 95, 105, 100, 34, 58];
    proof {
        assert(lv@ =~= lit_req_id());
        if hyp {
            lemma_split_at(b@, i as int, lit_req_id(), t4);
        }
    }
    let ghost i0 = i;
    let i: usize = match eat_lit(b, i, lv.as_slice()) {
        Some(j) => j,
        None => {
            proof { if hyp { assert(false); } }
            return None;
        },
    };
    proof {
        lemma_subrange_split(b@, start as int, i0 as int, i as int);
        pre = pre + lit_req_id();
    }
    let ghost i0 = i;
    proof {
        if hyp {
            text::lemma_dec_digits_are_digits(h0.request_id as nat);
            lemma_split_at(b@, i as int, dec(h0.request_id as nat), t5);
            assert(t5[0] == lit_svc_id()[0]);
            assert(!text::spec_is_digit(b@[i as int + dec(h0.request_id as nat).len()])) by {
                assert(b@.skip(i as int + dec(h0.request_id as nat).len())[0]
                    == b@[i as int + dec(h0.request_id as nat).len()]);
            };
        }
    }
    let (v_req, i): (u128, usize) = match parse_num(b, i) {
        Some(p) => p,
        None => {
            proof { if hyp { assert(false); } }
            return None;
        },
    };
    proof {
        if hyp {
            assert(v_req == h0.request_id as u128);
        }
    }
    proof {
        lemma_subrange_split(b@, start as int, i0 as int, i as int);
        pre = pre + dec(v_req as nat);
    }
    proof {
        assert(b@.subrange(start_i as int, i as int) == pre);
        if hyp {
            assert(b@.skip(i as int) == t5);
        }
    }
    Some(((v_id, v_req), i))
}

/// Parse components 5 through 8 of the numeric front, threading the
/// caller's shape hypothesis.
#[verifier::loop_isolation(false)]
#[verifier::rlimit(100)]
#[verifier::spinoff_prover]
fn parse_head_c2(
    b: &[u8],
    start_i: usize,
    Ghost(hyp): Ghost<bool>,
    Ghost(h0): Ghost<ParsedHead>,
    Ghost(rest0): Ghost<Seq<u8>>,
) -> (r: Option<((u128, u128), usize)>)
    requires
        start_i <= b@.len(),
        hyp ==> rest0.len() > 0 && !text::spec_is_digit(rest0[0]),
        hyp ==> b@.skip(start_i as int) == lit_svc_id() + (dec(h0.service_id as nat) + (lit_con_id() + (dec(h0.consumer_id as nat) + (lit_ts() + (dec(h0.timestamp as nat) + (lit_dur() + (dec(h0.duration_ms as nat) + (lit_usage() + (dec(h0.prompt_tokens as nat) + (lit_completion() + (dec(h0.completion_tokens as nat) + (lit_total() + (dec(h0.total_tokens as nat) + (lit_cost() + (dec(h0.amount_micros as nat) + (rest0)))))))))))))))),
    ensures
        r matches Some((vals, j)) ==> start_i <= j <= b@.len()
            && b@.subrange(start_i as int, j as int) == lit_svc_id() + dec(vals.0 as nat) + lit_con_id() + dec(vals.1 as nat),
        hyp ==> (r matches Some((vals, j))
            && vals.0 == h0.service_id as u128 && vals.1 == h0.consumer_id as u128
            && b@.skip(j as int) == lit_ts() + (dec(h0.timestamp as nat) + (lit_dur() + (dec(h0.duration_ms as nat) + (lit_usage() + (dec(h0.prompt_tokens as nat) + (lit_completion() + (dec(h0.completion_tokens as nat) + (lit_total() + (dec(h0.total_tokens as nat) + (lit_cost() + (dec(h0.amount_micros as nat) + (rest0))))))))))))),
{
    let ghost t21 = rest0;
    let ghost t20 = dec(h0.amount_micros as nat) + t21;
    let ghost t19 = lit_cost() + t20;
    let ghost t18 = dec(h0.total_tokens as nat) + t19;
    let ghost t17 = lit_total() + t18;
    let ghost t16 = dec(h0.completion_tokens as nat) + t17;
    let ghost t15 = lit_completion() + t16;
    let ghost t14 = dec(h0.prompt_tokens as nat) + t15;
    let ghost t13 = lit_usage() + t14;
    let ghost t12 = dec(h0.duration_ms as nat) + t13;
    let ghost t11 = lit_dur() + t12;
    let ghost t10 = dec(h0.timestamp as nat) + t11;
    let ghost t9 = lit_ts() + t10;
    let ghost t8 = dec(h0.consumer_id as nat) + t9;
    let ghost t7 = lit_con_id() + t8;
    let ghost t6 = dec(h0.service_id as nat) + t7;
    let ghost t5 = lit_svc_id() + t6;
    let i: usize = start_i;
    let ghost start: usize = start_i;
    let ghost mut pre: Seq<u8> = Seq::empty();
    proof {
        if hyp {
            assert(b@.skip(i as int) == t5);
        }
    }
    let lv: Vec<u8> = vec![44, 34, 115, 101, 114, 118, 105, 99, 101, 95, 105, 100, 34, 58];
    proof {
        assert(lv@ =~= lit_svc_id());
        if hyp {
            lemma_split_at(b@, i as int, lit_svc_id(), t6);
        }
    }
    let ghost i0 = i;
    let i: usize = match eat_lit(b, i, lv.as_slice()) {
        Some(j) => j,
        None => {
            proof { if hyp { assert(false); } }
            return None;
        },
    };
    proof {
        lemma_subrange_split(b@, start as int, i0 as int, i as int);
        pre = lit_svc_id();
    }
    let ghost i0 = i;
    proof {
        if hyp {
            text::lemma_dec_digits_are_digits(h0.service_id as nat);
            lemma_split_at(b@, i as int, dec(h0.service_id as nat), t7);
            assert(t7[0] == lit_con_id()[0]);
            assert(!text::spec_is_digit(b@[i as int + dec(h0.service_id as nat).len()])) by {
                assert(b@.skip(i as int + dec(h0.service_id as nat).len())[0]
                    == b@[i as int + dec(h0.service_id as nat).len()]);
            };
        }
    }
    let (v_svc, i): (u128, usize) = match parse_num(b, i) {
        Some(p) => p,
        None => {
            proof { if hyp { assert(false); } }
            return None;
        },
    };
    proof {
        if hyp {
            assert(v_svc == h0.service_id as u128);
        }
    }
    proof {
        lemma_subrange_split(b@, start as int, i0 as int, i as int);
        pre = pre + dec(v_svc as nat);
    }
    let lv: Vec<u8> = vec![44, 34, 99, 111, 110, 115, 117, 109, 101, 114, 95, 105, 100, 34, 58];
    proof {
        assert(lv@ =~= lit_con_id());
        if hyp {
            lemma_split_at(b@, i as int, lit_con_id(), t8);
        }
    }
    let ghost i0 = i;
    let i: usize = match eat_lit(b, i, lv.as_slice()) {
        Some(j) => j,
        None => {
            proof { if hyp { assert(false); } }
            return None;
        },
    };
    proof {
        lemma_subrange_split(b@, start as int, i0 as int, i as int);
        pre = pre + lit_con_id();
    }
    let ghost i0 = i;
    proof {
        if hyp {
            text::lemma_dec_digits_are_digits(h0.consumer_id as nat);
            lemma_split_at(b@, i as int, dec(h0.consumer_id as nat), t9);
            assert(t9[0] == lit_ts()[0]);
            assert(!text::spec_is_digit(b@[i as int + dec(h0.consumer_id as nat).len()])) by {
                assert(b@.skip(i as int + dec(h0.consumer_id as nat).len())[0]
                    == b@[i as int + dec(h0.consumer_id as nat).len()]);
            };
        }
    }
    let (v_con, i): (u128, usize) = match parse_num(b, i) {
        Some(p) => p,
        None => {
            proof { if hyp { assert(false); } }
            return None;
        },
    };
    proof {
        if hyp {
            assert(v_con == h0.consumer_id as u128);
        }
    }
    proof {
        lemma_subrange_split(b@, start as int, i0 as int, i as int);
        pre = pre + dec(v_con as nat);
    }
    proof {
        assert(b@.subrange(start_i as int, i as int) == pre);
        if hyp {
            assert(b@.skip(i as int) == t9);
        }
    }
    Some(((v_svc, v_con), i))
}

/// Parse components 9 through 12 of the numeric front, threading the
/// caller's shape hypothesis.
#[verifier::loop_isolation(false)]
#[verifier::rlimit(100)]
#[verifier::spinoff_prover]
fn parse_head_c3(
    b: &[u8],
    start_i: usize,
    Ghost(hyp): Ghost<bool>,
    Ghost(h0): Ghost<ParsedHead>,
    Ghost(rest0): Ghost<Seq<u8>>,
) -> (r: Option<((u128, u128), usize)>)
    requires
        start_i <= b@.len(),
        hyp ==> rest0.len() > 0 && !text::spec_is_digit(rest0[0]),
        hyp ==> b@.skip(start_i as int) == lit_ts() + (dec(h0.timestamp as nat) + (lit_dur() + (dec(h0.duration_ms as nat) + (lit_usage() + (dec(h0.prompt_tokens as nat) + (lit_completion() + (dec(h0.completion_tokens as nat) + (lit_total() + (dec(h0.total_tokens as nat) + (lit_cost() + (dec(h0.amount_micros as nat) + (rest0)))))))))))),
    ensures
        r matches Some((vals, j)) ==> start_i <= j <= b@.len()
            && b@.subrange(start_i as int, j as int) == lit_ts() + dec(vals.0 as nat) + lit_dur() + dec(vals.1 as nat),
        hyp ==> (r matches Some((vals, j))
            && vals.0 == h0.timestamp as u128 && vals.1 == h0.duration_ms as u128
            && b@.skip(j as int) == lit_usage() + (dec(h0.prompt_tokens as nat) + (lit_completion() + (dec(h0.completion_tokens as nat) + (lit_total() + (dec(h0.total_tokens as nat) + (lit_cost() + (dec(h0.amount_micros as nat) + (rest0))))))))),
{
    let ghost t21 = rest0;
    let ghost t20 = dec(h0.amount_micros as nat) + t21;
    let ghost t19 = lit_cost() + t20;
    let ghost t18 = dec(h0.total_tokens as nat) + t19;
    let ghost t17 = lit_total() + t18;
    let ghost t16 = dec(h0.completion_tokens as nat) + t17;
    let ghost t15 = lit_completion() + t16;
    let ghost t14 = dec(h0.prompt_tokens as nat) + t15;
    let ghost t13 = lit_usage() + t14;
    let ghost t12 = dec(h0.duration_ms as nat) + t13;
    let ghost t11 = lit_dur() + t12;
    let ghost t10 = dec(h0.timestamp as nat) + t11;
    let ghost t9 = lit_ts() + t10;
    let i: usize = start_i;
    let ghost start: usize = start_i;
    let ghost mut pre: Seq<u8> = Seq::empty();
    proof {
        if hyp {
            assert(b@.skip(i as int) == t9);
        }
    }
    let lv: Vec<u8> = vec![44, 34, 116, 105, 109, 101, 115, 116, 97, 109, 112, 34, 58];
    proof {
        assert(lv@ =~= lit_ts());
        if hyp {
            lemma_split_at(b@, i as int, lit_ts(), t10);
        }
    }
    let ghost i0 = i;
    let i: usize = match eat_lit(b, i, lv.as_slice()) {
        Some(j) => j,
        None => {
            proof { if hyp { assert(false); } }
            return None;
        },
    };
    proof {
        lemma_subrange_split(b@, start as int, i0 as int, i as int);
        pre = lit_ts();
    }
    let ghost i0 = i;
    proof {
        if hyp {
            text::lemma_dec_digits_are_digits(h0.timestamp as nat);
            lemma_split_at(b@, i as int, dec(h0.timestamp as nat), t11);
            assert(t11[0] == lit_dur()[0]);
            assert(!text::spec_is_digit(b@[i as int + dec(h0.timestamp as nat).len()])) by {
                assert(b@.skip(i as int + dec(h0.timestamp as nat).len())[0]
                    == b@[i as int + dec(h0.timestamp as nat).len()]);
            };
        }
    }
    let (v_ts, i): (u128, usize) = match parse_num(b, i) {
        Some(p) => p,
        None => {
            proof { if hyp { assert(false); } }
            return None;
        },
    };
    proof {
        if hyp {
            assert(v_ts == h0.timestamp as u128);
        }
    }
    if v_ts > u64::MAX as u128 {
        proof { if hyp { assert(false); } }
        return None;
    }
    proof {
        lemma_subrange_split(b@, start as int, i0 as int, i as int);
        pre = pre + dec(v_ts as nat);
    }
    let lv: Vec<u8> = vec![44, 34, 100, 117, 114, 97, 116, 105, 111, 110, 95, 109, 115, 34, 58];
    proof {
        assert(lv@ =~= lit_dur());
        if hyp {
            lemma_split_at(b@, i as int, lit_dur(), t12);
        }
    }
    let ghost i0 = i;
    let i: usize = match eat_lit(b, i, lv.as_slice()) {
        Some(j) => j,
        None => {
            proof { if hyp { assert(false); } }
            return None;
        },
    };
    proof {
        lemma_subrange_split(b@, start as int, i0 as int, i as int);
        pre = pre + lit_dur();
    }
    let ghost i0 = i;
    proof {
        if hyp {
            text::lemma_dec_digits_are_digits(h0.duration_ms as nat);
            lemma_split_at(b@, i as int, dec(h0.duration_ms as nat), t13);
            assert(t13[0] == lit_usage()[0]);
            assert(!text::spec_is_digit(b@[i as int + dec(h0.duration_ms as nat).len()])) by {
                assert(b@.skip(i as int + dec(h0.duration_ms as nat).len())[0]
                    == b@[i as int + dec(h0.duration_ms as nat).len()]);
            };
        }
    }
    let (v_dur, i): (u128, usize) = match parse_num(b, i) {
        Some(p) => p,
        None => {
            proof { if hyp { assert(false); } }
            return None;
        },
    };
    proof {
        if hyp {
            assert(v_dur == h0.duration_ms as u128);
        }
    }
    if v_dur > u32::MAX as u128 {
        proof { if hyp { assert(false); } }
        return None;
    }
    proof {
        lemma_subrange_split(b@, start as int, i0 as int, i as int);
        pre = pre + dec(v_dur as nat);
    }
    proof {
        assert(b@.subrange(start_i as int, i as int) == pre);
        if hyp {
            assert(b@.skip(i as int) == t13);
        }
    }
    Some(((v_ts, v_dur), i))
}

/// Parse components 13 through 16 of the numeric front, threading the
/// caller's shape hypothesis.
#[verifier::loop_isolation(false)]
#[verifier::rlimit(100)]
#[verifier::spinoff_prover]
fn parse_head_c4(
    b: &[u8],
    start_i: usize,
    Ghost(hyp): Ghost<bool>,
    Ghost(h0): Ghost<ParsedHead>,
    Ghost(rest0): Ghost<Seq<u8>>,
) -> (r: Option<((u128, u128), usize)>)
    requires
        start_i <= b@.len(),
        hyp ==> rest0.len() > 0 && !text::spec_is_digit(rest0[0]),
        hyp ==> b@.skip(start_i as int) == lit_usage() + (dec(h0.prompt_tokens as nat) + (lit_completion() + (dec(h0.completion_tokens as nat) + (lit_total() + (dec(h0.total_tokens as nat) + (lit_cost() + (dec(h0.amount_micros as nat) + (rest0)))))))),
    ensures
        r matches Some((vals, j)) ==> start_i <= j <= b@.len()
            && b@.subrange(start_i as int, j as int) == lit_usage() + dec(vals.0 as nat) + lit_completion() + dec(vals.1 as nat),
        hyp ==> (r matches Some((vals, j))
            && vals.0 == h0.prompt_tokens as u128 && vals.1 == h0.completion_tokens as u128
            && b@.skip(j as int) == lit_total() + (dec(h0.total_tokens as nat) + (lit_cost() + (dec(h0.amount_micros as nat) + (rest0))))),
{
    let ghost t21 = rest0;
    let ghost t20 = dec(h0.amount_micros as nat) + t21;
    let ghost t19 = lit_cost() + t20;
    let ghost t18 = dec(h0.total_tokens as nat) + t19;
    let ghost t17 = lit_total() + t18;
    let ghost t16 = dec(h0.completion_tokens as nat) + t17;
    let ghost t15 = lit_completion() + t16;
    let ghost t14 = dec(h0.prompt_tokens as nat) + t15;
    let ghost t13 = lit_usage() + t14;
    let i: usize = start_i;
    let ghost start: usize = start_i;
    let ghost mut pre: Seq<u8> = Seq::empty();
    proof {
        if hyp {
            assert(b@.skip(i as int) == t13);
        }
    }
    let lv: Vec<u8> = vec![44, 34, 117, 115, 97, 103, 101, 34, 58, 123, 34, 112, 114, 111, 109, 112, 116, 95, 116, 111, 107, 101, 110, 115, 34, 58];
    proof {
        assert(lv@ =~= lit_usage());
        if hyp {
            lemma_split_at(b@, i as int, lit_usage(), t14);
        }
    }
    let ghost i0 = i;
    let i: usize = match eat_lit(b, i, lv.as_slice()) {
        Some(j) => j,
        None => {
            proof { if hyp { assert(false); } }
            return None;
        },
    };
    proof {
        lemma_subrange_split(b@, start as int, i0 as int, i as int);
        pre = lit_usage();
    }
    let ghost i0 = i;
    proof {
        if hyp {
            text::lemma_dec_digits_are_digits(h0.prompt_tokens as nat);
            lemma_split_at(b@, i as int, dec(h0.prompt_tokens as nat), t15);
            assert(t15[0] == lit_completion()[0]);
            assert(!text::spec_is_digit(b@[i as int + dec(h0.prompt_tokens as nat).len()])) by {
                assert(b@.skip(i as int + dec(h0.prompt_tokens as nat).len())[0]
                    == b@[i as int + dec(h0.prompt_tokens as nat).len()]);
            };
        }
    }
    let (v_up, i): (u128, usize) = match parse_num(b, i) {
        Some(p) => p,
        None => {
            proof { if hyp { assert(false); } }
            return None;
        },
    };
    proof {
        if hyp {
            assert(v_up == h0.prompt_tokens as u128);
        }
    }
    if v_up > u32::MAX as u128 {
        proof { if hyp { assert(false); } }
        return None;
    }
    proof {
        lemma_subrange_split(b@, start as int, i0 as int, i as int);
        pre = pre + dec(v_up as nat);
    }
    let lv: Vec<u8> = vec![44, 34, 99, 111, 109, 112, 108, 101, 116, 105, 111, 110, 95, 116, 111, 107, 101, 110, 115, 34, 58];
    proof {
        assert(lv@ =~= lit_completion());
        if hyp {
            lemma_split_at(b@, i as int, lit_completion(), t16);
        }
    }
    let ghost i0 = i;
    let i: usize = match eat_lit(b, i, lv.as_slice()) {
        Some(j) => j,
        None => {
            proof { if hyp { assert(false); } }
            return None;
        },
    };
    proof {
        lemma_subrange_split(b@, start as int, i0 as int, i as int);
        pre = pre + lit_completion();
    }
    let ghost i0 = i;
    proof {
        if hyp {
            text::lemma_dec_digits_are_digits(h0.completion_tokens as nat);
            lemma_split_at(b@, i as int, dec(h0.completion_tokens as nat), t17);
            assert(t17[0] == lit_total()[0]);
            assert(!text::spec_is_digit(b@[i as int + dec(h0.completion_tokens as nat).len()])) by {
                assert(b@.skip(i as int + dec(h0.completion_tokens as nat).len())[0]
                    == b@[i as int + dec(h0.completion_tokens as nat).len()]);
            };
        }
    }
    let (v_uc, i): (u128, usize) = match parse_num(b, i) {
        Some(p) => p,
        None => {
            proof { if hyp { assert(false); } }
            return None;
        },
    };
    proof {
        if hyp {
            assert(v_uc == h0.completion_tokens as u128);
        }
    }
    if v_uc > u32::MAX as u128 {
        proof { if hyp { assert(false); } }
        return None;
    }
    proof {
        lemma_subrange_split(b@, start as int, i0 as int, i as int);
        pre = pre + dec(v_uc as nat);
    }
    proof {
        assert(b@.subrange(start_i as int, i as int) == pre);
        if hyp {
            assert(b@.skip(i as int) == t17);
        }
    }
    Some(((v_up, v_uc), i))
}

/// Parse components 17 through 20 of the numeric front, threading the
/// caller's shape hypothesis.
#[verifier::loop_isolation(false)]
#[verifier::rlimit(100)]
#[verifier::spinoff_prover]
fn parse_head_c5(
    b: &[u8],
    start_i: usize,
    Ghost(hyp): Ghost<bool>,
    Ghost(h0): Ghost<ParsedHead>,
    Ghost(rest0): Ghost<Seq<u8>>,
) -> (r: Option<((u128, u128), usize)>)
    requires
        start_i <= b@.len(),
        hyp ==> rest0.len() > 0 && !text::spec_is_digit(rest0[0]),
        hyp ==> b@.skip(start_i as int) == lit_total() + (dec(h0.total_tokens as nat) + (lit_cost() + (dec(h0.amount_micros as nat) + (rest0)))),
    ensures
        r matches Some((vals, j)) ==> start_i <= j <= b@.len()
            && b@.subrange(start_i as int, j as int) == lit_total() + dec(vals.0 as nat) + lit_cost() + dec(vals.1 as nat),
        hyp ==> (r matches Some((vals, j))
            && vals.0 == h0.total_tokens as u128 && vals.1 == h0.amount_micros as u128
            && b@.skip(j as int) == rest0),
{
    let ghost t21 = rest0;
    let ghost t20 = dec(h0.amount_micros as nat) + t21;
    let ghost t19 = lit_cost() + t20;
    let ghost t18 = dec(h0.total_tokens as nat) + t19;
    let ghost t17 = lit_total() + t18;
    let i: usize = start_i;
    let ghost start: usize = start_i;
    let ghost mut pre: Seq<u8> = Seq::empty();
    proof {
        if hyp {
            assert(b@.skip(i as int) == t17);
        }
    }
    let lv: Vec<u8> = vec![44, 34, 116, 111, 116, 97, 108, 95, 116, 111, 107, 101, 110, 115, 34, 58];
    proof {
        assert(lv@ =~= lit_total());
        if hyp {
            lemma_split_at(b@, i as int, lit_total(), t18);
        }
    }
    let ghost i0 = i;
    let i: usize = match eat_lit(b, i, lv.as_slice()) {
        Some(j) => j,
        None => {
            proof { if hyp { assert(false); } }
            return None;
        },
    };
    proof {
        lemma_subrange_split(b@, start as int, i0 as int, i as int);
        pre = lit_total();
    }
    let ghost i0 = i;
    proof {
        if hyp {
            text::lemma_dec_digits_are_digits(h0.total_tokens as nat);
            lemma_split_at(b@, i as int, dec(h0.total_tokens as nat), t19);
            assert(t19[0] == lit_cost()[0]);
            assert(!text::spec_is_digit(b@[i as int + dec(h0.total_tokens as nat).len()])) by {
                assert(b@.skip(i as int + dec(h0.total_tokens as nat).len())[0]
                    == b@[i as int + dec(h0.total_tokens as nat).len()]);
            };
        }
    }
    let (v_ut, i): (u128, usize) = match parse_num(b, i) {
        Some(p) => p,
        None => {
            proof { if hyp { assert(false); } }
            return None;
        },
    };
    proof {
        if hyp {
            assert(v_ut == h0.total_tokens as u128);
        }
    }
    if v_ut > u32::MAX as u128 {
        proof { if hyp { assert(false); } }
        return None;
    }
    proof {
        lemma_subrange_split(b@, start as int, i0 as int, i as int);
        pre = pre + dec(v_ut as nat);
    }
    let lv: Vec<u8> = vec![125, 44, 34, 99, 111, 115, 116, 34, 58, 123, 34, 97, 109, 111, 117, 110, 116, 95, 109, 105, 99, 114, 111, 115, 34, 58];
    proof {
        assert(lv@ =~= lit_cost());
        if hyp {
            lemma_split_at(b@, i as int, lit_cost(), t20);
        }
    }
    let ghost i0 = i;
    let i: usize = match eat_lit(b, i, lv.as_slice()) {
        Some(j) => j,
        None => {
            proof { if hyp { assert(false); } }
            return None;
        },
    };
    proof {
        lemma_subrange_split(b@, start as int, i0 as int, i as int);
        pre = pre + lit_cost();
    }
    let ghost i0 = i;
    proof {
        if hyp {
            text::lemma_dec_digits_are_digits(h0.amount_micros as nat);
            lemma_split_at(b@, i as int, dec(h0.amount_micros as nat), t21);
            assert(t21[0] == rest0[0]);
            assert(!text::spec_is_digit(b@[i as int + dec(h0.amount_micros as nat).len()])) by {
                assert(b@.skip(i as int + dec(h0.amount_micros as nat).len())[0]
                    == b@[i as int + dec(h0.amount_micros as nat).len()]);
            };
        }
    }
    let (v_amt, i): (u128, usize) = match parse_num(b, i) {
        Some(p) => p,
        None => {
            proof { if hyp { assert(false); } }
            return None;
        },
    };
    proof {
        if hyp {
            assert(v_amt == h0.amount_micros as u128);
        }
    }
    if v_amt > u64::MAX as u128 {
        proof { if hyp { assert(false); } }
        return None;
    }
    proof {
        lemma_subrange_split(b@, start as int, i0 as int, i as int);
        pre = pre + dec(v_amt as nat);
    }
    proof {
        assert(b@.subrange(start_i as int, i as int) == pre);
        if hyp {
            assert(b@.skip(i as int) == t21);
        }
    }
    Some(((v_ut, v_amt), i))
}

/// The five chunk segments assemble to the numeric front.
#[verifier::rlimit(100)]
#[verifier::spinoff_prover]
proof fn lemma_head_regroup(h: ParsedHead, g1: Seq<u8>, g2: Seq<u8>, g3: Seq<u8>, g4: Seq<u8>, g5: Seq<u8>)
    requires
        g1 == lit_obj_id() + dec(h.id as nat) + lit_req_id() + dec(h.request_id as nat),
        g2 == lit_svc_id() + dec(h.service_id as nat) + lit_con_id() + dec(h.consumer_id as nat),
        g3 == lit_ts() + dec(h.timestamp as nat) + lit_dur() + dec(h.duration_ms as nat),
        g4 == lit_usage() + dec(h.prompt_tokens as nat) + lit_completion() + dec(h.completion_tokens as nat),
        g5 == lit_total() + dec(h.total_tokens as nat) + lit_cost() + dec(h.amount_micros as nat),
    ensures
        g1 + g2 + g3 + g4 + g5 == spec_parsed_head_bytes(h),
{
    assert(g1 + g2 + g3 + g4 + g5 =~= spec_parsed_head_bytes(h));
}

/// Parse the numeric front of a record's text. Whenever the front of the
/// input is the formatted numeric front of some record, followed by a
/// non-digit, the parse succeeds with exactly those fields.
#[verifier::loop_isolation(false)]
#[verifier::rlimit(100)]
#[verifier::spinoff_prover]
fn parse_record_head(b: &[u8]) -> (r: Option<(ParsedHead, usize)>)
    ensures
        r matches Some((h, j)) ==> j <= b@.len()
            && b@.subrange(0, j as int) == spec_parsed_head_bytes(h),
        forall|h: ParsedHead, rest: Seq<u8>|
            #![trigger spec_parsed_head_bytes(h).add(rest)]
            {
                &&& b@ == spec_parsed_head_bytes(h) + rest
                &&& rest.len() > 0
                &&& !text::spec_is_digit(rest[0])
            } ==> (r matches Some((h2, j2)) && h2 == h
                && j2 as int == b@.len() - rest.len()),
{
    let ghost hyp = exists|h: ParsedHead, rest: Seq<u8>|
        #![trigger spec_parsed_head_bytes(h).add(rest)]
        {
            &&& b@ == spec_parsed_head_bytes(h) + rest
            &&& rest.len() > 0
            &&& !text::spec_is_digit(rest[0])
        };
    let ghost (h0, rest0): (ParsedHead, Seq<u8>) = if hyp {
        choose|h: ParsedHead, rest: Seq<u8>|
            #![trigger spec_parsed_head_bytes(h).add(rest)]
            {
                &&& b@ == spec_parsed_head_bytes(h) + rest
                &&& rest.len() > 0
                &&& !text::spec_is_digit(rest[0])
            }
    } else {
        (ParsedHead {
            id: 0, request_id: 0, service_id: 0, consumer_id: 0, timestamp: 0,
            duration_ms: 0, prompt_tokens: 0, completion_tokens: 0, total_tokens: 0,
            amount_micros: 0,
        }, Seq::empty())
    };
    proof {
        if hyp {
            lemma_parsed_head_rassoc(h0, rest0);
            assert(b@.skip(0) =~= b@);
        }
    }
    let c1 = match parse_head_c1(b, 0, Ghost(hyp), Ghost(h0), Ghost(rest0)) {
        Some(p) => p,
        None => { proof { if hyp { assert(false); } } return None; },
    };
    let ((v_id, v_req), i) = c1;
    let c2 = match parse_head_c2(b, i, Ghost(hyp), Ghost(h0), Ghost(rest0)) {
        Some(p) => p,
        None => { proof { if hyp { assert(false); } } return None; },
    };
    let ((v_svc, v_con), i) = c2;
    let c3 = match parse_head_c3(b, i, Ghost(hyp), Ghost(h0), Ghost(rest0)) {
        Some(p) => p,
        None => { proof { if hyp { assert(false); } } return None; },
    };
    let ((v_ts, v_dur), i) = c3;
    if v_ts > u64::MAX as u128 {
        proof { if hyp { assert(false); } }
        return None;
    }
    if v_dur > u32::MAX as u128 {
        proof { if hyp { assert(false); } }
        return None;
    }
    let c4 = match parse_head_c4(b, i, Ghost(hyp), Ghost(h0), Ghost(rest0)) {
        Some(p) => p,
        None => { proof { if hyp { assert(false); } } return None; },
    };
    let ((v_up, v_uc), i) = c4;
    if v_up > u32::MAX as u128 {
        proof { if hyp { assert(false); } }
        return None;
    }
    if v_uc > u32::MAX as u128 {
        proof { if hyp { assert(false); } }
        return None;
    }
    let c5 = match parse_head_c5(b, i, Ghost(hyp), Ghost(h0), Ghost(rest0)) {
        Some(p) => p,
        None => { proof { if hyp { assert(false); } } return None; },
    };
    let ((v_ut, v_amt), i) = c5;
    if v_ut > u32::MAX as u128 {
        proof { if hyp { assert(false); } }
        return None;
    }
    if v_amt > u64::MAX as u128 {
        proof { if hyp { assert(false); } }
        return None;
    }
    let h = ParsedHead {
        id: v_id,
        request_id: v_req,
        service_id: v_svc,
        consumer_id: v_con,
        timestamp: v_ts as u64,
        duration_ms: v_dur as u32,
        prompt_tokens: v_up as u32,
        completion_tokens: v_uc as u32,
        total_tokens: v_ut as u32,
        amount_micros: v_amt as u64,
    };
    proof {
        lemma_subrange_split(b@, 0, c1.1 as int, c2.1 as int);
        lemma_subrange_split(b@, 0, c2.1 as int, c3.1 as int);
        lemma_subrange_split(b@, 0, c3.1 as int, c4.1 as int);
        lemma_subrange_split(b@, 0, c4.1 as int, i as int);
        assert(b@.subrange(0, c1.1 as int) =~= b@.subrange(0 as int, c1.1 as int));
        lemma_head_regroup(h,
            b@.subrange(0, c1.1 as int),
            b@.subrange(c1.1 as int, c2.1 as int),
            b@.subrange(c2.1 as int, c3.1 as int),
            b@.subrange(c3.1 as int, c4.1 as int),
            b@.subrange(c4.1 as int, i as int));
        assert(b@.subrange(0, i as int) == spec_parsed_head_bytes(h));
        if hyp {
            assert(h == h0);
            assert(b@.skip(i as int) == rest0);
            assert(i as int == b@.len() - rest0.len());
            lemma_head_transfer(b@, h0, rest0, h, i as int);
        }
    }
    Some((h, i))
}

/// The cost text of a record: currency and breakdown.
struct ParsedMid {
    currency: String,
    breakdown: CostBreakdown,
}

/// The wire form of the parsed cost text, shaped exactly like the
/// record's mid part.
spec fn spec_parsed_mid_bytes(m: ParsedMid) -> Seq<u8> {
    lit_currency() + (spec_escape(vstd::utf8::encode_utf8(m.currency@)) + seq![34u8])
        + lit_breakdown() + dec(bd_kind(m.breakdown) as nat)
        + lit_b_prompt() + dec(bd_prompt(m.breakdown) as nat)
        + lit_b_completion() + dec(bd_completion(m.breakdown) as nat)
        + lit_b_total() + dec(bd_total(m.breakdown) as nat)
        + lit_b_rate() + dec(bd_rate(m.breakdown) as nat)
        + lit_b_requests() + dec(bd_requests(m.breakdown) as nat)
}

/// Parse the currency text of the cost object, threading the caller's
/// shape hypothesis.
#[verifier::loop_isolation(false)]
#[verifier::rlimit(100)]
#[verifier::spinoff_prover]
fn parse_mid_currency(
    b: &[u8],
    start_i: usize,
    Ghost(hyp): Ghost<bool>,
    Ghost(m0): Ghost<ParsedMid>,
    Ghost(rest0): Ghost<Seq<u8>>,
) -> (r: Option<(String, usize)>)
    requires
        start_i <= b@.len(),
        hyp ==> rest0.len() > 0 && !text::spec_is_digit(rest0[0]),
        hyp ==> b@.skip(start_i as int) == lit_currency() + (spec_escape(vstd::utf8::encode_utf8(m0.currency@)) + (seq![34u8] + (lit_breakdown() + (dec(bd_kind(m0.breakdown) as nat) + (lit_b_prompt() + (dec(bd_prompt(m0.breakdown) as nat) + (lit_b_completion() + (dec(bd_completion(m0.breakdown) as nat) + (lit_b_total() + (dec(bd_total(m0.breakdown) as nat) + (lit_b_rate() + (dec(bd_rate(m0.breakdown) as nat) + (lit_b_requests() + (dec(bd_requests(m0.breakdown) as nat) + (rest0))))))))))))))),
    ensures
        r matches Some((cur, j)) ==> start_i <= j <= b@.len()
            && b@.subrange(start_i as int, j as int)
                == lit_currency() + (spec_escape(vstd::utf8::encode_utf8(cur@)) + seq![34u8]),
        hyp ==> (r matches Some((cur, j)) && cur@ == m0.currency@
            && b@.skip(j as int) == lit_breakdown() + (dec(bd_kind(m0.breakdown) as nat) + (lit_b_prompt() + (dec(bd_prompt(m0.breakdown) as nat) + (lit_b_completion() + (dec(bd_completion(m0.breakdown) as nat) + (lit_b_total() + (dec(bd_total(m0.breakdown) as nat) + (lit_b_rate() + (dec(bd_rate(m0.breakdown) as nat) + (lit_b_requests() + (dec(bd_requests(m0.breakdown) as nat) + (rest0))))))))))))),
{
    let ghost t16 = rest0;
    let ghost t15 = dec(bd_requests(m0.breakdown) as nat) + t16;
    let ghost t14 = lit_b_requests() + t15;
    let ghost t13 = dec(bd_rate(m0.breakdown) as nat) + t14;
    let ghost t12 = lit_b_rate() + t13;
    let ghost t11 = dec(bd_total(m0.breakdown) as nat) + t12;
    let ghost t10 = lit_b_total() + t11;
    let ghost t9 = dec(bd_completion(m0.breakdown) as nat) + t10;
    let ghost t8 = lit_b_completion() + t9;
    let ghost t7 = dec(bd_prompt(m0.breakdown) as nat) + t8;
    let ghost t6 = lit_b_prompt() + t7;
    let ghost t5 = dec(bd_kind(m0.breakdown) as nat) + t6;
    let ghost t4 = lit_breakdown() + t5;
    let ghost t3 = seq![34u8] + t4;
    let ghost t2 = spec_escape(vstd::utf8::encode_utf8(m0.currency@)) + t3;
    let ghost t1 = lit_currency() + t2;
    proof {
        if hyp {
            assert(b@.skip(start_i as int) == t1);
        }
    }
    let i: usize = start_i;
    let ghost mut pre: Seq<u8> = Seq::empty();
    let lv: Vec<u8> = vec![44, 34, 99, 117, 114, 114, 101, 110, 99, 121, 34, 58, 34];
    proof {
        assert(lv@ =~= lit_currency());
        if hyp {
            lemma_split_at(b@, i as int, lit_currency(), t2);
        }
    }
    let ghost i0 = i;
    let i: usize = match eat_lit(b, i, lv.as_slice()) {
        Some(j) => j,
        None => {
            proof { if hyp { assert(false); } }
            return None;
        },
    };
    proof {
        lemma_subrange_split(b@, start_i as int, i0 as int, i as int);
        pre = lit_currency();
    }
    proof {
        if hyp {
            lemma_split_at(b@, i as int, spec_escape(vstd::utf8::encode_utf8(m0.currency@)), t3);
            lemma_split_at(
                b@,
                i as int + spec_escape(vstd::utf8::encode_utf8(m0.currency@)).len(),
                seq![34u8],
                t4,
            );
            lemma_subrange_split(
                b@,
                i as int,
                i as int + spec_escape(vstd::utf8::encode_utf8(m0.currency@)).len(),
                i as int + spec_escape(vstd::utf8::encode_utf8(m0.currency@)).len() + 1,
            );
        }
    }
    let ghost str_start = i;
    let (cur_bytes, i): (Vec<u8>, usize) = match parse_string_body(b, i) {
        Some(p) => p,
        None => {
            proof { if hyp { assert(false); } }
            return None;
        },
    };
    proof {
        if hyp {
            assert(cur_bytes@ == vstd::utf8::encode_utf8(m0.currency@));
            assert(b@.skip(i as int) == t4);
        }
    }
    let currency: String = match text::utf8_to_string(cur_bytes) {
        Some(s) => s,
        None => {
            proof {
                if hyp {
                    vstd::utf8::encode_utf8_valid_utf8(m0.currency@);
                    assert(false);
                }
            }
            return None;
        },
    };
    proof {
        if hyp {
            vstd::utf8::encode_utf8_decode_utf8(m0.currency@);
            vstd::utf8::encode_utf8_decode_utf8(currency@);
            assert(currency@ == m0.currency@);
        }
        lemma_subrange_split(b@, start_i as int, str_start as int, i as int);
        pre = pre + (spec_escape(vstd::utf8::encode_utf8(currency@)) + seq![34u8]);
        assert(b@.subrange(start_i as int, i as int) == pre);
    }
    Some((currency, i))
}

/// Parse the breakdown kind and token fields of the cost object, threading the caller's shape hypothesis.
#[verifier::loop_isolation(false)]
#[verifier::rlimit(100)]
#[verifier::spinoff_prover]
fn parse_mid_kind(
    b: &[u8],
    start_i: usize,
    Ghost(hyp): Ghost<bool>,
    Ghost(m0): Ghost<ParsedMid>,
    Ghost(rest0): Ghost<Seq<u8>>,
) -> (r: Option<((u128, u128, u128), usize)>)
    requires
        start_i <= b@.len(),
        hyp ==> rest0.len() > 0 && !text::spec_is_digit(rest0[0]),
        hyp ==> b@.skip(start_i as int) == lit_breakdown() + (dec(bd_kind(m0.breakdown) as nat) + (lit_b_prompt() + (dec(bd_prompt(m0.breakdown) as nat) + (lit_b_completion() + (dec(bd_completion(m0.breakdown) as nat) + (lit_b_total() + (dec(bd_total(m0.breakdown) as nat) + (lit_b_rate() + (dec(bd_rate(m0.breakdown) as nat) + (lit_b_requests() + (dec(bd_requests(m0.breakdown) as nat) + (rest0)))))))))))),
    ensures
        r matches Some((vals, j)) ==> start_i <= j <= b@.len()
            && b@.subrange(start_i as int, j as int) == lit_breakdown() + dec(vals.0 as nat) + lit_b_prompt() + dec(vals.1 as nat) + lit_b_completion() + dec(vals.2 as nat),
        hyp ==> (r matches Some((vals, j))
            && vals.0 == bd_kind(m0.breakdown) as u128 && vals.1 == bd_prompt(m0.breakdown) as u128 && vals.2 == bd_completion(m0.breakdown) as u128
            && b@.skip(j as int) == lit_b_total() + (dec(bd_total(m0.breakdown) as nat) + (lit_b_rate() + (dec(bd_rate(m0.breakdown) as nat) + (lit_b_requests() + (dec(bd_requests(m0.breakdown) as nat) + (rest0))))))),
{
    let ghost t16 = rest0;
    let ghost t15 = dec(bd_requests(m0.breakdown) as nat) + t16;
    let ghost t14 = lit_b_requests() + t15;
    let ghost t13 = dec(bd_rate(m0.breakdown) as nat) + t14;
    let ghost t12 = lit_b_rate() + t13;
    let ghost t11 = dec(bd_total(m0.breakdown) as nat) + t12;
    let ghost t10 = lit_b_total() + t11;
    let ghost t9 = dec(bd_completion(m0.breakdown) as nat) + t10;
    let ghost t8 = lit_b_completion() + t9;
    let ghost t7 = dec(bd_prompt(m0.breakdown) as nat) + t8;
    let ghost t6 = lit_b_prompt() + t7;
    let ghost t5 = dec(bd_kind(m0.breakdown) as nat) + t6;
    let ghost t4 = lit_breakdown() + t5;
    proof {
        if hyp {
            assert(b@.skip(start_i as int) == t4);
        }
    }
    let i: usize = start_i;
    let ghost mut pre: Seq<u8> = Seq::empty();
    let lv: Vec<u8> = vec![44, 34, 98, 114, 101, 97, 107, 100, 111, 119, 110, 34, 58, 123, 34, 107, 105, 110, 100, 34, 58];
    proof {
        assert(lv@ =~= lit_breakdown());
        if hyp {
            lemma_split_at(b@, i as int, lit_breakdown(), t5);
        }
    }
    let ghost i0 = i;
    let i: usize = match eat_lit(b, i, lv.as_slice()) {
        Some(j) => j,
        None => {
            proof { if hyp { assert(false); } }
            return None;
        },
    };
    proof {
        lemma_subrange_split(b@, start_i as int, i0 as int, i as int);
        pre = lit_breakdown();
    }
    let ghost i0 = i;
    proof {
        if hyp {
            text::lemma_dec_digits_are_digits(bd_kind(m0.breakdown) as nat);
            lemma_split_at(b@, i as int, dec(bd_kind(m0.breakdown) as nat), t6);
            assert(t6[0] == lit_b_prompt()[0]);
            assert(!text::spec_is_digit(b@[i as int + dec(bd_kind(m0.breakdown) as nat).len()])) by {
                assert(b@.skip(i as int + dec(bd_kind(m0.breakdown) as nat).len())[0]
                    == b@[i as int + dec(bd_kind(m0.breakdown) as nat).len()]);
            };
        }
    }
    let (w0, i): (u128, usize) = match parse_num(b, i) {
        Some(p) => p,
        None => {
            proof { if hyp { assert(false); } }
            return None;
        },
    };
    proof {
        if hyp {
            assert(w0 == bd_kind(m0.breakdown) as u128);
        }
        lemma_subrange_split(b@, start_i as int, i0 as int, i as int);
        pre = pre + dec(w0 as nat);
    }
    let lv: Vec<u8> = vec![44, 34, 112, 114, 111, 109, 112, 116, 95, 116, 111, 107, 101, 110, 115, 34, 58];
    proof {
        assert(lv@ =~= lit_b_prompt());
        if hyp {
            lemma_split_at(b@, i as int, lit_b_prompt(), t7);
        }
    }
    let ghost i0 = i;
    let i: usize = match eat_lit(b, i, lv.as_slice()) {
        Some(j) => j,
        None => {
            proof { if hyp { assert(false); } }
            return None;
        },
    };
    proof {
        lemma_subrange_split(b@, start_i as int, i0 as int, i as int);
        pre = pre + lit_b_prompt();
    }
    let ghost i0 = i;
    proof {
        if hyp {
            text::lemma_dec_digits_are_digits(bd_prompt(m0.breakdown) as nat);
            lemma_split_at(b@, i as int, dec(bd_prompt(m0.breakdown) as nat), t8);
            assert(t8[0] == lit_b_completion()[0]);
            assert(!text::spec_is_digit(b@[i as int + dec(bd_prompt(m0.breakdown) as nat).len()])) by {
                assert(b@.skip(i as int + dec(bd_prompt(m0.breakdown) as nat).len())[0]
                    == b@[i as int + dec(bd_prompt(m0.breakdown) as nat).len()]);
            };
        }
    }
    let (w1, i): (u128, usize) = match parse_num(b, i) {
        Some(p) => p,
        None => {
            proof { if hyp { assert(false); } }
            return None;
        },
    };
    proof {
        if hyp {
            assert(w1 == bd_prompt(m0.breakdown) as u128);
        }
        lemma_subrange_split(b@, start_i as int, i0 as int, i as int);
        pre = pre + dec(w1 as nat);
    }
    let lv: Vec<u8> = vec![44, 34, 99, 111, 109, 112, 108, 101, 116, 105, 111, 110, 95, 116, 111, 107, 101, 110, 115, 34, 58];
    proof {
        assert(lv@ =~= lit_b_completion());
        if hyp {
            lemma_split_at(b@, i as int, lit_b_completion(), t9);
        }
    }
    let ghost i0 = i;
    let i: usize = match eat_lit(b, i, lv.as_slice()) {
        Some(j) => j,
        None => {
            proof { if hyp { assert(false); } }
            return None;
        },
    };
    proof {
        lemma_subrange_split(b@, start_i as int, i0 as int, i as int);
        pre = pre + lit_b_completion();
    }
    let ghost i0 = i;
    proof {
        if hyp {
            text::lemma_dec_digits_are_digits(bd_completion(m0.breakdown) as nat);
            lemma_split_at(b@, i as int, dec(bd_completion(m0.breakdown) as nat), t10);
            assert(t10[0] == lit_b_total()[0]);
            assert(!text::spec_is_digit(b@[i as int + dec(bd_completion(m0.breakdown) as nat).len()])) by {
                assert(b@.skip(i as int + dec(bd_completion(m0.breakdown) as nat).len())[0]
                    == b@[i as int + dec(bd_completion(m0.breakdown) as nat).len()]);
            };
        }
    }
    let (w2, i): (u128, usize) = match parse_num(b, i) {
        Some(p) => p,
        None => {
            proof { if hyp { assert(false); } }
            return None;
        },
    };
    proof {
        if hyp {
            assert(w2 == bd_completion(m0.breakdown) as u128);
        }
        lemma_subrange_split(b@, start_i as int, i0 as int, i as int);
        pre = pre + dec(w2 as nat);
    }
    proof {
        assert(b@.subrange(start_i as int, i as int) == pre);
        if hyp {
            assert(b@.skip(i as int) == t10);
        }
    }
    Some(((w0, w1, w2), i))
}

/// Parse the breakdown rate and request fields of the cost object, threading the caller's shape hypothesis.
#[verifier::loop_isolation(false)]
#[verifier::rlimit(100)]
#[verifier::spinoff_prover]
fn parse_mid_rates(
    b: &[u8],
    start_i: usize,
    Ghost(hyp): Ghost<bool>,
    Ghost(m0): Ghost<ParsedMid>,
    Ghost(rest0): Ghost<Seq<u8>>,
) -> (r: Option<((u128, u128, u128), usize)>)
    requires
        start_i <= b@.len(),
        hyp ==> rest0.len() > 0 && !text::spec_is_digit(rest0[0]),
        hyp ==> b@.skip(start_i as int) == lit_b_total() + (dec(bd_total(m0.breakdown) as nat) + (lit_b_rate() + (dec(bd_rate(m0.breakdown) as nat) + (lit_b_requests() + (dec(bd_requests(m0.breakdown) as nat) + (rest0)))))),
    ensures
        r matches Some((vals, j)) ==> start_i <= j <= b@.len()
            && b@.subrange(start_i as int, j as int) == lit_b_total() + dec(vals.0 as nat) + lit_b_rate() + dec(vals.1 as nat) + lit_b_requests() + dec(vals.2 as nat),
        hyp ==> (r matches Some((vals, j))
            && vals.0 == bd_total(m0.breakdown) as u128 && vals.1 == bd_rate(m0.breakdown) as u128 && vals.2 == bd_requests(m0.breakdown) as u128
            && b@.skip(j as int) == rest0),
{
    let ghost t16 = rest0;
    let ghost t15 = dec(bd_requests(m0.breakdown) as nat) + t16;
    let ghost t14 = lit_b_requests() + t15;
    let ghost t13 = dec(bd_rate(m0.breakdown) as nat) + t14;
    let ghost t12 = lit_b_rate() + t13;
    let ghost t11 = dec(bd_total(m0.breakdown) as nat) + t12;
    let ghost t10 = lit_b_total() + t11;
    proof {
        if hyp {
            assert(b@.skip(start_i as int) == t10);
        }
    }
    let i: usize = start_i;
    let ghost mut pre: Seq<u8> = Seq::empty();
    let lv: Vec<u8> = vec![44, 34, 116, 111, 116, 97, 108, 95, 116, 111, 107, 101, 110, 115, 34, 58];
    proof {
        assert(lv@ =~= lit_b_total());
        if hyp {
            lemma_split_at(b@, i as int, lit_b_total(), t11);
        }
    }
    let ghost i0 = i;
    let i: usize = match eat_lit(b, i, lv.as_slice()) {
        Some(j) => j,
        None => {
            proof { if hyp { assert(false); } }
            return None;
        },
    };
    proof {
        lemma_subrange_split(b@, start_i as int, i0 as int, i as int);
        pre = lit_b_total();
    }
    let ghost i0 = i;
    proof {
        if hyp {
            text::lemma_dec_digits_are_digits(bd_total(m0.breakdown) as nat);
            lemma_split_at(b@, i as int, dec(bd_total(m0.breakdown) as nat), t12);
            assert(t12[0] == lit_b_rate()[0]);
            assert(!text::spec_is_digit(b@[i as int + dec(bd_total(m0.breakdown) as nat).len()])) by {
                assert(b@.skip(i as int + dec(bd_total(m0.breakdown) as nat).len())[0]
                    == b@[i as int + dec(bd_total(m0.breakdown) as nat).len()]);
            };
        }
    }
    let (w0, i): (u128, usize) = match parse_num(b, i) {
        Some(p) => p,
        None => {
            proof { if hyp { assert(false); } }
            return None;
        },
    };
    proof {
        if hyp {
            assert(w0 == bd_total(m0.breakdown) as u128);
        }
        lemma_subrange_split(b@, start_i as int, i0 as int, i as int);
        pre = pre + dec(w0 as nat);
    }
    let lv: Vec<u8> = vec![44, 34, 114, 97, 116, 101, 95, 109, 105, 99, 114, 111, 115, 34, 58];
    proof {
        assert(lv@ =~= lit_b_rate());
        if hyp {
            lemma_split_at(b@, i as int, lit_b_rate(), t13);
        }
    }
    let ghost i0 = i;
    let i: usize = match eat_lit(b, i, lv.as_slice()) {
        Some(j) => j,
        None => {
            proof { if hyp { assert(false); } }
            return None;
        },
    };
    proof {
        lemma_subrange_split(b@, start_i as int, i0 as int, i as int);
        pre = pre + lit_b_rate();
    }
    let ghost i0 = i;
    proof {
        if hyp {
            text::lemma_dec_digits_are_digits(bd_rate(m0.breakdown) as nat);
            lemma_split_at(b@, i as int, dec(bd_rate(m0.breakdown) as nat), t14);
            assert(t14[0] == lit_b_requests()[0]);
            assert(!text::spec_is_digit(b@[i as int + dec(bd_rate(m0.breakdown) as nat).len()])) by {
                assert(b@.skip(i as int + dec(bd_rate(m0.breakdown) as nat).len())[0]
                    == b@[i as int + dec(bd_rate(m0.breakdown) as nat).len()]);
            };
        }
    }
    let (w1, i): (u128, usize) = match parse_num(b, i) {
        Some(p) => p,
        None => {
            proof { if hyp { assert(false); } }
            return None;
        },
    };
    proof {
        if hyp {
            assert(w1 == bd_rate(m0.breakdown) as u128);
        }
        lemma_subrange_split(b@, start_i as int, i0 as int, i as int);
        pre = pre + dec(w1 as nat);
    }
    let lv: Vec<u8> = vec![44, 34, 114, 101, 113, 117, 101, 115, 116, 115, 34, 58];
    proof {
        assert(lv@ =~= lit_b_requests());
        if hyp {
            lemma_split_at(b@, i as int, lit_b_requests(), t15);
        }
    }
    let ghost i0 = i;
    let i: usize = match eat_lit(b, i, lv.as_slice()) {
        Some(j) => j,
        None => {
            proof { if hyp { assert(false); } }
            return None;
        },
    };
    proof {
        lemma_subrange_split(b@, start_i as int, i0 as int, i as int);
        pre = pre + lit_b_requests();
    }
    let ghost i0 = i;
    proof {
        if hyp {
            text::lemma_dec_digits_are_digits(bd_requests(m0.breakdown) as nat);
            lemma_split_at(b@, i as int, dec(bd_requests(m0.breakdown) as nat), t16);
            assert(t16[0] == rest0[0]);
            assert(!text::spec_is_digit(b@[i as int + dec(bd_requests(m0.breakdown) as nat).len()])) by {
                assert(b@.skip(i as int + dec(bd_requests(m0.breakdown) as nat).len())[0]
                    == b@[i as int + dec(bd_requests(m0.breakdown) as nat).len()]);
            };
        }
    }
    let (w2, i): (u128, usize) = match parse_num(b, i) {
        Some(p) => p,
        None => {
            proof { if hyp { assert(false); } }
            return None;
        },
    };
    proof {
        if hyp {
            assert(w2 == bd_requests(m0.breakdown) as u128);
        }
        lemma_subrange_split(b@, start_i as int, i0 as int, i as int);
        pre = pre + dec(w2 as nat);
    }
    proof {
        assert(b@.subrange(start_i as int, i as int) == pre);
        if hyp {
            assert(b@.skip(i as int) == t16);
        }
    }
    Some(((w0, w1, w2), i))
}

/// The three chunk segments assemble to the cost text.
#[verifier::rlimit(100)]
#[verifier::spinoff_prover]
proof fn lemma_mid_regroup(m: ParsedMid, g1: Seq<u8>, g2: Seq<u8>, g3: Seq<u8>)
    requires
        g1 == lit_currency() + (spec_escape(vstd::utf8::encode_utf8(m.currency@)) + seq![34u8]),
        g2 == lit_breakdown() + dec(bd_kind(m.breakdown) as nat) + lit_b_prompt() + dec(bd_prompt(m.breakdown) as nat) + lit_b_completion() + dec(bd_completion(m.breakdown) as nat),
        g3 == lit_b_total() + dec(bd_total(m.breakdown) as nat) + lit_b_rate() + dec(bd_rate(m.breakdown) as nat) + lit_b_requests() + dec(bd_requests(m.breakdown) as nat),
    ensures
        g1 + g2 + g3 == spec_parsed_mid_bytes(m),
{
    assert(g1 + g2 + g3 =~= spec_parsed_mid_bytes(m));
}

/// Parse the cost text of a record starting at `start_i`: the currency and
/// the flattened breakdown. Whenever the input there is the formatted cost
/// text of some parsed middle followed by a non-digit, the parse succeeds
/// with exactly those fields.
#[verifier::loop_isolation(false)]
#[verifier::rlimit(100)]
#[verifier::spinoff_prover]
fn parse_record_mid(b: &[u8], start_i: usize) -> (r: Option<(ParsedMid, usize)>)
    requires
        start_i <= b@.len(),
    ensures
        r matches Some((m, j)) ==> start_i <= j <= b@.len()
            && b@.subrange(start_i as int, j as int) == spec_parsed_mid_bytes(m),
        forall|m: ParsedMid, rest: Seq<u8>|
            #![trigger spec_parsed_mid_bytes(m).add(rest)]
            {
                &&& b@.skip(start_i as int) == spec_parsed_mid_bytes(m) + rest
                &&& rest.len() > 0
                &&& !text::spec_is_digit(rest[0])
            } ==> (r matches Some((m2, j2)) && m2.currency@ == m.currency@
                && m2.breakdown == m.breakdown
                && j2 as int == b@.len() - rest.len()),
{
    let ghost hyp = exists|m: ParsedMid, rest: Seq<u8>|
        #![trigger spec_parsed_mid_bytes(m).add(rest)]
        {
            &&& b@.skip(start_i as int) == spec_parsed_mid_bytes(m) + rest
            &&& rest.len() > 0
            &&& !text::spec_is_digit(rest[0])
        };
    let ghost (m0, rest0): (ParsedMid, Seq<u8>) = if hyp {
        choose|m: ParsedMid, rest: Seq<u8>|
            #![trigger spec_parsed_mid_bytes(m).add(rest)]
            {
                &&& b@.skip(start_i as int) == spec_parsed_mid_bytes(m) + rest
                &&& rest.len() > 0
                &&& !text::spec_is_digit(rest[0])
            }
    } else {
        (vstd::pervasive::arbitrary(), Seq::empty())
    };
    proof {
        if hyp {
            lemma_parsed_mid_rassoc(m0, rest0);
        }
    }
    let c1 = match parse_mid_currency(b, start_i, Ghost(hyp), Ghost(m0), Ghost(rest0)) {
        Some(p) => p,
        None => { proof { if hyp { assert(false); } } return None; },
    };
    let (currency, i1) = c1;
    let c2 = match parse_mid_kind(b, i1, Ghost(hyp), Ghost(m0), Ghost(rest0)) {
        Some(p) => p,
        None => { proof { if hyp { assert(false); } } return None; },
    };
    let ((v_k, v_bp, v_bc), i2) = c2;
    let c3 = match parse_mid_rates(b, i2, Ghost(hyp), Ghost(m0), Ghost(rest0)) {
        Some(p) => p,
        None => { proof { if hyp { assert(false); } } return None; },
    };
    let ((v_bt, v_br, v_bq), i) = c3;
    if v_k > u32::MAX as u128 || v_bp > u32::MAX as u128 || v_bc > u32::MAX as u128
        || v_bt > u32::MAX as u128 || v_br > u64::MAX as u128 || v_bq > u32::MAX as u128 {
        proof { if hyp { assert(false); } }
        return None;
    }
    let breakdown: CostBreakdown = if v_k == 0 {
        if v_bq != 0 {
            proof { if hyp { assert(false); } }
            return None;
        }
        CostBreakdown::PerToken {
            prompt_tokens: v_bp as u32,
            completion_tokens: v_bc as u32,
            total_tokens: v_bt as u32,
            rate_micros_per_token: v_br as u64,
        }
    } else if v_k == 1 {
        if v_bp != 0 || v_bc != 0 || v_bt != 0 {
            proof { if hyp { assert(false); } }
            return None;
        }
        CostBreakdown::PerRequest { requests: v_bq as u32, rate_micros_per_request: v_br as u64 }
    } else if v_k == 2 {
        if v_bp != 0 || v_bc != 0 || v_bt != 0 || v_br != 0 || v_bq != 0 {
            proof { if hyp { assert(false); } }
            return None;
        }
        CostBreakdown::Subscription
    } else if v_k == 3 {
        if v_bp != 0 || v_bc != 0 || v_bt != 0 || v_br != 0 || v_bq != 0 {
            proof { if hyp { assert(false); } }
            return None;
        }
        CostBreakdown::UnknownModel
    } else {
        proof { if hyp { assert(false); } }
        return None;
    };
    let m = ParsedMid { currency, breakdown };
    proof {
        lemma_subrange_split(b@, start_i as int, i1 as int, i2 as int);
        lemma_subrange_split(b@, start_i as int, i2 as int, i as int);
        lemma_mid_regroup(m,
            b@.subrange(start_i as int, i1 as int),
            b@.subrange(i1 as int, i2 as int),
            b@.subrange(i2 as int, i as int));
        assert(b@.subrange(start_i as int, i as int) == spec_parsed_mid_bytes(m));
        if hyp {
            lemma_breakdown_determined(m.breakdown, m0.breakdown);
            assert(b@.skip(i as int) == rest0);
            assert(i as int == b@.len() - rest0.len());
            lemma_mid_transfer(b@, start_i as int, m0, rest0, m, i as int);
        }
    }
    Some((m, i))
}

/// Transfer the chosen witness's conclusion to every shape of the cost
/// text.
proof fn lemma_mid_transfer(b: Seq<u8>, start: int, m0: ParsedMid, rest0: Seq<u8>, m: ParsedMid, j: int)
    requires
        0 <= start <= b.len(),
        b.skip(start) == spec_parsed_mid_bytes(m0) + rest0,
        rest0.len() > 0,
        !text::spec_is_digit(rest0[0]),
        m.currency@ == m0.currency@,
        m.breakdown == m0.breakdown,
        j == b.len() - rest0.len(),
    ensures
        forall|m3: ParsedMid, rest3: Seq<u8>|
            #![trigger spec_parsed_mid_bytes(m3).add(rest3)]
            {
                &&& b.skip(start) == spec_parsed_mid_bytes(m3) + rest3
                &&& rest3.len() > 0
                &&& !text::spec_is_digit(rest3[0])
            } ==> (m3.currency@ == m.currency@ && m3.breakdown == m.breakdown
                && b.len() - rest3.len() == j),
{
    assert forall|m3: ParsedMid, rest3: Seq<u8>|
        #![trigger spec_parsed_mid_bytes(m3).add(rest3)]
        ({
            &&& b.skip(start) == spec_parsed_mid_bytes(m3) + rest3
            &&& rest3.len() > 0
            &&& !text::spec_is_digit(rest3[0])
        }) implies (m3.currency@ == m.currency@ && m3.breakdown == m.breakdown
            && b.len() - rest3.len() == j) by {
        lemma_parsed_mid_unique(m3, rest3, m0, rest0);
    }
}

/// The closing text of a record: status and error.
struct ParsedTail {
    status: RecordStatus,
    error: Option<String>,
}

/// The wire form of the parsed closing text, shaped exactly like the
/// record's tail part.
spec fn spec_parsed_tail_bytes(t: ParsedTail) -> Seq<u8> {
    lit_status() + spec_status_bytes(t.status)
        + lit_err_field() + spec_error_bytes(match t.error {
            Some(m) => Some(m@),
            None => None,
        })
        + lit_close()
}

/// Parse the status part of a record's closing text, threading the
/// caller's shape hypothesis.
#[verifier::loop_isolation(false)]
#[verifier::rlimit(100)]
#[verifier::spinoff_prover]
fn parse_tail_status(
    b: &[u8],
    start_i: usize,
    Ghost(hyp): Ghost<bool>,
    Ghost(t0): Ghost<ParsedTail>,
    Ghost(rest0): Ghost<Seq<u8>>,
) -> (r: Option<(RecordStatus, usize)>)
    requires
        start_i <= b@.len(),
        hyp ==> b@.skip(start_i as int) == lit_status() + (spec_status_bytes(t0.status)
            + (lit_err_field() + (spec_error_bytes(match t0.error {
                Some(mm) => Some(mm@),
                None => None,
            }) + (lit_close() + rest0)))),
    ensures
        r matches Some((status, j)) ==> start_i <= j <= b@.len()
            && b@.subrange(start_i as int, j as int) == lit_status() + spec_status_bytes(status),
        hyp ==> (r matches Some((status, j)) && status == t0.status
            && b@.skip(j as int) == lit_err_field() + (spec_error_bytes(match t0.error {
                Some(mm) => Some(mm@),
                None => None,
            }) + (lit_close() + rest0))),
{
    let ghost c6 = rest0;
    let ghost c5 = lit_close() + c6;
    let ghost c4 = spec_error_bytes(match t0.error {
        Some(mm) => Some(mm@),
        None => None,
    }) + c5;
    let ghost c3 = lit_err_field() + c4;
    let ghost c2 = spec_status_bytes(t0.status) + c3;
    let i: usize = start_i;
    let ghost mut pre: Seq<u8> = Seq::empty();
    let lv: Vec<u8> = vec![125, 125, 44, 34, 115, 116, 97, 116, 117, 115, 34, 58, 34];
    proof {
        assert(lv@ =~= lit_status());
        if hyp {
            lemma_split_at(b@, i as int, lit_status(), c2);
        }
    }
    let ghost i0 = i;
    let i: usize = match eat_lit(b, i, lv.as_slice()) {
        Some(j) => j,
        None => {
            proof { if hyp { assert(false); } }
            return None;
        },
    };
    proof {
        lemma_subrange_split(b@, start_i as int, i0 as int, i as int);
        pre = lit_status();
        if hyp {
            lemma_split_at(b@, i as int, spec_status_bytes(t0.status), c3);
        }
    }
    let sv: Vec<u8> = vec![115, 117, 99, 99, 101, 115, 115, 34];
    proof { assert(sv@ =~= lit_success()); }
    let ev: Vec<u8> = vec![101, 114, 114, 111, 114, 34];
    proof { assert(ev@ =~= lit_error_word()); }
    let ghost i0 = i;
    let (status, i): (RecordStatus, usize) = match eat_lit(b, i, sv.as_slice()) {
        Some(j) => {
            proof {
                if hyp && t0.status == RecordStatus::Error {
                    assert(b@[i as int] == lit_error_word()[0]) by {
                        assert(b@[i as int]
                            == b@.subrange(i as int, i as int + spec_status_bytes(t0.status).len())[0]);
                    };
                    assert(b@[i as int] == lit_success()[0]) by {
                        assert(b@[i as int] == b@.subrange(i as int, j as int)[0]);
                    };
                    assert(false);
                }
            }
            (RecordStatus::Success, j)
        },
        None => {
            proof {
                if hyp && t0.status == RecordStatus::Success {
                    assert(false);
                }
            }
            match eat_lit(b, i, ev.as_slice()) {
                Some(j) => (RecordStatus::Error, j),
                None => {
                    proof { if hyp { assert(false); } }
                    return None;
                },
            }
        },
    };
    proof {
        lemma_subrange_split(b@, start_i as int, i0 as int, i as int);
        pre = pre + spec_status_bytes(status);
        if hyp {
            assert(status == t0.status);
            assert(b@.skip(i as int) == c3);
        }
        assert(b@.subrange(start_i as int, i as int) == pre);
    }
    Some((status, i))
}

/// Parse the error part of a record's closing text, threading the caller's
/// shape hypothesis.
#[verifier::loop_isolation(false)]
#[verifier::rlimit(100)]
#[verifier::spinoff_prover]
fn parse_tail_error(
    b: &[u8],
    start_i: usize,
    Ghost(hyp): Ghost<bool>,
    Ghost(t0): Ghost<ParsedTail>,
    Ghost(rest0): Ghost<Seq<u8>>,
) -> (r: Option<(Option<String>, usize)>)
    requires
        start_i <= b@.len(),
        hyp ==> b@.skip(start_i as int) == lit_err_field() + (spec_error_bytes(match t0.error {
            Some(mm) => Some(mm@),
            None => None,
        }) + (lit_close() + rest0)),
    ensures
        r matches Some((error, j)) ==> start_i <= j <= b@.len()
            && b@.subrange(start_i as int, j as int)
                == lit_err_field() + spec_error_bytes(match error {
                    Some(m) => Some(m@),
                    None => None,
                }) + lit_close(),
        hyp ==> (r matches Some((error, j))
            && (match (error, t0.error) {
                (None, None) => true,
                (Some(e2), Some(e1)) => e2@ == e1@,
                _ => false,
            })
            && b@.skip(j as int) == rest0),
{
    let ghost e0: Seq<u8> = spec_error_bytes(match t0.error {
        Some(mm) => Some(mm@),
        None => None,
    });
    let ghost c6 = rest0;
    let ghost c5 = lit_close() + c6;
    let ghost c4 = e0 + c5;
    let i: usize = start_i;
    let ghost mut pre: Seq<u8> = Seq::empty();
    let fv: Vec<u8> = vec![44, 34, 101, 114, 114, 111, 114, 34, 58];
    proof {
        assert(fv@ =~= lit_err_field());
        if hyp {
            lemma_split_at(b@, i as int, lit_err_field(), c4);
        }
    }
    let ghost i0 = i;
    let i: usize = match eat_lit(b, i, fv.as_slice()) {
        Some(j) => j,
        None => {
            proof { if hyp { assert(false); } }
            return None;
        },
    };
    proof {
        lemma_subrange_split(b@, start_i as int, i0 as int, i as int);
        pre = lit_err_field();
        if hyp {
            lemma_split_at(b@, i as int, e0, c5);
        }
    }
    let nv: Vec<u8> = vec![110, 117, 108, 108];
    proof { assert(nv@ =~= lit_null_word()); }
    let ghost i0 = i;
    let (error, i): (Option<String>, usize) = match eat_lit(b, i, nv.as_slice()) {
        Some(j) => {
            proof {
                if hyp && t0.error is Some {
                    assert(b@[i as int] == e0[0]) by {
                        assert(b@[i as int] == b@.subrange(i as int, i as int + e0.len())[0]);
                    };
                    assert(e0[0] == 34u8);
                    assert(b@[i as int] == lit_null_word()[0]) by {
                        assert(b@[i as int] == b@.subrange(i as int, j as int)[0]);
                    };
                    assert(false);
                }
            }
            (None, j)
        },
        None => {
            proof {
                if hyp && t0.error is None {
                    assert(e0 == lit_null_word());
                    assert(false);
                }
            }
            if i >= b.len() || b[i] != 34 {
                proof {
                    if hyp {
                        assert(b@[i as int] == e0[0]) by {
                            assert(b@[i as int] == b@.subrange(i as int, i as int + e0.len())[0]);
                        };
                        assert(e0[0] == 34u8);
                        assert(false);
                    }
                }
                return None;
            }
            proof {
                if hyp {
                    let msg0 = t0.error->Some_0@;
                    let enc0 = vstd::utf8::encode_utf8(msg0);
                    let x = spec_escape(enc0) + seq![34u8];
                    assert(e0 == seq![34u8] + spec_escape(enc0) + seq![34u8]);
                    assert(e0 =~= seq![34u8] + x);
                    assert(e0.len() == x.len() + 1);
                    assert(b@.subrange(i + 1 as int, i as int + e0.len()) =~= x) by {
                        assert(forall|q: int| 0 <= q < x.len()
                            ==> #[trigger] x[q] == (seq![34u8] + x)[1 + q]);
                        assert(forall|q: int| 0 <= q < x.len()
                            ==> #[trigger] b@.subrange(i + 1 as int, i as int + e0.len())[q]
                                == b@[i + 1 + q]);
                        assert(forall|q: int| 0 <= q < e0.len()
                            ==> b@[i + q] == #[trigger] b@.subrange(i as int, i as int + e0.len())[q]);
                    };
                }
            }
            let (err_bytes, j) = match parse_string_body(b, i + 1) {
                Some(p) => p,
                None => {
                    proof { if hyp { assert(false); } }
                    return None;
                },
            };
            proof {
                if hyp {
                    assert(err_bytes@ == vstd::utf8::encode_utf8(t0.error->Some_0@));
                }
            }
            let msg: String = match text::utf8_to_string(err_bytes) {
                Some(s) => s,
                None => {
                    proof {
                        if hyp {
                            vstd::utf8::encode_utf8_valid_utf8(t0.error->Some_0@);
                            assert(false);
                        }
                    }
                    return None;
                },
            };
            proof {
                assert(b@.subrange(i as int, j as int)
                    =~= seq![34u8] + (spec_escape(vstd::utf8::encode_utf8(msg@)) + seq![34u8]));
                assert(b@.subrange(i as int, j as int)
                    == spec_error_bytes(Some(msg@))) by {
                    assert(spec_error_bytes(Some(msg@))
                        =~= seq![34u8] + (spec_escape(vstd::utf8::encode_utf8(msg@)) + seq![34u8]));
                };
                if hyp {
                    vstd::utf8::encode_utf8_decode_utf8(t0.error->Some_0@);
                    vstd::utf8::encode_utf8_decode_utf8(msg@);
                    assert(msg@ == t0.error->Some_0@);
                    assert(j as int == i as int + e0.len());
                }
            }
            (Some(msg), j)
        },
    };
    proof {
        lemma_subrange_split(b@, start_i as int, i0 as int, i as int);
        pre = pre + spec_error_bytes(match &error {
            Some(m) => Some(m@),
            None => None,
        });
        if hyp {
            assert(b@.skip(i as int) == c5);
            lemma_split_at(b@, i as int, lit_close(), c6);
        }
    }
    let cv: Vec<u8> = vec![125];
    proof { assert(cv@ =~= lit_close()); }
    let ghost i0 = i;
    let i: usize = match eat_lit(b, i, cv.as_slice()) {
        Some(j) => j,
        None => {
            proof { if hyp { assert(false); } }
            return None;
        },
    };
    proof {
        lemma_subrange_split(b@, start_i as int, i0 as int, i as int);
        pre = pre + lit_close();
        assert(b@.subrange(start_i as int, i as int) == pre);
        if hyp {
            assert(b@.skip(i as int) == rest0);
        }
    }
    Some((error, i))
}

/// The two chunk segments assemble to the closing text.
proof fn lemma_tail_regroup(t: ParsedTail, g1: Seq<u8>, g2: Seq<u8>)
    requires
        g1 == lit_status() + spec_status_bytes(t.status),
        g2 == lit_err_field() + spec_error_bytes(match t.error {
            Some(m) => Some(m@),
            None => None,
        }) + lit_close(),
    ensures
        g1 + g2 == spec_parsed_tail_bytes(t),
{
    assert(g1 + g2 =~= spec_parsed_tail_bytes(t));
}

/// Parse the closing text of a record starting at `start_i`: status and
/// error. Whenever the input there is the formatted closing text of some
/// parsed tail followed by a remainder, the parse succeeds with exactly
/// those fields.
#[verifier::loop_isolation(false)]
#[verifier::rlimit(100)]
#[verifier::spinoff_prover]
fn parse_record_tail(b: &[u8], start_i: usize) -> (r: Option<(ParsedTail, usize)>)
    requires
        start_i <= b@.len(),
    ensures
        r matches Some((t, j)) ==> start_i <= j <= b@.len()
            && b@.subrange(start_i as int, j as int) == spec_parsed_tail_bytes(t),
        forall|t: ParsedTail, rest: Seq<u8>|
            #![trigger spec_parsed_tail_bytes(t).add(rest)]
            b@.skip(start_i as int) == spec_parsed_tail_bytes(t) + rest
            ==> (r matches Some((t2, j2)) && t2.status == t.status
                && (match (t2.error, t.error) {
                    (None, None) => true,
                    (Some(e2), Some(e1)) => e2@ == e1@,
                    _ => false,
                })
                && j2 as int == b@.len() - rest.len()),
{
    let ghost hyp = exists|t: ParsedTail, rest: Seq<u8>|
        #![trigger spec_parsed_tail_bytes(t).add(rest)]
        b@.skip(start_i as int) == spec_parsed_tail_bytes(t) + rest;
    let ghost (t0, rest0): (ParsedTail, Seq<u8>) = if hyp {
        choose|t: ParsedTail, rest: Seq<u8>|
            #![trigger spec_parsed_tail_bytes(t).add(rest)]
            b@.skip(start_i as int) == spec_parsed_tail_bytes(t) + rest
    } else {
        (vstd::pervasive::arbitrary(), Seq::empty())
    };
    proof {
        if hyp {
            lemma_parsed_tail_rassoc(t0, rest0);
        }
    }
    let c1 = match parse_tail_status(b, start_i, Ghost(hyp), Ghost(t0), Ghost(rest0)) {
        Some(p) => p,
        None => { proof { if hyp { assert(false); } } return None; },
    };
    let (status, i1) = c1;
    let c2 = match parse_tail_error(b, i1, Ghost(hyp), Ghost(t0), Ghost(rest0)) {
        Some(p) => p,
        None => { proof { if hyp { assert(false); } } return None; },
    };
    let (error, i) = c2;
    let t = ParsedTail { status, error };
    proof {
        lemma_subrange_split(b@, start_i as int, i1 as int, i as int);
        lemma_tail_regroup(t,
            b@.subrange(start_i as int, i1 as int),
            b@.subrange(i1 as int, i as int));
        assert(b@.subrange(start_i as int, i as int) == spec_parsed_tail_bytes(t));
        if hyp {
            assert(b@.skip(i as int) == rest0);
            assert(i as int == b@.len() - rest0.len());
        }
        assert forall|t3: ParsedTail, rest3: Seq<u8>|
            #![trigger spec_parsed_tail_bytes(t3).add(rest3)]
            b@.skip(start_i as int) == spec_parsed_tail_bytes(t3) + rest3
            implies (t3.status == t.status
                && (match (t.error, t3.error) {
                    (None, None) => true,
                    (Some(e2), Some(e1)) => e2@ == e1@,
                    _ => false,
                })
                && b@.len() - rest3.len() == i as int) by {
            lemma_parsed_tail_unique(t3, rest3, t0, rest0);
        }
    }
    Some((t, i))
}

/// The parsed shape re-associated to the right, before a remainder.
proof fn lemma_parsed_head_rassoc(h: ParsedHead, rest: Seq<u8>)
    ensures
        spec_parsed_head_bytes(h) + rest == (lit_obj_id()) + ((dec(h.id as nat)) + ((lit_req_id()) + ((dec(h.request_id as nat)) + ((lit_svc_id()) + ((dec(h.service_id as nat)) + ((lit_con_id()) + ((dec(h.consumer_id as nat)) + ((lit_ts()) + ((dec(h.timestamp as nat)) + ((lit_dur()) + ((dec(h.duration_ms as nat)) + ((lit_usage()) + ((dec(h.prompt_tokens as nat)) + ((lit_completion()) + ((dec(h.completion_tokens as nat)) + ((lit_total()) + ((dec(h.total_tokens as nat)) + ((lit_cost()) + ((dec(h.amount_micros as nat)) + (rest)))))))))))))))))))),
{
    let p1 = lit_obj_id();
    let p2 = p1 + (dec(h.id as nat));
    let p3 = p2 + (lit_req_id());
    let p4 = p3 + (dec(h.request_id as nat));
    let p5 = p4 + (lit_svc_id());
    let p6 = p5 + (dec(h.service_id as nat));
    let p7 = p6 + (lit_con_id());
    let p8 = p7 + (dec(h.consumer_id as nat));
    let p9 = p8 + (lit_ts());
    let p10 = p9 + (dec(h.timestamp as nat));
    let p11 = p10 + (lit_dur());
    let p12 = p11 + (dec(h.duration_ms as nat));
    let p13 = p12 + (lit_usage());
    let p14 = p13 + (dec(h.prompt_tokens as nat));
    let p15 = p14 + (lit_completion());
    let p16 = p15 + (dec(h.completion_tokens as nat));
    let p17 = p16 + (lit_total());
    let p18 = p17 + (dec(h.total_tokens as nat));
    let p19 = p18 + (lit_cost());
    let p20 = p19 + (dec(h.amount_micros as nat));
    assert(p20 == spec_parsed_head_bytes(h));
    let r21 = rest;
    lemma_assoc(p19, dec(h.amount_micros as nat), r21);
    let r20 = (dec(h.amount_micros as nat)) + r21;
    lemma_assoc(p18, lit_cost(), r20);
    let r19 = (lit_cost()) + r20;
    lemma_assoc(p17, dec(h.total_tokens as nat), r19);
    let r18 = (dec(h.total_tokens as nat)) + r19;
    lemma_assoc(p16, lit_total(), r18);
    let r17 = (lit_total()) + r18;
    lemma_assoc(p15, dec(h.completion_tokens as nat), r17);
    let r16 = (dec(h.completion_tokens as nat)) + r17;
    lemma_assoc(p14, lit_completion(), r16);
    let r15 = (lit_completion()) + r16;
    lemma_assoc(p13, dec(h.prompt_tokens as nat), r15);
    let r14 = (dec(h.prompt_tokens as nat)) + r15;
    lemma_assoc(p12, lit_usage(), r14);
    let r13 = (lit_usage()) + r14;
    lemma_assoc(p11, dec(h.duration_ms as nat), r13);
    let r12 = (dec(h.duration_ms as nat)) + r13;
    lemma_assoc(p10, lit_dur(), r12);
    let r11 = (lit_dur()) + r12;
    lemma_assoc(p9, dec(h.timestamp as nat), r11);
    let r10 = (dec(h.timestamp as nat)) + r11;
    lemma_assoc(p8, lit_ts(), r10);
    let r9 = (lit_ts()) + r10;
    lemma_assoc(p7, dec(h.consumer_id as nat), r9);
    let r8 = (dec(h.consumer_id as nat)) + r9;
    lemma_assoc(p6, lit_con_id(), r8);
    let r7 = (lit_con_id()) + r8;
    lemma_assoc(p5, dec(h.service_id as nat), r7);
    let r6 = (dec(h.service_id as nat)) + r7;
    lemma_assoc(p4, lit_svc_id(), r6);
    let r5 = (lit_svc_id()) + r6;
    lemma_assoc(p3, dec(h.request_id as nat), r5);
    let r4 = (dec(h.request_id as nat)) + r5;
    lemma_assoc(p2, lit_req_id(), r4);
    let r3 = (lit_req_id()) + r4;
    lemma_assoc(p1, dec(h.id as nat), r3);
    let r2 = (dec(h.id as nat)) + r3;
}

/// The parsed shape re-associated to the right, before a remainder.
proof fn lemma_parsed_mid_rassoc(m: ParsedMid, rest: Seq<u8>)
    ensures
        spec_parsed_mid_bytes(m) + rest == (lit_currency()) + ((spec_escape(vstd::utf8::encode_utf8(m.currency@))) + ((seq![34u8]) + ((lit_breakdown()) + ((dec(bd_kind(m.breakdown) as nat)) + ((lit_b_prompt()) + ((dec(bd_prompt(m.breakdown) as nat)) + ((lit_b_completion()) + ((dec(bd_completion(m.breakdown) as nat)) + ((lit_b_total()) + ((dec(bd_total(m.breakdown) as nat)) + ((lit_b_rate()) + ((dec(bd_rate(m.breakdown) as nat)) + ((lit_b_requests()) + ((dec(bd_requests(m.breakdown) as nat)) + (rest))))))))))))))),
{
    let p1 = lit_currency();
    let p2 = p1 + (spec_escape(vstd::utf8::encode_utf8(m.currency@)));
    let p3 = p2 + (seq![34u8]);
    let p4 = p3 + (lit_breakdown());
    let p5 = p4 + (dec(bd_kind(m.breakdown) as nat));
    let p6 = p5 + (lit_b_prompt());
    let p7 = p6 + (dec(bd_prompt(m.breakdown) as nat));
    let p8 = p7 + (lit_b_completion());
    let p9 = p8 + (dec(bd_completion(m.breakdown) as nat));
    let p10 = p9 + (lit_b_total());
    let p11 = p10 + (dec(bd_total(m.breakdown) as nat));
    let p12 = p11 + (lit_b_rate());
    let p13 = p12 + (dec(bd_rate(m.breakdown) as nat));
    let p14 = p13 + (lit_b_requests());
    let p15 = p14 + (dec(bd_requests(m.breakdown) as nat));
    assert(p15 == spec_parsed_mid_bytes(m));
    let r16 = rest;
    lemma_assoc(p14, dec(bd_requests(m.breakdown) as nat), r16);
    let r15 = (dec(bd_requests(m.breakdown) as nat)) + r16;
    lemma_assoc(p13, lit_b_requests(), r15);
    let r14 = (lit_b_requests()) + r15;
    lemma_assoc(p12, dec(bd_rate(m.breakdown) as nat), r14);
    let r13 = (dec(bd_rate(m.breakdown) as nat)) + r14;
    lemma_assoc(p11, lit_b_rate(), r13);
    let r12 = (lit_b_rate()) + r13;
    lemma_assoc(p10, dec(bd_total(m.breakdown) as nat), r12);
    let r11 = (dec(bd_total(m.breakdown) as nat)) + r12;
    lemma_assoc(p9, lit_b_total(), r11);
    let r10 = (lit_b_total()) + r11;
    lemma_assoc(p8, dec(bd_completion(m.breakdown) as nat), r10);
    let r9 = (dec(bd_completion(m.breakdown) as nat)) + r10;
    lemma_assoc(p7, lit_b_completion(), r9);
    let r8 = (lit_b_completion()) + r9;
    lemma_assoc(p6, dec(bd_prompt(m.breakdown) as nat), r8);
    let r7 = (dec(bd_prompt(m.breakdown) as nat)) + r8;
    lemma_assoc(p5, lit_b_prompt(), r7);
    let r6 = (lit_b_prompt()) + r7;
    lemma_assoc(p4, dec(bd_kind(m.breakdown) as nat), r6);
    let r5 = (dec(bd_kind(m.breakdown) as nat)) + r6;
    lemma_assoc(p3, lit_breakdown(), r5);
    let r4 = (lit_breakdown()) + r5;
    lemma_assoc(p2, seq![34u8], r4);
    let r3 = (seq![34u8]) + r4;
    lemma_assoc(p1, spec_escape(vstd::utf8::encode_utf8(m.currency@)), r3);
    let r2 = (spec_escape(vstd::utf8::encode_utf8(m.currency@))) + r3;
}

/// The parsed shape re-associated to the right, before a remainder.
proof fn lemma_parsed_tail_rassoc(t: ParsedTail, rest: Seq<u8>)
    ensures
        spec_parsed_tail_bytes(t) + rest == (lit_status()) + ((spec_status_bytes(t.status)) + ((lit_err_field()) + ((spec_error_bytes(match t.error { Some(mm) => Some(mm@), None => None })) + ((lit_close()) + (rest))))),
{
    let p1 = lit_status();
    let p2 = p1 + (spec_status_bytes(t.status));
    let p3 = p2 + (lit_err_field());
    let p4 = p3 + (spec_error_bytes(match t.error { Some(mm) => Some(mm@), None => None }));
    let p5 = p4 + (lit_close());
    assert(p5 == spec_parsed_tail_bytes(t));
    let r6 = rest;
    lemma_assoc(p4, lit_close(), r6);
    let r5 = (lit_close()) + r6;
    lemma_assoc(p3, spec_error_bytes(match t.error { Some(mm) => Some(mm@), None => None }), r5);
    let r4 = (spec_error_bytes(match t.error { Some(mm) => Some(mm@), None => None })) + r5;
    lemma_assoc(p2, lit_err_field(), r4);
    let r3 = (lit_err_field()) + r4;
    lemma_assoc(p1, spec_status_bytes(t.status), r3);
    let r2 = (spec_status_bytes(t.status)) + r3;
}

/// Only one parsed shape stands at a position: equal texts carry equal
/// fields and equal remainders.
#[verifier::rlimit(100)]
#[verifier::spinoff_prover]
proof fn lemma_parsed_head_unique(h1: ParsedHead, rest_h1: Seq<u8>, h2: ParsedHead, rest_h2: Seq<u8>)
    requires
        spec_parsed_head_bytes(h1) + rest_h1 == spec_parsed_head_bytes(h2) + rest_h2,
        (rest_h1.len() > 0 && !text::spec_is_digit(rest_h1[0])) || false,
        (rest_h2.len() > 0 && !text::spec_is_digit(rest_h2[0])) || false,
    ensures
        h1 == h2,
        rest_h1 == rest_h2,
{
    let h1c21 = rest_h1;
    let h1c20 = dec(h1.amount_micros as nat) + h1c21;
    let h1c19 = lit_cost() + h1c20;
    let h1c18 = dec(h1.total_tokens as nat) + h1c19;
    let h1c17 = lit_total() + h1c18;
    let h1c16 = dec(h1.completion_tokens as nat) + h1c17;
    let h1c15 = lit_completion() + h1c16;
    let h1c14 = dec(h1.prompt_tokens as nat) + h1c15;
    let h1c13 = lit_usage() + h1c14;
    let h1c12 = dec(h1.duration_ms as nat) + h1c13;
    let h1c11 = lit_dur() + h1c12;
    let h1c10 = dec(h1.timestamp as nat) + h1c11;
    let h1c9 = lit_ts() + h1c10;
    let h1c8 = dec(h1.consumer_id as nat) + h1c9;
    let h1c7 = lit_con_id() + h1c8;
    let h1c6 = dec(h1.service_id as nat) + h1c7;
    let h1c5 = lit_svc_id() + h1c6;
    let h1c4 = dec(h1.request_id as nat) + h1c5;
    let h1c3 = lit_req_id() + h1c4;
    let h1c2 = dec(h1.id as nat) + h1c3;
    let h1c1 = lit_obj_id() + h1c2;
    let h2c21 = rest_h2;
    let h2c20 = dec(h2.amount_micros as nat) + h2c21;
    let h2c19 = lit_cost() + h2c20;
    let h2c18 = dec(h2.total_tokens as nat) + h2c19;
    let h2c17 = lit_total() + h2c18;
    let h2c16 = dec(h2.completion_tokens as nat) + h2c17;
    let h2c15 = lit_completion() + h2c16;
    let h2c14 = dec(h2.prompt_tokens as nat) + h2c15;
    let h2c13 = lit_usage() + h2c14;
    let h2c12 = dec(h2.duration_ms as nat) + h2c13;
    let h2c11 = lit_dur() + h2c12;
    let h2c10 = dec(h2.timestamp as nat) + h2c11;
    let h2c9 = lit_ts() + h2c10;
    let h2c8 = dec(h2.consumer_id as nat) + h2c9;
    let h2c7 = lit_con_id() + h2c8;
    let h2c6 = dec(h2.service_id as nat) + h2c7;
    let h2c5 = lit_svc_id() + h2c6;
    let h2c4 = dec(h2.request_id as nat) + h2c5;
    let h2c3 = lit_req_id() + h2c4;
    let h2c2 = dec(h2.id as nat) + h2c3;
    let h2c1 = lit_obj_id() + h2c2;
    lemma_parsed_head_rassoc(h1, rest_h1);
    lemma_parsed_head_rassoc(h2, rest_h2);
    assert(h1c1 == spec_parsed_head_bytes(h1) + rest_h1);
    assert(h2c1 == spec_parsed_head_bytes(h2) + rest_h2);
    lemma_prefix_cancel(lit_obj_id(), lit_obj_id(), h1c2, h2c2);
    assert(h1c3.len() > 0 && h2c3.len() > 0);
    assert(!text::spec_is_digit(h1c3[0]) && !text::spec_is_digit(h2c3[0]));
    lemma_dec_peel(h1.id as nat, h2.id as nat, h1c3, h2c3);
    lemma_prefix_cancel(lit_req_id(), lit_req_id(), h1c4, h2c4);
    assert(h1c5.len() > 0 && h2c5.len() > 0);
    assert(!text::spec_is_digit(h1c5[0]) && !text::spec_is_digit(h2c5[0]));
    lemma_dec_peel(h1.request_id as nat, h2.request_id as nat, h1c5, h2c5);
    lemma_prefix_cancel(lit_svc_id(), lit_svc_id(), h1c6, h2c6);
    assert(h1c7.len() > 0 && h2c7.len() > 0);
    assert(!text::spec_is_digit(h1c7[0]) && !text::spec_is_digit(h2c7[0]));
    lemma_dec_peel(h1.service_id as nat, h2.service_id as nat, h1c7, h2c7);
    lemma_prefix_cancel(lit_con_id(), lit_con_id(), h1c8, h2c8);
    assert(h1c9.len() > 0 && h2c9.len() > 0);
    assert(!text::spec_is_digit(h1c9[0]) && !text::spec_is_digit(h2c9[0]));
    lemma_dec_peel(h1.consumer_id as nat, h2.consumer_id as nat, h1c9, h2c9);
    lemma_prefix_cancel(lit_ts(), lit_ts(), h1c10, h2c10);
    assert(h1c11.len() > 0 && h2c11.len() > 0);
    assert(!text::spec_is_digit(h1c11[0]) && !text::spec_is_digit(h2c11[0]));
    lemma_dec_peel(h1.timestamp as nat, h2.timestamp as nat, h1c11, h2c11);
    lemma_prefix_cancel(lit_dur(), lit_dur(), h1c12, h2c12);
    assert(h1c13.len() > 0 && h2c13.len() > 0);
    assert(!text::spec_is_digit(h1c13[0]) && !text::spec_is_digit(h2c13[0]));
    lemma_dec_peel(h1.duration_ms as nat, h2.duration_ms as nat, h1c13, h2c13);
    lemma_prefix_cancel(lit_usage(), lit_usage(), h1c14, h2c14);
    assert(h1c15.len() > 0 && h2c15.len() > 0);
    assert(!text::spec_is_digit(h1c15[0]) && !text::spec_is_digit(h2c15[0]));
    lemma_dec_peel(h1.prompt_tokens as nat, h2.prompt_tokens as nat, h1c15, h2c15);
    lemma_prefix_cancel(lit_completion(), lit_completion(), h1c16, h2c16);
    assert(h1c17.len() > 0 && h2c17.len() > 0);
    assert(!text::spec_is_digit(h1c17[0]) && !text::spec_is_digit(h2c17[0]));
    lemma_dec_peel(h1.completion_tokens as nat, h2.completion_tokens as nat, h1c17, h2c17);
    lemma_prefix_cancel(lit_total(), lit_total(), h1c18, h2c18);
    assert(h1c19.len() > 0 && h2c19.len() > 0);
    assert(!text::spec_is_digit(h1c19[0]) && !text::spec_is_digit(h2c19[0]));
    lemma_dec_peel(h1.total_tokens as nat, h2.total_tokens as nat, h1c19, h2c19);
    lemma_prefix_cancel(lit_cost(), lit_cost(), h1c20, h2c20);
    assert(h1c21.len() > 0 && h2c21.len() > 0);
    assert(!text::spec_is_digit(h1c21[0]) && !text::spec_is_digit(h2c21[0]));
    lemma_dec_peel(h1.amount_micros as nat, h2.amount_micros as nat, h1c21, h2c21);
}

/// Only one parsed shape stands at a position: equal texts carry equal
/// fields and equal remainders.
#[verifier::rlimit(100)]
#[verifier::spinoff_prover]
proof fn lemma_parsed_mid_unique(m1: ParsedMid, rest_m1: Seq<u8>, m2: ParsedMid, rest_m2: Seq<u8>)
    requires
        spec_parsed_mid_bytes(m1) + rest_m1 == spec_parsed_mid_bytes(m2) + rest_m2,
        (rest_m1.len() > 0 && !text::spec_is_digit(rest_m1[0])) || false,
        (rest_m2.len() > 0 && !text::spec_is_digit(rest_m2[0])) || false,
    ensures
        m1.currency@ == m2.currency@ && m1.breakdown == m2.breakdown,
        rest_m1 == rest_m2,
{
    let m1c15 = rest_m1;
    let m1c14 = dec(bd_requests(m1.breakdown) as nat) + m1c15;
    let m1c13 = lit_b_requests() + m1c14;
    let m1c12 = dec(bd_rate(m1.breakdown) as nat) + m1c13;
    let m1c11 = lit_b_rate() + m1c12;
    let m1c10 = dec(bd_total(m1.breakdown) as nat) + m1c11;
    let m1c9 = lit_b_total() + m1c10;
    let m1c8 = dec(bd_completion(m1.breakdown) as nat) + m1c9;
    let m1c7 = lit_b_completion() + m1c8;
    let m1c6 = dec(bd_prompt(m1.breakdown) as nat) + m1c7;
    let m1c5 = lit_b_prompt() + m1c6;
    let m1c4 = dec(bd_kind(m1.breakdown) as nat) + m1c5;
    let m1c3 = lit_breakdown() + m1c4;
    let m1c2 = spec_escape(vstd::utf8::encode_utf8(m1.currency@)) + (seq![34u8] + m1c3);
    let m1c1 = lit_currency() + m1c2;
    let m2c15 = rest_m2;
    let m2c14 = dec(bd_requests(m2.breakdown) as nat) + m2c15;
    let m2c13 = lit_b_requests() + m2c14;
    let m2c12 = dec(bd_rate(m2.breakdown) as nat) + m2c13;
    let m2c11 = lit_b_rate() + m2c12;
    let m2c10 = dec(bd_total(m2.breakdown) as nat) + m2c11;
    let m2c9 = lit_b_total() + m2c10;
    let m2c8 = dec(bd_completion(m2.breakdown) as nat) + m2c9;
    let m2c7 = lit_b_completion() + m2c8;
    let m2c6 = dec(bd_prompt(m2.breakdown) as nat) + m2c7;
    let m2c5 = lit_b_prompt() + m2c6;
    let m2c4 = dec(bd_kind(m2.breakdown) as nat) + m2c5;
    let m2c3 = lit_breakdown() + m2c4;
    let m2c2 = spec_escape(vstd::utf8::encode_utf8(m2.currency@)) + (seq![34u8] + m2c3);
    let m2c1 = lit_currency() + m2c2;
    lemma_parsed_mid_rassoc(m1, rest_m1);
    lemma_parsed_mid_rassoc(m2, rest_m2);
    assert(m1c1 == spec_parsed_mid_bytes(m1) + rest_m1);
    assert(m2c1 == spec_parsed_mid_bytes(m2) + rest_m2);
    lemma_prefix_cancel(lit_currency(), lit_currency(), m1c2, m2c2);
    lemma_escape_peel(
        vstd::utf8::encode_utf8(m1.currency@),
        vstd::utf8::encode_utf8(m2.currency@),
        m1c3,
        m2c3,
    );
    vstd::utf8::encode_utf8_decode_utf8(m1.currency@);
    vstd::utf8::encode_utf8_decode_utf8(m2.currency@);
    lemma_prefix_cancel(lit_breakdown(), lit_breakdown(), m1c4, m2c4);
    assert(m1c5.len() > 0 && m2c5.len() > 0);
    assert(!text::spec_is_digit(m1c5[0]) && !text::spec_is_digit(m2c5[0]));
    lemma_dec_peel(bd_kind(m1.breakdown) as nat, bd_kind(m2.breakdown) as nat, m1c5, m2c5);
    lemma_prefix_cancel(lit_b_prompt(), lit_b_prompt(), m1c6, m2c6);
    assert(m1c7.len() > 0 && m2c7.len() > 0);
    assert(!text::spec_is_digit(m1c7[0]) && !text::spec_is_digit(m2c7[0]));
    lemma_dec_peel(bd_prompt(m1.breakdown) as nat, bd_prompt(m2.breakdown) as nat, m1c7, m2c7);
    lemma_prefix_cancel(lit_b_completion(), lit_b_completion(), m1c8, m2c8);
    assert(m1c9.len() > 0 && m2c9.len() > 0);
    assert(!text::spec_is_digit(m1c9[0]) && !text::spec_is_digit(m2c9[0]));
    lemma_dec_peel(bd_completion(m1.breakdown) as nat, bd_completion(m2.breakdown) as nat, m1c9, m2c9);
    lemma_prefix_cancel(lit_b_total(), lit_b_total(), m1c10, m2c10);
    assert(m1c11.len() > 0 && m2c11.len() > 0);
    assert(!text::spec_is_digit(m1c11[0]) && !text::spec_is_digit(m2c11[0]));
    lemma_dec_peel(bd_total(m1.breakdown) as nat, bd_total(m2.breakdown) as nat, m1c11, m2c11);
    lemma_prefix_cancel(lit_b_rate(), lit_b_rate(), m1c12, m2c12);
    assert(m1c13.len() > 0 && m2c13.len() > 0);
    assert(!text::spec_is_digit(m1c13[0]) && !text::spec_is_digit(m2c13[0]));
    lemma_dec_peel(bd_rate(m1.breakdown) as nat, bd_rate(m2.breakdown) as nat, m1c13, m2c13);
    lemma_prefix_cancel(lit_b_requests(), lit_b_requests(), m1c14, m2c14);
    assert(m1c15.len() > 0 && m2c15.len() > 0);
    assert(!text::spec_is_digit(m1c15[0]) && !text::spec_is_digit(m2c15[0]));
    lemma_dec_peel(bd_requests(m1.breakdown) as nat, bd_requests(m2.breakdown) as nat, m1c15, m2c15);
    lemma_breakdown_determined(m1.breakdown, m2.breakdown);
}

/// Only one parsed shape stands at a position: equal texts carry equal
/// fields and equal remainders.
#[verifier::rlimit(100)]
#[verifier::spinoff_prover]
proof fn lemma_parsed_tail_unique(t1: ParsedTail, rest_t1: Seq<u8>, t2: ParsedTail, rest_t2: Seq<u8>)
    requires
        spec_parsed_tail_bytes(t1) + rest_t1 == spec_parsed_tail_bytes(t2) + rest_t2,
        (rest_t1.len() > 0 && !text::spec_is_digit(rest_t1[0])) || true,
        (rest_t2.len() > 0 && !text::spec_is_digit(rest_t2[0])) || true,
    ensures
        t1.status == t2.status && (match (t1.error, t2.error) {
            (None, None) => true,
            (Some(e1), Some(e2)) => e1@ == e2@,
            _ => false,
        }),
        rest_t1 == rest_t2,
{
    let t1c6 = rest_t1;
    let t1c5 = lit_close() + t1c6;
    let t1c4 = spec_error_bytes(match t1.error { Some(mm) => Some(mm@), None => None }) + t1c5;
    let t1c3 = lit_err_field() + t1c4;
    let t1c2 = spec_status_bytes(t1.status) + t1c3;
    let t1c1 = lit_status() + t1c2;
    let t2c6 = rest_t2;
    let t2c5 = lit_close() + t2c6;
    let t2c4 = spec_error_bytes(match t2.error { Some(mm) => Some(mm@), None => None }) + t2c5;
    let t2c3 = lit_err_field() + t2c4;
    let t2c2 = spec_status_bytes(t2.status) + t2c3;
    let t2c1 = lit_status() + t2c2;
    lemma_parsed_tail_rassoc(t1, rest_t1);
    lemma_parsed_tail_rassoc(t2, rest_t2);
    assert(t1c1 == spec_parsed_tail_bytes(t1) + rest_t1);
    assert(t2c1 == spec_parsed_tail_bytes(t2) + rest_t2);
    lemma_prefix_cancel(lit_status(), lit_status(), t1c2, t2c2);
    lemma_status_peel(t1.status, t2.status, t1c3, t2c3);
    lemma_prefix_cancel(lit_err_field(), lit_err_field(), t1c4, t2c4);
    lemma_error_peel(
        match t1.error { Some(mm) => Some(mm@), None => None },
        match t2.error { Some(mm) => Some(mm@), None => None },
        t1c5,
        t2c5,
    );
    lemma_prefix_cancel(lit_close(), lit_close(), t1c6, t2c6);
}

/// The parsed parts reassemble to the record's canonical text.
#[verifier::rlimit(100)]
#[verifier::spinoff_prover]
proof fn lemma_final_assembly(rec: UsageRecord, h: ParsedHead, m: ParsedMid, t: ParsedTail)
    requires
        rec.id == h.id,
        rec.request_id == h.request_id,
        rec.service_id == h.service_id,
        rec.consumer_id == h.consumer_id,
        rec.timestamp == h.timestamp,
        rec.duration_ms == h.duration_ms,
        rec.usage.prompt_tokens == h.prompt_tokens,
        rec.usage.completion_tokens == h.completion_tokens,
        rec.usage.total_tokens == h.total_tokens,
        rec.cost.amount_micros == h.amount_micros,
        rec.cost.currency == m.currency,
        rec.cost.breakdown == m.breakdown,
        rec.status == t.status,
        rec.error == t.error,
    ensures
        spec_record_bytes(rec)
            == spec_parsed_head_bytes(h) + spec_parsed_mid_bytes(m) + spec_parsed_tail_bytes(t),
{
    assert(spec_record_head(rec) =~= spec_parsed_head_bytes(h));
    assert(spec_record_mid(rec) =~= spec_parsed_mid_bytes(m));
    assert(spec_record_tail(rec) =~= spec_parsed_tail_bytes(t));
}

/// Parse the canonical JSON text of a usage record. Anything the parser
/// accepts serializes back to exactly the input bytes, and the canonical
/// text of every record is accepted: parsing is a (two-sided) inverse of
/// `format_usage_record` up to the characters of the record's strings.
#[verifier::loop_isolation(false)]
#[verifier::rlimit(100)]
#[verifier::spinoff_prover]
pub fn parse_usage_record(b: &[u8]) -> (r: Option<UsageRecord>)
    ensures
        r matches Some(v) ==> spec_record_bytes(v) == b@,
        forall|rec: UsageRecord| b@ == #[trigger] spec_record_bytes(rec) ==> r is Some,
{
    let ghost hyp = exists|rec: UsageRecord| b@ == #[trigger] spec_record_bytes(rec);
    let ghost rec0: UsageRecord = if hyp {
        choose|rec: UsageRecord| b@ == #[trigger] spec_record_bytes(rec)
    } else {
        vstd::pervasive::arbitrary()
    };
    let ghost hh = ParsedHead {
        id: rec0.id,
        request_id: rec0.request_id,
        service_id: rec0.service_id,
        consumer_id: rec0.consumer_id,
        timestamp: rec0.timestamp,
        duration_ms: rec0.duration_ms,
        prompt_tokens: rec0.usage.prompt_tokens,
        completion_tokens: rec0.usage.completion_tokens,
        total_tokens: rec0.usage.total_tokens,
        amount_micros: rec0.cost.amount_micros,
    };
    let ghost mm = ParsedMid { currency: rec0.cost.currency, breakdown: rec0.cost.breakdown };
    let ghost tt = ParsedTail { status: rec0.status, error: rec0.error };
    let ghost midtail = spec_parsed_mid_bytes(mm) + spec_parsed_tail_bytes(tt);
    proof {
        if hyp {
            assert(spec_record_head(rec0) == spec_parsed_head_bytes(hh));
            assert(spec_record_mid(rec0) == spec_parsed_mid_bytes(mm));
            assert(spec_record_tail(rec0) == spec_parsed_tail_bytes(tt));
            assert(b@ =~= spec_parsed_head_bytes(hh) + midtail);
            lemma_parsed_mid_rassoc(mm, spec_parsed_tail_bytes(tt));
            assert(midtail[0] == lit_currency()[0]);
            assert(midtail.len() > 0);
            assert(!text::spec_is_digit(midtail[0]));
        }
    }
    let (h, i) = match parse_record_head(b) {
        Some(p) => p,
        None => {
            proof { if hyp { assert(false); } }
            return None;
        },
    };
    proof {
        if hyp {
            assert(h == hh && i as int == b@.len() - midtail.len());
            assert(b@.skip(0) =~= b@);
            lemma_split_at(b@, 0, spec_parsed_head_bytes(hh), midtail);
            assert(b@.skip(i as int) == midtail);
            lemma_parsed_tail_rassoc(tt, Seq::empty());
            assert(spec_parsed_tail_bytes(tt) + Seq::empty() =~= spec_parsed_tail_bytes(tt));
            assert(spec_parsed_tail_bytes(tt)[0] == lit_status()[0]);
            assert(!text::spec_is_digit(spec_parsed_tail_bytes(tt)[0]));
        }
    }
    let (m, j) = match parse_record_mid(b, i) {
        Some(p) => p,
        None => {
            proof { if hyp { assert(false); } }
            return None;
        },
    };
    proof {
        if hyp {
            assert(m.currency@ == mm.currency@ && m.breakdown == mm.breakdown);
            assert(j as int == b@.len() - spec_parsed_tail_bytes(tt).len());
            lemma_split_at(b@, i as int, spec_parsed_mid_bytes(mm), spec_parsed_tail_bytes(tt));
            assert(b@.skip(j as int) == spec_parsed_tail_bytes(tt));
            assert(b@.skip(j as int) == spec_parsed_tail_bytes(tt) + Seq::empty());
        }
    }
    let (t, k) = match parse_record_tail(b, j) {
        Some(p) => p,
        None => {
            proof { if hyp { assert(false); } }
            return None;
        },
    };
    if k != b.len() {
        proof {
            if hyp {
                assert(k as int == b@.len() - Seq::<u8>::empty().len());
                assert(false);
            }
        }
        return None;
    }
    let ghost hg = h;
    let ghost mg = m;
    let ghost tg = t;
    let rec = UsageRecord {
        id: h.id,
        request_id: h.request_id,
        service_id: h.service_id,
        consumer_id: h.consumer_id,
        timestamp: h.timestamp,
        duration_ms: h.duration_ms,
        usage: crate::cost::UsageInfo {
            prompt_tokens: h.prompt_tokens,
            completion_tokens: h.completion_tokens,
            total_tokens: h.total_tokens,
        },
        cost: CostInfo { amount_micros: h.amount_micros, currency: m.currency, breakdown: m.breakdown },
        status: t.status,
        error: t.error,
    };
    proof {
        lemma_subrange_split(b@, 0, i as int, j as int);
        lemma_subrange_split(b@, 0, j as int, k as int);
        assert(b@ =~= b@.subrange(0, b@.len() as int));
        lemma_final_assembly(rec, hg, mg, tg);
    }
    Some(rec)
}

/// Field-by-field equality of two records, strings by their characters.
pub open spec fn recs_equal(a: UsageRecord, b: UsageRecord) -> bool {
    &&& a.id == b.id
    &&& a.request_id == b.request_id
    &&& a.service_id == b.service_id
    &&& a.consumer_id == b.consumer_id
    &&& a.timestamp == b.timestamp
    &&& a.duration_ms == b.duration_ms
    &&& a.usage == b.usage
    &&& a.cost.amount_micros == b.cost.amount_micros
    &&& a.cost.currency@ == b.cost.currency@
    &&& a.cost.breakdown == b.cost.breakdown
    &&& a.status == b.status
    &&& match (a.error, b.error) {
        (None, None) => true,
        (Some(x), Some(y)) => x@ == y@,
        _ => false,
    }
}

/// Equal concatenations with equally long fronts have equal parts.
proof fn lemma_prefix_cancel(p: Seq<u8>, q: Seq<u8>, x: Seq<u8>, y: Seq<u8>)
    requires
        p + x == q + y,
        p.len() == q.len(),
    ensures
        p == q,
        x == y,
{
    assert((p + x).len() == p.len() + x.len());
    assert((q + y).len() == q.len() + y.len());
    assert((p + x).len() == (q + y).len());
    assert(x.len() == y.len());
    assert forall|i: int| 0 <= i < p.len() implies p[i] == q[i] by {
        assert((p + x)[i] == p[i]);
        assert((q + y)[i] == q[i]);
    }
    assert(p =~= q);
    assert forall|i: int| 0 <= i < x.len() implies x[i] == y[i] by {
        assert((p + x)[p.len() + i] == x[i]);
        assert((q + y)[q.len() + i] == y[i]);
    }
    assert(x =~= y);
}

/// Two decimal numbers followed by non-digits read the same only when the
/// numbers and the remainders agree.
proof fn lemma_dec_peel(m: nat, n: nat, x: Seq<u8>, y: Seq<u8>)
    requires
        dec(m) + x == dec(n) + y,
        x.len() > 0,
        y.len() > 0,
        !text::spec_is_digit(x[0]),
        !text::spec_is_digit(y[0]),
    ensures
        m == n,
        x == y,
{
    text::lemma_dec_digits_are_digits(m);
    text::lemma_dec_digits_are_digits(n);
    let dm = dec(m);
    let dn = dec(n);
    if dm.len() < dn.len() {
        assert((dm + x)[dm.len() as int] == x[0]);
        assert((dn + y)[dm.len() as int] == dn[dm.len() as int]);
        assert(false);
    }
    if dn.len() < dm.len() {
        assert((dn + y)[dn.len() as int] == y[0]);
        assert((dm + x)[dn.len() as int] == dm[dn.len() as int]);
        assert(false);
    }
    lemma_prefix_cancel(dm, dn, x, y);
    text::lemma_dec_round_trip(m);
    text::lemma_dec_round_trip(n);
}

/// A nonempty string's escape starts with its first byte's escape.
proof fn lemma_escape_head(s: Seq<u8>)
    requires
        s.len() > 0,
    ensures
        spec_escape(s) == spec_esc_byte(s[0]) + spec_escape(s.skip(1)),
    decreases s.len(),
{
    if s.len() == 1 {
        assert(s.drop_last() =~= Seq::<u8>::empty());
        assert(s.skip(1) =~= Seq::<u8>::empty());
        assert(spec_escape(s) =~= spec_esc_byte(s[0]) + spec_escape(s.skip(1)));
    } else {
        let p = s.drop_last();
        lemma_escape_head(p);
        assert(p[0] == s[0]);
        assert(p.skip(1) =~= s.skip(1).drop_last());
        assert(s.skip(1).last() == s.last());
        assert(spec_escape(s) == spec_escape(p) + spec_esc_byte(s.last()));
        assert(spec_escape(s.skip(1))
            == spec_escape(s.skip(1).drop_last()) + spec_esc_byte(s.skip(1).last()));
        assert(spec_escape(s)
            =~= spec_esc_byte(s[0]) + spec_escape(s.skip(1)));
    }
}

/// Two quoted escaped strings read the same only when the strings and the
/// remainders agree.
proof fn lemma_escape_peel(s1: Seq<u8>, s2: Seq<u8>, x: Seq<u8>, y: Seq<u8>)
    requires
        spec_escape(s1) + (seq![34u8] + x) == spec_escape(s2) + (seq![34u8] + y),
    ensures
        s1 == s2,
        x == y,
    decreases s1.len(),
{
    let l = spec_escape(s1) + (seq![34u8] + x);
    let r = spec_escape(s2) + (seq![34u8] + y);
    if s1.len() == 0 && s2.len() == 0 {
        assert(spec_escape(s1) =~= Seq::<u8>::empty());
        assert(spec_escape(s2) =~= Seq::<u8>::empty());
        assert(l =~= seq![34u8] + x);
        assert(r =~= seq![34u8] + y);
        lemma_prefix_cancel(seq![34u8], seq![34u8], x, y);
        assert(s1 =~= s2);
    } else if s1.len() == 0 {
        lemma_escape_head(s2);
        assert(l[0] == 34u8);
        assert(r[0] == spec_esc_byte(s2[0])[0]);
        assert(false);
    } else if s2.len() == 0 {
        lemma_escape_head(s1);
        assert(r[0] == 34u8);
        assert(l[0] == spec_esc_byte(s1[0])[0]);
        assert(false);
    } else {
        lemma_escape_head(s1);
        lemma_escape_head(s2);
        let e1 = spec_esc_byte(s1[0]);
        let e2 = spec_esc_byte(s2[0]);
        assert(l =~= e1 + (spec_escape(s1.skip(1)) + (seq![34u8] + x)));
        assert(r =~= e2 + (spec_escape(s2.skip(1)) + (seq![34u8] + y)));
        assert(l[0] == e1[0] && r[0] == e2[0]);
        if e1.len() != e2.len() {
            // one head is escaped (leading backslash), the other is a plain
            // byte that is neither a quote nor a backslash
            assert(false);
        }
        lemma_prefix_cancel(e1, e2, spec_escape(s1.skip(1)) + (seq![34u8] + x),
            spec_escape(s2.skip(1)) + (seq![34u8] + y));
        assert(s1[0] == s2[0]);
        lemma_escape_peel(s1.skip(1), s2.skip(1), x, y);
        assert(s1.len() == s2.len());
        assert forall|i: int| 0 <= i < s1.len() implies s1[i] == s2[i] by {
            if i > 0 {
                assert(s1.skip(1)[i - 1] == s1[i]);
                assert(s2.skip(1)[i - 1] == s2[i]);
            }
        }
        assert(s1 =~= s2);
    }
}


/// A status followed by anything reads the same only when the statuses and
/// the remainders agree.
proof fn lemma_status_peel(s1: RecordStatus, s2: RecordStatus, x: Seq<u8>, y: Seq<u8>)
    requires
        spec_status_bytes(s1) + x == spec_status_bytes(s2) + y,
    ensures
        s1 == s2,
        x == y,
{
    if s1 != s2 {
        assert((spec_status_bytes(s1) + x)[0] == spec_status_bytes(s1)[0]);
        assert((spec_status_bytes(s2) + y)[0] == spec_status_bytes(s2)[0]);
        assert(false);
    }
    lemma_prefix_cancel(spec_status_bytes(s1), spec_status_bytes(s2), x, y);
}

/// An error field followed by anything reads the same only when the error
/// texts and the remainders agree.
proof fn lemma_error_peel(e1: Option<Seq<char>>, e2: Option<Seq<char>>, x: Seq<u8>, y: Seq<u8>)
    requires
        spec_error_bytes(e1) + x == spec_error_bytes(e2) + y,
    ensures
        match (e1, e2) {
            (None, None) => true,
            (Some(m1), Some(m2)) => m1 == m2,
            _ => false,
        },
        x == y,
{
    match (e1, e2) {
        (None, None) => {
            lemma_prefix_cancel(lit_null_word(), lit_null_word(), x, y);
        },
        (None, Some(m2)) => {
            assert((spec_error_bytes(e1) + x)[0] == lit_null_word()[0]);
            assert((spec_error_bytes(e2) + y)[0] == spec_error_bytes(e2)[0]);
            assert(spec_error_bytes(e2)[0] == 34u8);
            assert(false);
        },
        (Some(m1), None) => {
            assert((spec_error_bytes(e2) + y)[0] == lit_null_word()[0]);
            assert((spec_error_bytes(e1) + x)[0] == spec_error_bytes(e1)[0]);
            assert(spec_error_bytes(e1)[0] == 34u8);
            assert(false);
        },
        (Some(m1), Some(m2)) => {
            let q = seq![34u8];
            assert(spec_error_bytes(e1) + x
                =~= q + (spec_escape(vstd::utf8::encode_utf8(m1)) + (q + x)));
            assert(spec_error_bytes(e2) + y
                =~= q + (spec_escape(vstd::utf8::encode_utf8(m2)) + (q + y)));
            lemma_prefix_cancel(
                q,
                q,
                spec_escape(vstd::utf8::encode_utf8(m1)) + (q + x),
                spec_escape(vstd::utf8::encode_utf8(m2)) + (q + y),
            );
            lemma_escape_peel(
                vstd::utf8::encode_utf8(m1),
                vstd::utf8::encode_utf8(m2),
                x,
                y,
            );
            vstd::utf8::encode_utf8_decode_utf8(m1);
            vstd::utf8::encode_utf8_decode_utf8(m2);
        },
    }
}

/// A breakdown is determined by its numeric encoding.
proof fn lemma_breakdown_determined(b1: CostBreakdown, b2: CostBreakdown)
    requires
        bd_kind(b1) == bd_kind(b2),
        bd_prompt(b1) == bd_prompt(b2),
        bd_completion(b1) == bd_completion(b2),
        bd_total(b1) == bd_total(b2),
        bd_rate(b1) == bd_rate(b2),
        bd_requests(b1) == bd_requests(b2),
    ensures
        b1 == b2,
{
}

/// Splitting a suffix of `b` at its first part.
proof fn lemma_split_at(b: Seq<u8>, o: int, x: Seq<u8>, y: Seq<u8>)
    requires
        0 <= o <= b.len(),
        b.skip(o) == x + y,
    ensures
        o + x.len() + y.len() == b.len(),
        b.subrange(o, o + x.len()) == x,
        b.skip(o + x.len()) == y,
{
    assert(b.skip(o).len() == b.len() - o);
    assert(b.subrange(o, o + x.len()) =~= x) by {
        assert(forall|t: int| 0 <= t < x.len()
            ==> b.subrange(o, o + x.len())[t] == b[o + t]
                && #[trigger] b.skip(o)[t] == b[o + t]);
        assert(forall|t: int| 0 <= t < x.len() ==> (x + y)[t] == #[trigger] x[t]);
    };
    assert(b.skip(o + x.len()) =~= y) by {
        assert(forall|t: int| 0 <= t < y.len()
            ==> #[trigger] b.skip(o + x.len())[t] == b[o + x.len() + t]
                && b.skip(o)[x.len() + t] == b[o + x.len() + t]);
        assert(forall|t: int| 0 <= t < y.len() ==> (x + y)[x.len() + t] == #[trigger] y[t]);
    };
}

/// Concatenation re-associates.
proof fn lemma_assoc(x: Seq<u8>, y: Seq<u8>, z: Seq<u8>)
    ensures
        (x + y) + z == x + (y + z),
{
    assert((x + y) + z =~= x + (y + z));
}

/// `spec_record_head` re-associated to the right, before a remainder.
proof fn lemma_head_rassoc(rec: UsageRecord, rest: Seq<u8>)
    ensures
        spec_record_head(rec) + rest == (lit_obj_id()) + ((dec(rec.id as nat)) + ((lit_req_id()) + ((dec(rec.request_id as nat)) + ((lit_svc_id()) + ((dec(rec.service_id as nat)) + ((lit_con_id()) + ((dec(rec.consumer_id as nat)) + ((lit_ts()) + ((dec(rec.timestamp as nat)) + ((lit_dur()) + ((dec(rec.duration_ms as nat)) + ((lit_usage()) + ((dec(rec.usage.prompt_tokens as nat)) + ((lit_completion()) + ((dec(rec.usage.completion_tokens as nat)) + ((lit_total()) + ((dec(rec.usage.total_tokens as nat)) + ((lit_cost()) + ((dec(rec.cost.amount_micros as nat)) + (rest)))))))))))))))))))),
{
    let p1 = lit_obj_id();
    let p2 = p1 + (dec(rec.id as nat));
    let p3 = p2 + (lit_req_id());
    let p4 = p3 + (dec(rec.request_id as nat));
    let p5 = p4 + (lit_svc_id());
    let p6 = p5 + (dec(rec.service_id as nat));
    let p7 = p6 + (lit_con_id());
    let p8 = p7 + (dec(rec.consumer_id as nat));
    let p9 = p8 + (lit_ts());
    let p10 = p9 + (dec(rec.timestamp as nat));
    let p11 = p10 + (lit_dur());
    let p12 = p11 + (dec(rec.duration_ms as nat));
    let p13 = p12 + (lit_usage());
    let p14 = p13 + (dec(rec.usage.prompt_tokens as nat));
    let p15 = p14 + (lit_completion());
    let p16 = p15 + (dec(rec.usage.completion_tokens as nat));
    let p17 = p16 + (lit_total());
    let p18 = p17 + (dec(rec.usage.total_tokens as nat));
    let p19 = p18 + (lit_cost());
    let p20 = p19 + (dec(rec.cost.amount_micros as nat));
    assert(p20 == spec_record_head(rec));
    let r21 = rest;
    lemma_assoc(p19, dec(rec.cost.amount_micros as nat), r21);
    let r20 = (dec(rec.cost.amount_micros as nat)) + r21;
    lemma_assoc(p18, lit_cost(), r20);
    let r19 = (lit_cost()) + r20;
    lemma_assoc(p17, dec(rec.usage.total_tokens as nat), r19);
    let r18 = (dec(rec.usage.total_tokens as nat)) + r19;
    lemma_assoc(p16, lit_total(), r18);
    let r17 = (lit_total()) + r18;
    lemma_assoc(p15, dec(rec.usage.completion_tokens as nat), r17);
    let r16 = (dec(rec.usage.completion_tokens as nat)) + r17;
    lemma_assoc(p14, lit_completion(), r16);
    let r15 = (lit_completion()) + r16;
    lemma_assoc(p13, dec(rec.usage.prompt_tokens as nat), r15);
    let r14 = (dec(rec.usage.prompt_tokens as nat)) + r15;
    lemma_assoc(p12, lit_usage(), r14);
    let r13 = (lit_usage()) + r14;
    lemma_assoc(p11, dec(rec.duration_ms as nat), r13);
    let r12 = (dec(rec.duration_ms as nat)) + r13;
    lemma_assoc(p10, lit_dur(), r12);
    let r11 = (lit_dur()) + r12;
    lemma_assoc(p9, dec(rec.timestamp as nat), r11);
    let r10 = (dec(rec.timestamp as nat)) + r11;
    lemma_assoc(p8, lit_ts(), r10);
    let r9 = (lit_ts()) + r10;
    lemma_assoc(p7, dec(rec.consumer_id as nat), r9);
    let r8 = (dec(rec.consumer_id as nat)) + r9;
    lemma_assoc(p6, lit_con_id(), r8);
    let r7 = (lit_con_id()) + r8;
    lemma_assoc(p5, dec(rec.service_id as nat), r7);
    let r6 = (dec(rec.service_id as nat)) + r7;
    lemma_assoc(p4, lit_svc_id(), r6);
    let r5 = (lit_svc_id()) + r6;
    lemma_assoc(p3, dec(rec.request_id as nat), r5);
    let r4 = (dec(rec.request_id as nat)) + r5;
    lemma_assoc(p2, lit_req_id(), r4);
    let r3 = (lit_req_id()) + r4;
    lemma_assoc(p1, dec(rec.id as nat), r3);
    let r2 = (dec(rec.id as nat)) + r3;
}

/// `spec_record_mid` re-associated to the right, before a remainder.
proof fn lemma_mid_rassoc(rec: UsageRecord, rest: Seq<u8>)
    ensures
        spec_record_mid(rec) + rest == (lit_currency()) + ((spec_escape(vstd::utf8::encode_utf8(rec.cost.currency@))) + ((seq![34u8]) + ((lit_breakdown()) + ((dec(bd_kind(rec.cost.breakdown) as nat)) + ((lit_b_prompt()) + ((dec(bd_prompt(rec.cost.breakdown) as nat)) + ((lit_b_completion()) + ((dec(bd_completion(rec.cost.breakdown) as nat)) + ((lit_b_total()) + ((dec(bd_total(rec.cost.breakdown) as nat)) + ((lit_b_rate()) + ((dec(bd_rate(rec.cost.breakdown) as nat)) + ((lit_b_requests()) + ((dec(bd_requests(rec.cost.breakdown) as nat)) + (rest))))))))))))))),
{
    let p1 = lit_currency();
    let p2 = p1 + (spec_escape(vstd::utf8::encode_utf8(rec.cost.currency@)));
    let p3 = p2 + (seq![34u8]);
    let p4 = p3 + (lit_breakdown());
    let p5 = p4 + (dec(bd_kind(rec.cost.breakdown) as nat));
    let p6 = p5 + (lit_b_prompt());
    let p7 = p6 + (dec(bd_prompt(rec.cost.breakdown) as nat));
    let p8 = p7 + (lit_b_completion());
    let p9 = p8 + (dec(bd_completion(rec.cost.breakdown) as nat));
    let p10 = p9 + (lit_b_total());
    let p11 = p10 + (dec(bd_total(rec.cost.breakdown) as nat));
    let p12 = p11 + (lit_b_rate());
    let p13 = p12 + (dec(bd_rate(rec.cost.breakdown) as nat));
    let p14 = p13 + (lit_b_requests());
    let p15 = p14 + (dec(bd_requests(rec.cost.breakdown) as nat));
    assert(p15 == spec_record_mid(rec));
    let r16 = rest;
    lemma_assoc(p14, dec(bd_requests(rec.cost.breakdown) as nat), r16);
    let r15 = (dec(bd_requests(rec.cost.breakdown) as nat)) + r16;
    lemma_assoc(p13, lit_b_requests(), r15);
    let r14 = (lit_b_requests()) + r15;
    lemma_assoc(p12, dec(bd_rate(rec.cost.breakdown) as nat), r14);
    let r13 = (dec(bd_rate(rec.cost.breakdown) as nat)) + r14;
    lemma_assoc(p11, lit_b_rate(), r13);
    let r12 = (lit_b_rate()) + r13;
    lemma_assoc(p10, dec(bd_total(rec.cost.breakdown) as nat), r12);
    let r11 = (dec(bd_total(rec.cost.breakdown) as nat)) + r12;
    lemma_assoc(p9, lit_b_total(), r11);
    let r10 = (lit_b_total()) + r11;
    lemma_assoc(p8, dec(bd_completion(rec.cost.breakdown) as nat), r10);
    let r9 = (dec(bd_completion(rec.cost.breakdown) as nat)) + r10;
    lemma_assoc(p7, lit_b_completion(), r9);
    let r8 = (lit_b_completion()) + r9;
    lemma_assoc(p6, dec(bd_prompt(rec.cost.breakdown) as nat), r8);
    let r7 = (dec(bd_prompt(rec.cost.breakdown) as nat)) + r8;
    lemma_assoc(p5, lit_b_prompt(), r7);
    let r6 = (lit_b_prompt()) + r7;
    lemma_assoc(p4, dec(bd_kind(rec.cost.breakdown) as nat), r6);
    let r5 = (dec(bd_kind(rec.cost.breakdown) as nat)) + r6;
    lemma_assoc(p3, lit_breakdown(), r5);
    let r4 = (lit_breakdown()) + r5;
    lemma_assoc(p2, seq![34u8], r4);
    let r3 = (seq![34u8]) + r4;
    lemma_assoc(p1, spec_escape(vstd::utf8::encode_utf8(rec.cost.currency@)), r3);
    let r2 = (spec_escape(vstd::utf8::encode_utf8(rec.cost.currency@))) + r3;
}

/// `spec_record_tail` re-associated to the right.
proof fn lemma_tail_rassoc(rec: UsageRecord)
    ensures
        spec_record_tail(rec) == (lit_status()) + ((spec_status_bytes(rec.status)) + ((lit_err_field()) + ((spec_error_bytes(match rec.error { Some(m) => Some(m@), None => None })) + (lit_close())))),
{
    let p1 = lit_status();
    let p2 = p1 + (spec_status_bytes(rec.status));
    let p3 = p2 + (lit_err_field());
    let p4 = p3 + (spec_error_bytes(match rec.error { Some(m) => Some(m@), None => None }));
    let p5 = p4 + (lit_close());
    assert(p5 == spec_record_tail(rec));
    let r6 = lit_close();
    lemma_assoc(p4, lit_close(), r6);
    let r5 = (lit_close()) + r6;
    lemma_assoc(p3, spec_error_bytes(match rec.error { Some(m) => Some(m@), None => None }), r5);
    let r4 = (spec_error_bytes(match rec.error { Some(m) => Some(m@), None => None })) + r5;
    lemma_assoc(p2, lit_err_field(), r4);
    let r3 = (lit_err_field()) + r4;
    lemma_assoc(p1, spec_status_bytes(rec.status), r3);
    let r2 = (spec_status_bytes(rec.status)) + r3;
}

/// The record codec round trip: the canonical text determines the record.
/// `parse_usage_record` returns only a record whose serialization is its
/// input, and by this lemma only one record (up to the characters of its
/// strings) serializes to any given text — so parsing the serialized form
/// of a record yields that record back.
#[verifier::rlimit(100)]
#[verifier::spinoff_prover]
pub proof fn lemma_record_text_injective(a: UsageRecord, b: UsageRecord)
    requires
        spec_record_bytes(a) == spec_record_bytes(b),
    ensures
        recs_equal(a, b),
{
    assert(spec_record_bytes(a)
        =~= spec_record_head(a) + (spec_record_mid(a) + spec_record_tail(a)));
    assert(spec_record_bytes(b)
        =~= spec_record_head(b) + (spec_record_mid(b) + spec_record_tail(b)));
    lemma_head_rassoc(a, spec_record_mid(a) + spec_record_tail(a));
    lemma_head_rassoc(b, spec_record_mid(b) + spec_record_tail(b));
    let ah21 = spec_record_mid(a) + spec_record_tail(a);
    let ah20 = dec(a.cost.amount_micros as nat) + ah21;
    let ah19 = lit_cost() + ah20;
    let ah18 = dec(a.usage.total_tokens as nat) + ah19;
    let ah17 = lit_total() + ah18;
    let ah16 = dec(a.usage.completion_tokens as nat) + ah17;
    let ah15 = lit_completion() + ah16;
    let ah14 = dec(a.usage.prompt_tokens as nat) + ah15;
    let ah13 = lit_usage() + ah14;
    let ah12 = dec(a.duration_ms as nat) + ah13;
    let ah11 = lit_dur() + ah12;
    let ah10 = dec(a.timestamp as nat) + ah11;
    let ah9 = lit_ts() + ah10;
    let ah8 = dec(a.consumer_id as nat) + ah9;
    let ah7 = lit_con_id() + ah8;
    let ah6 = dec(a.service_id as nat) + ah7;
    let ah5 = lit_svc_id() + ah6;
    let ah4 = dec(a.request_id as nat) + ah5;
    let ah3 = lit_req_id() + ah4;
    let ah2 = dec(a.id as nat) + ah3;
    let ah1 = lit_obj_id() + ah2;
    let bh21 = spec_record_mid(b) + spec_record_tail(b);
    let bh20 = dec(b.cost.amount_micros as nat) + bh21;
    let bh19 = lit_cost() + bh20;
    let bh18 = dec(b.usage.total_tokens as nat) + bh19;
    let bh17 = lit_total() + bh18;
    let bh16 = dec(b.usage.completion_tokens as nat) + bh17;
    let bh15 = lit_completion() + bh16;
    let bh14 = dec(b.usage.prompt_tokens as nat) + bh15;
    let bh13 = lit_usage() + bh14;
    let bh12 = dec(b.duration_ms as nat) + bh13;
    let bh11 = lit_dur() + bh12;
    let bh10 = dec(b.timestamp as nat) + bh11;
    let bh9 = lit_ts() + bh10;
    let bh8 = dec(b.consumer_id as nat) + bh9;
    let bh7 = lit_con_id() + bh8;
    let bh6 = dec(b.service_id as nat) + bh7;
    let bh5 = lit_svc_id() + bh6;
    let bh4 = dec(b.request_id as nat) + bh5;
    let bh3 = lit_req_id() + bh4;
    let bh2 = dec(b.id as nat) + bh3;
    let bh1 = lit_obj_id() + bh2;
    assert(ah1 == bh1);
    lemma_prefix_cancel(lit_obj_id(), lit_obj_id(), ah2, bh2);
    assert(ah3.len() > 0 && bh3.len() > 0);
    assert(!text::spec_is_digit(ah3[0]) && !text::spec_is_digit(bh3[0]));
    lemma_dec_peel(a.id as nat, b.id as nat, ah3, bh3);
    lemma_prefix_cancel(lit_req_id(), lit_req_id(), ah4, bh4);
    assert(ah5.len() > 0 && bh5.len() > 0);
    assert(!text::spec_is_digit(ah5[0]) && !text::spec_is_digit(bh5[0]));
    lemma_dec_peel(a.request_id as nat, b.request_id as nat, ah5, bh5);
    lemma_prefix_cancel(lit_svc_id(), lit_svc_id(), ah6, bh6);
    assert(ah7.len() > 0 && bh7.len() > 0);
    assert(!text::spec_is_digit(ah7[0]) && !text::spec_is_digit(bh7[0]));
    lemma_dec_peel(a.service_id as nat, b.service_id as nat, ah7, bh7);
    lemma_prefix_cancel(lit_con_id(), lit_con_id(), ah8, bh8);
    assert(ah9.len() > 0 && bh9.len() > 0);
    assert(!text::spec_is_digit(ah9[0]) && !text::spec_is_digit(bh9[0]));
    lemma_dec_peel(a.consumer_id as nat, b.consumer_id as nat, ah9, bh9);
    lemma_prefix_cancel(lit_ts(), lit_ts(), ah10, bh10);
    assert(ah11.len() > 0 && bh11.len() > 0);
    assert(!text::spec_is_digit(ah11[0]) && !text::spec_is_digit(bh11[0]));
    lemma_dec_peel(a.timestamp as nat, b.timestamp as nat, ah11, bh11);
    lemma_prefix_cancel(lit_dur(), lit_dur(), ah12, bh12);
    assert(ah13.len() > 0 && bh13.len() > 0);
    assert(!text::spec_is_digit(ah13[0]) && !text::spec_is_digit(bh13[0]));
    lemma_dec_peel(a.duration_ms as nat, b.duration_ms as nat, ah13, bh13);
    lemma_prefix_cancel(lit_usage(), lit_usage(), ah14, bh14);
    assert(ah15.len() > 0 && bh15.len() > 0);
    assert(!text::spec_is_digit(ah15[0]) && !text::spec_is_digit(bh15[0]));
    lemma_dec_peel(a.usage.prompt_tokens as nat, b.usage.prompt_tokens as nat, ah15, bh15);
    lemma_prefix_cancel(lit_completion(), lit_completion(), ah16, bh16);
    assert(ah17.len() > 0 && bh17.len() > 0);
    assert(!text::spec_is_digit(ah17[0]) && !text::spec_is_digit(bh17[0]));
    lemma_dec_peel(a.usage.completion_tokens as nat, b.usage.completion_tokens as nat, ah17, bh17);
    lemma_prefix_cancel(lit_total(), lit_total(), ah18, bh18);
    assert(ah19.len() > 0 && bh19.len() > 0);
    assert(!text::spec_is_digit(ah19[0]) && !text::spec_is_digit(bh19[0]));
    lemma_dec_peel(a.usage.total_tokens as nat, b.usage.total_tokens as nat, ah19, bh19);
    lemma_prefix_cancel(lit_cost(), lit_cost(), ah20, bh20);
    assert(ah21.len() > 0 && bh21.len() > 0);
    assert(!text::spec_is_digit(ah21[0]) && !text::spec_is_digit(bh21[0]));
    lemma_dec_peel(a.cost.amount_micros as nat, b.cost.amount_micros as nat, ah21, bh21);
    assert(spec_record_mid(a) + spec_record_tail(a) == spec_record_mid(b) + spec_record_tail(b));

    lemma_mid_rassoc(a, spec_record_tail(a));
    lemma_mid_rassoc(b, spec_record_tail(b));
    let am15 = spec_record_tail(a);
    let am14 = dec(bd_requests(a.cost.breakdown) as nat) + am15;
    let am13 = lit_b_requests() + am14;
    let am12 = dec(bd_rate(a.cost.breakdown) as nat) + am13;
    let am11 = lit_b_rate() + am12;
    let am10 = dec(bd_total(a.cost.breakdown) as nat) + am11;
    let am9 = lit_b_total() + am10;
    let am8 = dec(bd_completion(a.cost.breakdown) as nat) + am9;
    let am7 = lit_b_completion() + am8;
    let am6 = dec(bd_prompt(a.cost.breakdown) as nat) + am7;
    let am5 = lit_b_prompt() + am6;
    let am4 = dec(bd_kind(a.cost.breakdown) as nat) + am5;
    let am3 = lit_breakdown() + am4;
    let am2 = spec_escape(vstd::utf8::encode_utf8(a.cost.currency@)) + (seq![34u8] + am3);
    let am1 = lit_currency() + am2;
    let bm15 = spec_record_tail(b);
    let bm14 = dec(bd_requests(b.cost.breakdown) as nat) + bm15;
    let bm13 = lit_b_requests() + bm14;
    let bm12 = dec(bd_rate(b.cost.breakdown) as nat) + bm13;
    let bm11 = lit_b_rate() + bm12;
    let bm10 = dec(bd_total(b.cost.breakdown) as nat) + bm11;
    let bm9 = lit_b_total() + bm10;
    let bm8 = dec(bd_completion(b.cost.breakdown) as nat) + bm9;
    let bm7 = lit_b_completion() + bm8;
    let bm6 = dec(bd_prompt(b.cost.breakdown) as nat) + bm7;
    let bm5 = lit_b_prompt() + bm6;
    let bm4 = dec(bd_kind(b.cost.breakdown) as nat) + bm5;
    let bm3 = lit_breakdown() + bm4;
    let bm2 = spec_escape(vstd::utf8::encode_utf8(b.cost.currency@)) + (seq![34u8] + bm3);
    let bm1 = lit_currency() + bm2;
    assert(am1 == bm1);
    lemma_prefix_cancel(lit_currency(), lit_currency(), am2, bm2);
    lemma_escape_peel(
        vstd::utf8::encode_utf8(a.cost.currency@),
        vstd::utf8::encode_utf8(b.cost.currency@),
        am3,
        bm3,
    );
    vstd::utf8::encode_utf8_decode_utf8(a.cost.currency@);
    vstd::utf8::encode_utf8_decode_utf8(b.cost.currency@);
    lemma_prefix_cancel(lit_breakdown(), lit_breakdown(), am4, bm4);
    assert(am5.len() > 0 && bm5.len() > 0);
    assert(!text::spec_is_digit(am5[0]) && !text::spec_is_digit(bm5[0]));
    lemma_dec_peel(bd_kind(a.cost.breakdown) as nat, bd_kind(b.cost.breakdown) as nat, am5, bm5);
    lemma_prefix_cancel(lit_b_prompt(), lit_b_prompt(), am6, bm6);
    assert(am7.len() > 0 && bm7.len() > 0);
    assert(!text::spec_is_digit(am7[0]) && !text::spec_is_digit(bm7[0]));
    lemma_dec_peel(bd_prompt(a.cost.breakdown) as nat, bd_prompt(b.cost.breakdown) as nat, am7, bm7);
    lemma_prefix_cancel(lit_b_completion(), lit_b_completion(), am8, bm8);
    assert(am9.len() > 0 && bm9.len() > 0);
    assert(!text::spec_is_digit(am9[0]) && !text::spec_is_digit(bm9[0]));
    lemma_dec_peel(bd_completion(a.cost.breakdown) as nat, bd_completion(b.cost.breakdown) as nat, am9, bm9);
    lemma_prefix_cancel(lit_b_total(), lit_b_total(), am10, bm10);
    assert(am11.len() > 0 && bm11.len() > 0);
    assert(!text::spec_is_digit(am11[0]) && !text::spec_is_digit(bm11[0]));
    lemma_dec_peel(bd_total(a.cost.breakdown) as nat, bd_total(b.cost.breakdown) as nat, am11, bm11);
    lemma_prefix_cancel(lit_b_rate(), lit_b_rate(), am12, bm12);
    assert(am13.len() > 0 && bm13.len() > 0);
    assert(!text::spec_is_digit(am13[0]) && !text::spec_is_digit(bm13[0]));
    lemma_dec_peel(bd_rate(a.cost.breakdown) as nat, bd_rate(b.cost.breakdown) as nat, am13, bm13);
    lemma_prefix_cancel(lit_b_requests(), lit_b_requests(), am14, bm14);
    assert(am15.len() > 0 && bm15.len() > 0);
    assert(!text::spec_is_digit(am15[0]) && !text::spec_is_digit(bm15[0]));
    lemma_dec_peel(bd_requests(a.cost.breakdown) as nat, bd_requests(b.cost.breakdown) as nat, am15, bm15);
    assert(spec_record_tail(a) == spec_record_tail(b));

    lemma_tail_rassoc(a);
    lemma_tail_rassoc(b);
    let at5 = lit_close();
    let at4 = spec_error_bytes(match a.error { Some(m) => Some(m@), None => None }) + at5;
    let at3 = lit_err_field() + at4;
    let at2 = spec_status_bytes(a.status) + at3;
    let at1 = lit_status() + at2;
    let bt5 = lit_close();
    let bt4 = spec_error_bytes(match b.error { Some(m) => Some(m@), None => None }) + bt5;
    let bt3 = lit_err_field() + bt4;
    let bt2 = spec_status_bytes(b.status) + bt3;
    let bt1 = lit_status() + bt2;
    assert(at1 == bt1);
    lemma_prefix_cancel(lit_status(), lit_status(), at2, bt2);
    lemma_status_peel(a.status, b.status, at3, bt3);
    lemma_prefix_cancel(lit_err_field(), lit_err_field(), at4, bt4);
    lemma_error_peel(
        match a.error { Some(m) => Some(m@), None => None },
        match b.error { Some(m) => Some(m@), None => None },
        at5,
        bt5,
    );
    lemma_breakdown_determined(a.cost.breakdown, b.cost.breakdown);
}

} // verus!
