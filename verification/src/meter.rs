use vstd::prelude::*;

use crate::cost::{compute_cost, spec_cost_amount, spec_cost_breakdown, spec_cost_fails};
use crate::cost::{CostError, CostInfo, PricingModel, UsageInfo};

verus! {

/// Whether a metered request succeeded or failed.
#[derive(Debug, Clone, Copy, PartialEq, Eq, Structural)]
pub enum RecordStatus {
    Success,
    Error,
}

/// One append-only usage record: who consumed what, when, at what cost.
#[derive(Debug, Clone, PartialEq, Eq)]
pub struct UsageRecord {
    pub id: u128,
    pub request_id: u128,
    pub service_id: u128,
    pub consumer_id: u128,
    pub timestamp: u64,
    pub duration_ms: u32,
    pub usage: UsageInfo,
    pub cost: CostInfo,
    pub status: RecordStatus,
    pub error: Option<String>,
}

/// Usage aggregated over a time window. Sums saturate at the 64-bit
/// maximum instead of wrapping.
#[derive(Debug, Clone, Copy, PartialEq, Eq, Structural)]
pub struct UsageStats {
    pub service_id: u128,
    pub consumer_id: u128,
    pub period_start: u64,
    pub period_end: u64,
    pub total_requests: u64,
    pub total_tokens: u64,
    pub total_cost_micros: u64,
    pub total_duration_ms: u64,
    pub error_count: u64,
}

/// Addition on `u64` that stops at the maximum.
pub open spec fn spec_sat_add(a: u64, b: u64) -> u64 {
    if a + b > u64::MAX {
        u64::MAX
    } else {
        (a + b) as u64
    }
}

/// Whether a record belongs to the queried consumer, service and window.
pub open spec fn spec_in_window(r: UsageRecord, consumer: u128, service: u128, from: u64, to: u64) -> bool {
    r.consumer_id == consumer && r.service_id == service && from <= r.timestamp <= to
}

/// Aggregates over the first `n` records: requests, tokens, cost, duration
/// and errors of every record in the window.
pub open spec fn spec_stats(s: Seq<UsageRecord>, consumer: u128, service: u128, from: u64, to: u64, n: int) -> (u64, u64, u64, u64, u64)
    decreases n,
{
    if n <= 0 {
        (0u64, 0u64, 0u64, 0u64, 0u64)
    } else {
        let prev = spec_stats(s, consumer, service, from, to, n - 1);
        if spec_in_window(s[n - 1], consumer, service, from, to) {
            (
                spec_sat_add(prev.0, 1),
                spec_sat_add(prev.1, s[n - 1].usage.total_tokens as u64),
                spec_sat_add(prev.2, s[n - 1].cost.amount_micros),
                spec_sat_add(prev.3, s[n - 1].duration_ms as u64),
                if s[n - 1].status == RecordStatus::Error {
                    spec_sat_add(prev.4, 1)
                } else {
                    prev.4
                },
            )
        } else {
            prev
        }
    }
}

/// The usage meter: computes costs and keeps the append-only record log.
#[derive(Debug, Clone, PartialEq, Eq)]
pub struct UsageMeter {
    pub records: Vec<UsageRecord>,
}

impl UsageMeter {
    /// An empty record log.
    pub fn new() -> (r: Self)
        ensures
            r.records@.len() == 0,
    {
        UsageMeter { records: Vec::new() }
    }

    /// Calculate cost based on pricing model and usage; a pure computation,
    /// identical for identical inputs.
    pub fn calculate_cost(&self, pricing: &PricingModel, usage: &UsageInfo) -> (r: Result<CostInfo, CostError>)
        requires
            pricing.rates@.len() > 0 ==> pricing.rates@[0].rate_micros <= u32::MAX as u64,
        ensures
            r is Err <==> spec_cost_fails(*pricing),
            r matches Ok(cost) ==> {
                &&& cost.amount_micros == spec_cost_amount(*pricing, *usage)
                &&& cost.breakdown == spec_cost_breakdown(*pricing, *usage)
                &&& cost.currency@ == "USD"@
            },
    {
        compute_cost(pricing, usage)
    }

    /// Append one usage record for a completed request, pricing it under
    /// the service's model. Exactly one record is appended on success;
    /// nothing is appended when the pricing model lacks its rate.
    pub fn record_usage(
        &mut self,
        id: u128,
        request_id: u128,
        service_id: u128,
        consumer_id: u128,
        usage: UsageInfo,
        duration_ms: u32,
        status: RecordStatus,
        error: Option<String>,
        pricing: &PricingModel,
        now: u64,
    ) -> (r: Result<UsageRecord, CostError>)
        requires
            pricing.rates@.len() > 0 ==> pricing.rates@[0].rate_micros <= u32::MAX as u64,
        ensures
            r is Err <==> spec_cost_fails(*pricing),
            r matches Ok(rec) ==> {
                &&& rec.id == id
                &&& rec.request_id == request_id
                &&& rec.service_id == service_id
                &&& rec.consumer_id == consumer_id
                &&& rec.timestamp == now
                &&& rec.duration_ms == duration_ms
                &&& rec.usage == usage
                &&& rec.cost.amount_micros == spec_cost_amount(*pricing, usage)
                &&& rec.cost.breakdown == spec_cost_breakdown(*pricing, usage)
                &&& rec.cost.currency@ == "USD"@
                &&& rec.status == status
                &&& rec.error == error
                &&& final(self).records@ == old(self).records@.push(rec)
            },
            r is Err ==> final(self).records@ == old(self).records@,
    {
        let cost = match compute_cost(pricing, &usage) {
            Ok(c) => c,
            Err(e) => {
                return Err(e);
            },
        };
        let rec = UsageRecord {
            id,
            request_id,
            service_id,
            consumer_id,
            timestamp: now,
            duration_ms,
            usage,
            cost,
            status,
            error,
        };
        let out = rec.duplicate();
        self.records.push(rec);
        Ok(out)
    }

    /// Aggregate usage for a consumer and service over `[from, to]`:
    /// request count, token and cost sums, summed latency and error count,
    /// over exactly the records in the window.
    #[verifier::loop_isolation(false)]
    pub fn get_usage_stats(&self, consumer_id: u128, service_id: u128, from: u64, to: u64) -> (r: UsageStats)
        ensures
            ({
                let agg = spec_stats(self.records@, consumer_id, service_id, from, to, self.records@.len() as int);
                &&& r.service_id == service_id
                &&& r.consumer_id == consumer_id
                &&& r.period_start == from
                &&& r.period_end == to
                &&& r.total_requests == agg.0
                &&& r.total_tokens == agg.1
                &&& r.total_cost_micros == agg.2
                &&& r.total_duration_ms == agg.3
                &&& r.error_count == agg.4
            }),
    {
        let mut requests: u64 = 0;
        let mut tokens: u64 = 0;
        let mut cost: u64 = 0;
        let mut duration: u64 = 0;
        let mut errors: u64 = 0;
        let mut i: usize = 0;
        while i < self.records.len()
            invariant
                i <= self.records@.len(),
                (requests, tokens, cost, duration, errors)
                    == spec_stats(self.records@, consumer_id, service_id, from, to, i as int),
            decreases self.records@.len() - i,
        {
            let rec = &self.records[i];
            if rec.consumer_id == consumer_id && rec.service_id == service_id
                && from <= rec.timestamp && rec.timestamp <= to {
                requests = sat_add(requests, 1);
                tokens = sat_add(tokens, rec.usage.total_tokens as u64);
                cost = sat_add(cost, rec.cost.amount_micros);
                duration = sat_add(duration, rec.duration_ms as u64);
                if rec.status == RecordStatus::Error {
                    errors = sat_add(errors, 1);
                }
            }
            i = i + 1;
        }
        UsageStats {
            service_id,
            consumer_id,
            period_start: from,
            period_end: to,
            total_requests: requests,
            total_tokens: tokens,
            total_cost_micros: cost,
            total_duration_ms: duration,
            error_count: errors,
        }
    }
}

/// Saturating addition.
pub fn sat_add(a: u64, b: u64) -> (r: u64)
    ensures
        r == spec_sat_add(a, b),
{
    match a.checked_add(b) {
        Some(v) => v,
        None => u64::MAX,
    }
}

impl UsageRecord {
    /// An equal copy of this record.
    pub fn duplicate(&self) -> (r: UsageRecord)
        ensures
            r == *self,
    {
        UsageRecord {
            id: self.id,
            request_id: self.request_id,
            service_id: self.service_id,
            consumer_id: self.consumer_id,
            timestamp: self.timestamp,
            duration_ms: self.duration_ms,
            usage: self.usage,
            cost: CostInfo {
                amount_micros: self.cost.amount_micros,
                currency: self.cost.currency.clone(),
                breakdown: self.cost.breakdown,
            },
            status: self.status,
            error: match &self.error {
                Some(e) => Some(e.clone()),
                None => None,
            },
        }
    }
}

} // verus!
