use vstd::prelude::*;

use crate::cost::{CostInfo, UsageInfo};
use crate::meter::{spec_sat_add, RecordStatus};
use crate::tier::ServiceTier;

verus! {

/// One analytics event, carrying its epoch-second timestamp and the
/// identifiers downstream attribution needs.
#[derive(Debug, Clone, PartialEq, Eq)]
pub enum AnalyticsEvent {
    ConsumptionRequest {
        request_id: u128,
        service_id: u128,
        consumer_id: u128,
        timestamp: u64,
        latency_ms: u64,
        usage: UsageInfo,
        cost: CostInfo,
        status: RecordStatus,
    },
    RateLimitExceeded {
        service_id: u128,
        consumer_id: u128,
        timestamp: u64,
        tier: ServiceTier,
        limit: u32,
    },
    QuotaExceeded {
        service_id: u128,
        consumer_id: u128,
        timestamp: u64,
        tier: ServiceTier,
        used_tokens: u64,
        total_tokens: u64,
    },
    SLAViolation {
        service_id: u128,
        timestamp: u64,
        metric: crate::sla::SlaMetric,
        threshold: u64,
        actual: u64,
        severity: crate::sla::SlaSeverity,
    },
    PolicyViolation {
        service_id: u128,
        consumer_id: u128,
        timestamp: u64,
        policy_id: String,
        policy_name: String,
        severity: String,
        message: String,
    },
    ApiKeyCreated {
        consumer_id: u128,
        service_id: u128,
        tier: ServiceTier,
        timestamp: u64,
    },
    ApiKeyRevoked {
        consumer_id: u128,
        service_id: u128,
        timestamp: u64,
        reason: String,
    },
}

/// Occupancy of the event buffer, for monitoring.
#[derive(Debug, Clone, Copy, PartialEq, Eq, Structural)]
pub struct ChannelMetrics {
    pub capacity: usize,
    pub current_length: usize,
}

/// The analytics streamer's bounded buffer: sends never block and never
/// fail the request — an event arriving at a full buffer is dropped and
/// counted. A background drainer takes batches of up to 100 events and
/// flushes on size or on a five-second tick.
#[derive(Debug, Clone, PartialEq, Eq)]
pub struct AnalyticsStreamer {
    pub buffer: Vec<AnalyticsEvent>,
    pub capacity: usize,
    pub dropped: u64,
}

/// Flush when the batch is full (100 events) or five seconds elapsed.
pub fn should_flush(batch_len: usize, elapsed_ms: u64) -> (r: bool)
    ensures
        r == (batch_len >= 100 || elapsed_ms >= 5000),
{
    batch_len >= 100 || elapsed_ms >= 5000
}

impl AnalyticsStreamer {
    /// A streamer with an empty buffer of the given capacity.
    pub fn new(buffer_size: usize) -> (r: Self)
        ensures
            r.buffer@.len() == 0,
            r.capacity == buffer_size,
            r.dropped == 0,
    {
        AnalyticsStreamer { buffer: Vec::new(), capacity: buffer_size, dropped: 0 }
    }

    /// Non-blocking send: the event is appended when the buffer has room
    /// and dropped (with the drop counted) when it is full. Never fails the
    /// calling request.
    pub fn send(&mut self, event: AnalyticsEvent) -> (accepted: bool)
        ensures
            accepted == (old(self).buffer@.len() < old(self).capacity),
            accepted ==> final(self).buffer@ == old(self).buffer@.push(event)
                && final(self).dropped == old(self).dropped,
            !accepted ==> final(self).buffer@ == old(self).buffer@
                && final(self).dropped == spec_sat_add(old(self).dropped, 1),
            final(self).capacity == old(self).capacity,
    {
        if self.buffer.len() < self.capacity {
            self.buffer.push(event);
            true
        } else {
            self.dropped = match self.dropped.checked_add(1) {
                Some(v) => v,
                None => u64::MAX,
            };
            false
        }
    }

    /// Record a completed consumption request.
    pub fn record_consumption(
        &mut self,
        request_id: u128,
        service_id: u128,
        consumer_id: u128,
        latency_ms: u64,
        usage: UsageInfo,
        cost: CostInfo,
        status: RecordStatus,
        now: u64,
    ) -> (accepted: bool)
        ensures
            accepted == (old(self).buffer@.len() < old(self).capacity),
            accepted ==> final(self).buffer@ == old(self).buffer@.push(
                AnalyticsEvent::ConsumptionRequest {
                    request_id,
                    service_id,
                    consumer_id,
                    timestamp: now,
                    latency_ms,
                    usage,
                    cost,
                    status,
                },
            ),
            !accepted ==> final(self).buffer@ == old(self).buffer@,
    {
        self.send(AnalyticsEvent::ConsumptionRequest {
            request_id,
            service_id,
            consumer_id,
            timestamp: now,
            latency_ms,
            usage,
            cost,
            status,
        })
    }

    /// Record a rate-limit rejection.
    pub fn record_rate_limit_exceeded(&mut self, service_id: u128, consumer_id: u128, tier: ServiceTier, limit: u32, now: u64) -> (accepted: bool)
        ensures
            accepted == (old(self).buffer@.len() < old(self).capacity),
            accepted ==> final(self).buffer@ == old(self).buffer@.push(
                AnalyticsEvent::RateLimitExceeded { service_id, consumer_id, timestamp: now, tier, limit },
            ),
            !accepted ==> final(self).buffer@ == old(self).buffer@,
    {
        self.send(AnalyticsEvent::RateLimitExceeded {
            service_id,
            consumer_id,
            timestamp: now,
            tier,
            limit,
        })
    }

    /// Record a quota rejection.
    pub fn record_quota_exceeded(&mut self, service_id: u128, consumer_id: u128, tier: ServiceTier, used_tokens: u64, total_tokens: u64, now: u64) -> (accepted: bool)
        ensures
            accepted == (old(self).buffer@.len() < old(self).capacity),
            accepted ==> final(self).buffer@ == old(self).buffer@.push(
                AnalyticsEvent::QuotaExceeded {
                    service_id,
                    consumer_id,
                    timestamp: now,
                    tier,
                    used_tokens,
                    total_tokens,
                },
            ),
            !accepted ==> final(self).buffer@ == old(self).buffer@,
    {
        self.send(AnalyticsEvent::QuotaExceeded {
            service_id,
            consumer_id,
            timestamp: now,
            tier,
            used_tokens,
            total_tokens,
        })
    }

    /// Record an SLA violation observation.
    pub fn record_sla_violation(&mut self, service_id: u128, metric: crate::sla::SlaMetric, threshold: u64, actual: u64, severity: crate::sla::SlaSeverity, now: u64) -> (accepted: bool)
        ensures
            accepted == (old(self).buffer@.len() < old(self).capacity),
            accepted ==> final(self).buffer@ == old(self).buffer@.push(
                AnalyticsEvent::SLAViolation { service_id, timestamp: now, metric, threshold, actual, severity },
            ),
            !accepted ==> final(self).buffer@ == old(self).buffer@,
    {
        self.send(AnalyticsEvent::SLAViolation {
            service_id,
            timestamp: now,
            metric,
            threshold,
            actual,
            severity,
        })
    }

    /// Record a policy violation.
    pub fn record_policy_violation(&mut self, service_id: u128, consumer_id: u128, policy_id: String, policy_name: String, severity: String, message: String, now: u64) -> (accepted: bool)
        ensures
            accepted == (old(self).buffer@.len() < old(self).capacity),
            !accepted ==> final(self).buffer@ == old(self).buffer@,
            accepted ==> final(self).buffer@ == old(self).buffer@.push(
                AnalyticsEvent::PolicyViolation {
                    service_id,
                    consumer_id,
                    timestamp: now,
                    policy_id,
                    policy_name,
                    severity,
                    message,
                },
            ),
    {
        self.send(AnalyticsEvent::PolicyViolation {
            service_id,
            consumer_id,
            timestamp: now,
            policy_id,
            policy_name,
            severity,
            message,
        })
    }

    /// Take the next batch for flushing: up to 100 events from the front of
    /// the buffer, which keeps the rest in order.
    pub fn take_batch(&mut self) -> (batch: Vec<AnalyticsEvent>)
        ensures
            ({
                let k = if old(self).buffer@.len() < 100 { old(self).buffer@.len() as int } else { 100int };
                &&& batch@ == old(self).buffer@.subrange(0, k)
                &&& final(self).buffer@ == old(self).buffer@.skip(k)
                &&& final(self).capacity == old(self).capacity
            }),
    {
        let k: usize = if self.buffer.len() < 100 { self.buffer.len() } else { 100 };
        let mut tail = self.buffer.split_off(k);
        core::mem::swap(&mut self.buffer, &mut tail);
        proof {
            assert(final(self).buffer@ =~= old(self).buffer@.skip(k as int));
        }
        tail
    }

    /// Get channel capacity and current length (for monitoring).
    pub fn metrics(&self) -> (r: ChannelMetrics)
        ensures
            r.capacity == self.capacity,
            r.current_length == self.buffer@.len(),
    {
        ChannelMetrics { capacity: self.capacity, current_length: self.buffer.len() }
    }
}

} // verus!
