use vstd::prelude::*;

verus! {

/// Service-level agreement of one service. `availability_ppm` is the
/// required uptime in parts per million (999500 stands for 99.95%).
#[derive(Debug, Clone, Copy, PartialEq, Eq, Structural)]
pub struct SlaConfig {
    pub availability_ppm: u32,
    pub max_latency_ms: u64,
    pub timeout_ms: u64,
}

/// The metric a violation was observed on.
#[derive(Debug, Clone, Copy, PartialEq, Eq, Structural)]
pub enum SlaMetric {
    Latency,
    ErrorRate,
}

/// How far past its threshold an observation was.
#[derive(Debug, Clone, Copy, PartialEq, Eq, Structural)]
pub enum SlaSeverity {
    Warning,
    Critical,
}

/// One recorded SLA violation. `threshold` and `actual` are milliseconds
/// for the latency metric and parts per million for the error-rate metric.
#[derive(Debug, Clone, Copy, PartialEq, Eq, Structural)]
pub struct SLAViolation {
    pub id: u128,
    pub service_id: u128,
    pub metric: SlaMetric,
    pub threshold: u64,
    pub actual: u64,
    pub timestamp: u64,
    pub severity: SlaSeverity,
}

/// Compliance of one service over a reporting window, in integer units:
/// rates are parts per million.
#[derive(Debug, Clone, Copy, PartialEq, Eq, Structural)]
pub struct SLAStatus {
    pub service_id: u128,
    pub period_start: u64,
    pub period_end: u64,
    pub total_requests: u64,
    pub total_latency_ms: u64,
    pub latency_threshold_ms: u64,
    pub latency_compliant: bool,
    pub error_rate_ppm: u64,
    pub error_rate_threshold_ppm: u64,
    pub error_rate_compliant: bool,
    pub uptime_ppm: u64,
    pub uptime_threshold_ppm: u64,
    pub uptime_compliant: bool,
    pub violation_count: u64,
    pub overall_compliant: bool,
}

/// Evaluate the per-request latency check: a violation is recorded exactly
/// when the observed latency exceeds the service's timeout, and it is
/// critical exactly when the latency exceeds twice the timeout.
pub fn check_sla_violation(id: u128, service_id: u128, timeout_ms: u64, latency_ms: u64, now: u64) -> (r: Option<SLAViolation>)
    requires
        timeout_ms <= u64::MAX / 2,
    ensures
        r is Some <==> latency_ms > timeout_ms,
        r matches Some(v) ==> {
            &&& v.id == id
            &&& v.service_id == service_id
            &&& v.metric == SlaMetric::Latency
            &&& v.threshold == timeout_ms
            &&& v.actual == latency_ms
            &&& v.timestamp == now
            &&& v.severity == if latency_ms > 2 * timeout_ms {
                SlaSeverity::Critical
            } else {
                SlaSeverity::Warning
            }
        },
{
    if latency_ms > timeout_ms {
        Some(SLAViolation {
            id,
            service_id,
            metric: SlaMetric::Latency,
            threshold: timeout_ms,
            actual: latency_ms,
            timestamp: now,
            severity: if latency_ms > 2 * timeout_ms {
                SlaSeverity::Critical
            } else {
                SlaSeverity::Warning
            },
        })
    } else {
        None
    }
}

/// Evaluate the error-rate check over a five-minute window: with an
/// error-rate threshold of 0.1% (1000 ppm), a violation is recorded
/// exactly when `errors / total > 1/1000`, and it is critical exactly when
/// the rate exceeds twice the threshold.
pub fn check_error_rate_sla(id: u128, service_id: u128, total: u64, errors: u64, now: u64) -> (r: Option<SLAViolation>)
    requires
        errors <= total,
        errors <= 0x10000000000,
    ensures
        r is Some <==> total > 0 && 1000 * errors > total,
        r matches Some(v) ==> {
            &&& v.id == id
            &&& v.service_id == service_id
            &&& v.metric == SlaMetric::ErrorRate
            &&& v.threshold == 1000
            &&& v.actual == errors * 1000000 / (total as int)
            &&& v.timestamp == now
            &&& v.severity == if 1000 * errors > 2 * total {
                SlaSeverity::Critical
            } else {
                SlaSeverity::Warning
            }
        },
{
    if total == 0 {
        return None;
    }
    if 1000 * errors > total {
        Some(SLAViolation {
            id,
            service_id,
            metric: SlaMetric::ErrorRate,
            threshold: 1000,
            actual: errors * 1000000 / total,
            timestamp: now,
            severity: if 1000 * errors > 2 * total {
                SlaSeverity::Critical
            } else {
                SlaSeverity::Warning
            },
        })
    } else {
        None
    }
}

/// A critical violation raises an alert; alerting failures never propagate.
pub fn should_alert(v: &SLAViolation) -> (r: bool)
    ensures
        r == (v.severity == SlaSeverity::Critical),
{
    v.severity == SlaSeverity::Critical
}

/// Compute a service's compliance over a window from its aggregates:
/// average latency below the timeout, error rate below 1000 ppm, uptime
/// (successful share of requests) at or above the configured availability.
/// A window without requests is compliant on all three.
pub fn get_sla_status(
    service_id: u128,
    sla: &SlaConfig,
    period_start: u64,
    period_end: u64,
    total: u64,
    errors: u64,
    total_latency_ms: u64,
    violation_count: u64,
) -> (r: SLAStatus)
    requires
        errors <= total,
        total <= 0x10000000000,
        total_latency_ms <= 0x10000000000,
        sla.timeout_ms <= 0x10000000000,
        sla.availability_ppm <= 1000000,
    ensures
        r.service_id == service_id,
        r.period_start == period_start && r.period_end == period_end,
        r.total_requests == total,
        r.total_latency_ms == total_latency_ms,
        r.latency_threshold_ms == sla.timeout_ms,
        r.latency_compliant == (total == 0 || total_latency_ms < sla.timeout_ms * total),
        r.error_rate_ppm == if total == 0 { 0int } else { errors * 1000000 / (total as int) },
        r.error_rate_threshold_ppm == 1000,
        r.error_rate_compliant == (total == 0 || 1000 * errors < total),
        r.uptime_ppm == if total == 0 { 1000000int } else { (total - errors) * 1000000 / (total as int) },
        r.uptime_threshold_ppm == sla.availability_ppm,
        r.uptime_compliant == (total == 0
            || (total - errors) * 1000000 >= sla.availability_ppm * total),
        r.violation_count == violation_count,
        r.overall_compliant == (r.latency_compliant && r.error_rate_compliant && r.uptime_compliant),
{
    proof {
        assert((sla.timeout_ms as int) * (total as int) <= 0x10000000000 * 0x10000000000)
            by (nonlinear_arith)
            requires sla.timeout_ms <= 0x10000000000, total <= 0x10000000000;
        assert((sla.availability_ppm as int) * (total as int) <= 1000000 * 0x10000000000)
            by (nonlinear_arith)
            requires sla.availability_ppm <= 1000000, total <= 0x10000000000;
        assert(((total - errors) as int) * 1000000 <= 0x10000000000 * 1000000)
            by (nonlinear_arith)
            requires errors <= total, total <= 0x10000000000;
        assert((errors as int) * 1000000 <= 0x10000000000 * 1000000)
            by (nonlinear_arith)
            requires errors <= total, total <= 0x10000000000;
    }
    let latency_compliant: bool = total == 0
        || (total_latency_ms as u128) < (sla.timeout_ms as u128) * (total as u128);
    let error_rate_ppm: u64 = if total == 0 { 0 } else { errors * 1000000 / total };
    let error_rate_compliant: bool = total == 0 || 1000 * errors < total;
    let uptime_ppm: u64 = if total == 0 { 1000000 } else { (total - errors) * 1000000 / total };
    let uptime_compliant: bool = total == 0
        || (total - errors) * 1000000 >= (sla.availability_ppm as u64) * total;
    SLAStatus {
        service_id,
        period_start,
        period_end,
        total_requests: total,
        total_latency_ms,
        latency_threshold_ms: sla.timeout_ms,
        latency_compliant,
        error_rate_ppm,
        error_rate_threshold_ppm: 1000,
        error_rate_compliant,
        uptime_ppm,
        uptime_threshold_ppm: sla.availability_ppm as u64,
        uptime_compliant,
        violation_count,
        overall_compliant: latency_compliant && error_rate_compliant && uptime_compliant,
    }
}

/// Number of logged violations of a service among the first `n`.
pub open spec fn spec_violation_count(s: Seq<SLAViolation>, service_id: u128, n: int) -> int
    decreases n,
{
    if n <= 0 {
        0
    } else if s[n - 1].service_id == service_id {
        spec_violation_count(s, service_id, n - 1) + 1
    } else {
        spec_violation_count(s, service_id, n - 1)
    }
}

/// The SLA monitor: evaluates checks and keeps the append-only violation
/// log.
#[derive(Debug, Clone, PartialEq, Eq)]
pub struct SLAMonitor {
    pub violations: Vec<SLAViolation>,
}

impl SLAMonitor {
    /// An empty violation log.
    pub fn new() -> (r: Self)
        ensures
            r.violations@.len() == 0,
    {
        SLAMonitor { violations: Vec::new() }
    }

    /// Record a violation; returns whether it must be escalated to the
    /// alerting hook (exactly for critical violations).
    pub fn record_violation(&mut self, v: SLAViolation) -> (alert: bool)
        ensures
            final(self).violations@ == old(self).violations@.push(v),
            alert == (v.severity == SlaSeverity::Critical),
    {
        let alert = should_alert(&v);
        self.violations.push(v);
        alert
    }

    /// The most recent violations of a service, newest first: exactly
    /// `min(limit, n)` of them, where `n` is the number logged for the
    /// service.
    #[verifier::loop_isolation(false)]
    pub fn get_violations(&self, service_id: u128, limit: usize) -> (r: Vec<SLAViolation>)
        ensures
            r@.len() == vstd::math::min(
                limit as int,
                spec_violation_count(self.violations@, service_id, self.violations@.len() as int),
            ),
            forall|i: int| 0 <= i < r@.len() ==> #[trigger] r@[i].service_id == service_id,
            forall|i: int, j: int| 0 <= i < j < r@.len()
                ==> #[trigger] r@[i].timestamp >= #[trigger] r@[j].timestamp,
            forall|i: int| 0 <= i < r@.len() ==> self.violations@.contains(#[trigger] r@[i]),
    {
        let mut pool: Vec<SLAViolation> = Vec::new();
        let mut i: usize = 0;
        while i < self.violations.len()
            invariant
                i <= self.violations@.len(),
                pool@.len() == spec_violation_count(self.violations@, service_id, i as int),
                forall|k: int| 0 <= k < pool@.len()
                    ==> #[trigger] pool@[k].service_id == service_id,
                forall|k: int| 0 <= k < pool@.len() ==> self.violations@.contains(#[trigger] pool@[k]),
            decreases self.violations@.len() - i,
        {
            if self.violations[i].service_id == service_id {
                pool.push(self.violations[i]);
            }
            i = i + 1;
        }
        let ghost total = pool@.len() as int;
        let mut out: Vec<SLAViolation> = Vec::new();
        while pool.len() > 0 && out.len() < limit
            invariant
                out@.len() <= limit,
                out@.len() + pool@.len() == total,
                forall|a: int| 0 <= a < out@.len() ==> #[trigger] out@[a].service_id == service_id,
                forall|a: int| 0 <= a < out@.len() ==> self.violations@.contains(#[trigger] out@[a]),
                forall|a: int| 0 <= a < pool@.len() ==> #[trigger] pool@[a].service_id == service_id,
                forall|a: int| 0 <= a < pool@.len() ==> self.violations@.contains(#[trigger] pool@[a]),
                forall|a: int, b: int| 0 <= a < b < out@.len()
                    ==> #[trigger] out@[a].timestamp >= #[trigger] out@[b].timestamp,
                forall|a: int, b: int| 0 <= a < out@.len() && 0 <= b < pool@.len()
                    ==> #[trigger] out@[a].timestamp >= #[trigger] pool@[b].timestamp,
            decreases pool@.len(),
        {
            let mut best: usize = 0;
            let mut j: usize = 1;
            while j < pool.len()
                invariant
                    best < j <= pool@.len(),
                    pool@.len() > 0,
                    forall|b: int| 0 <= b < j
                        ==> pool@[best as int].timestamp >= #[trigger] pool@[b].timestamp,
                decreases pool@.len() - j,
            {
                if pool[j].timestamp > pool[best].timestamp {
                    best = j;
                }
                j = j + 1;
            }
            let ghost pool_before = pool@;
            let rec = pool.remove(best);
            out.push(rec);
            proof {
                assert forall|b: int| 0 <= b < pool@.len()
                    implies out@.last().timestamp >= #[trigger] pool@[b].timestamp by {
                    if b < best {
                        assert(pool@[b] == pool_before[b]);
                    } else {
                        assert(pool@[b] == pool_before[b + 1]);
                    }
                }
                assert forall|b: int| 0 <= b < pool@.len()
                    implies self.violations@.contains(#[trigger] pool@[b]) by {
                    if b < best {
                        assert(pool@[b] == pool_before[b]);
                    } else {
                        assert(pool@[b] == pool_before[b + 1]);
                    }
                }
                assert forall|b: int| 0 <= b < pool@.len()
                    implies #[trigger] pool@[b].service_id == service_id by {
                    if b < best {
                        assert(pool@[b] == pool_before[b]);
                    } else {
                        assert(pool@[b] == pool_before[b + 1]);
                    }
                }
            }
        }
        out
    }
}

} // verus!
