use vstd::prelude::*;

use crate::cost::{compute_cost, spec_cost_amount, spec_cost_fails, CostInfo, PricingModel, UsageInfo};
use crate::policy::PolicyViolation;
use crate::quota::QuotaStatus;
use crate::rate_limit::RateLimitStatus;
use crate::tier::ServiceTier;

verus! {

/// Where in the stage order a request currently stands. Stages run
/// strictly in this order and short-circuit: auth, policy, rate limit,
/// quota, breaker, dispatch.
#[derive(Debug, Clone, Copy, PartialEq, Eq, Structural)]
pub enum Phase {
    ResolvingService,
    ResolvingKey,
    CheckingPolicy,
    CheckingRateLimit,
    CheckingQuota,
    CheckingBreaker,
    Dispatching,
    Settled,
}

/// The caller-visible success body assembled by the pipeline.
#[derive(Debug, Clone, PartialEq, Eq)]
pub struct ConsumeResponse {
    pub request_id: u128,
    pub usage: UsageInfo,
    pub cost: CostInfo,
    pub latency_ms: u64,
}

/// How a request ended: a success body, or a typed rejection with its HTTP
/// status and optional retry advice.
#[derive(Debug, Clone, PartialEq, Eq)]
pub enum PipelineOutcome {
    Completed(ConsumeResponse),
    Rejected { status: u16, retry_after: Option<u64> },
}

/// What the driver reports back to the pipeline after performing one
/// stage's outside work.
#[derive(Debug, Clone, PartialEq, Eq)]
pub enum PipelineEvent {
    /// The service record, when the registry knows the id.
    ServiceResolved(Option<PricingModel>),
    /// The tier of the caller's key for this service, when one is valid.
    KeyResolved(Option<ServiceTier>),
    /// The policy engine's verdict (or its fail-open stand-in), with the
    /// violations behind a denial.
    PolicyChecked { allowed: bool, violations: Vec<PolicyViolation> },
    /// The rate limiter's answer.
    RateLimitChecked(RateLimitStatus),
    /// The quota manager's answer.
    QuotaChecked(QuotaStatus),
    /// Whether the service's circuit breaker admits the request.
    BreakerChecked(bool),
    /// The routed upstream call: reported usage and latency, or `None`
    /// after retries were exhausted.
    DispatchCompleted(Option<(UsageInfo, u64)>),
}

/// What the driver must do next.
#[derive(Debug, Clone, PartialEq, Eq)]
pub enum PipelineAction {
    /// Look the caller's key up for this service.
    ResolveKey,
    /// Ask the policy engine (fail-open on unavailability).
    CheckPolicy,
    /// Ask the rate limiter.
    CheckRateLimit,
    /// Ask the quota manager.
    CheckQuota,
    /// Consult the service's circuit breaker.
    CheckBreaker,
    /// Route the request upstream with retries, reporting the outcome to
    /// the breaker.
    Dispatch,
    /// Answer the caller with a rejection. No usage record is written for a
    /// rejected request. A policy denial carries its violations: the driver
    /// emits one policy-violation analytics event per element.
    Respond { status: u16, retry_after: Option<u64>, violations: Vec<PolicyViolation> },
    /// Answer the caller with the success body, then run the best-effort
    /// stages: write exactly one usage record, add the usage to the
    /// quota, evaluate the SLA, and stream analytics. Their failures must
    /// not change the already-settled outcome.
    Complete(ConsumeResponse),
}

/// One request's trip through the pipeline. The pipeline assigns the
/// request id before dispatch and keeps count of the usage records it has
/// asked the driver to write.
#[derive(Debug, Clone, PartialEq, Eq)]
pub struct Pipeline {
    pub request_id: u128,
    pub service_id: u128,
    pub consumer_id: u128,
    pub phase: Phase,
    pub tier: Option<ServiceTier>,
    pub pricing: Option<PricingModel>,
    pub outcome: Option<PipelineOutcome>,
    pub records_requested: u32,
}

impl Pipeline {
    /// The pipeline's standing invariant. Above all: a usage record has
    /// been requested exactly once when and only when the request
    /// completed successfully — a rejected or in-flight request has none.
    pub open spec fn wf(self) -> bool {
        &&& (self.phase == Phase::Settled <==> self.outcome is Some)
        &&& self.records_requested == (
            if self.outcome matches Some(PipelineOutcome::Completed(_)) { 1int } else { 0int }
        )
        &&& (self.outcome matches Some(PipelineOutcome::Completed(resp))
            ==> resp.request_id == self.request_id)
        &&& ((self.phase == Phase::ResolvingKey || self.phase == Phase::CheckingPolicy
            || self.phase == Phase::CheckingRateLimit || self.phase == Phase::CheckingQuota
            || self.phase == Phase::CheckingBreaker || self.phase == Phase::Dispatching)
            ==> self.pricing is Some
            && !spec_cost_fails(self.pricing->Some_0)
            && (self.pricing->Some_0.rates@.len() > 0
                ==> self.pricing->Some_0.rates@[0].rate_micros <= u32::MAX as u64))
    }

    /// A fresh pipeline for one request.
    pub fn new(request_id: u128, service_id: u128, consumer_id: u128) -> (r: Self)
        ensures
            r.wf(),
            r.phase == Phase::ResolvingService,
            r.request_id == request_id,
            r.service_id == service_id,
            r.consumer_id == consumer_id,
            r.records_requested == 0,
    {
        Pipeline {
            request_id,
            service_id,
            consumer_id,
            phase: Phase::ResolvingService,
            tier: None,
            pricing: None,
            outcome: None,
            records_requested: 0,
        }
    }

    /// Whether the event answers the stage the pipeline is waiting on.
    pub open spec fn expects(self, event: PipelineEvent) -> bool {
        match event {
            PipelineEvent::ServiceResolved(_) => self.phase == Phase::ResolvingService,
            PipelineEvent::KeyResolved(_) => self.phase == Phase::ResolvingKey,
            PipelineEvent::PolicyChecked { .. } => self.phase == Phase::CheckingPolicy,
            PipelineEvent::RateLimitChecked(_) => self.phase == Phase::CheckingRateLimit,
            PipelineEvent::QuotaChecked(_) => self.phase == Phase::CheckingQuota,
            PipelineEvent::BreakerChecked(_) => self.phase == Phase::CheckingBreaker,
            PipelineEvent::DispatchCompleted(_) => self.phase == Phase::Dispatching,
        }
    }

    /// Drive the pipeline one stage forward. Rejections settle the request
    /// at the stage that refused it — an unknown service as 404, a missing
    /// or invalid key as 403, a policy denial as 403 carrying one
    /// analytics-bound event per violation, an exhausted rate limit as 429
    /// with its retry advice, an exhausted quota as 402, an open circuit
    /// breaker as 503 with 30 seconds of retry advice, a failed dispatch as
    /// 502 — and a successful dispatch settles it as completed, pricing the
    /// reported usage. Exactly the successful path requests the one usage
    /// record.
    pub fn step(&mut self, event: PipelineEvent) -> (action: PipelineAction)
        requires
            old(self).wf(),
            old(self).expects(event),
            (event matches PipelineEvent::ServiceResolved(Some(p)) ==> !spec_cost_fails(p)
                && (p.rates@.len() > 0 ==> p.rates@[0].rate_micros <= u32::MAX as u64)),
        ensures
            final(self).wf(),
            final(self).request_id == old(self).request_id,
            final(self).service_id == old(self).service_id,
            final(self).consumer_id == old(self).consumer_id,
            match event {
                PipelineEvent::ServiceResolved(found) => match found {
                    None => final(self).phase == Phase::Settled
                        && final(self).outcome == Some(PipelineOutcome::Rejected { status: 404u16, retry_after: None::<u64> })
                        && (action matches PipelineAction::Respond { status, retry_after, violations }
                            && status == 404u16 && retry_after is None && violations@.len() == 0),
                    Some(pricing) => final(self).phase == Phase::ResolvingKey
                        && final(self).pricing == Some(pricing)
                        && action == PipelineAction::ResolveKey,
                },
                PipelineEvent::KeyResolved(tier) => match tier {
                    None => final(self).phase == Phase::Settled
                        && final(self).outcome == Some(PipelineOutcome::Rejected { status: 403u16, retry_after: None::<u64> })
                        && (action matches PipelineAction::Respond { status, retry_after, violations }
                            && status == 403u16 && retry_after is None && violations@.len() == 0),
                    Some(t) => final(self).phase == Phase::CheckingPolicy
                        && final(self).tier == Some(t)
                        && action == PipelineAction::CheckPolicy,
                },
                PipelineEvent::PolicyChecked { allowed, violations: vs } => if allowed {
                    final(self).phase == Phase::CheckingRateLimit
                        && action == PipelineAction::CheckRateLimit
                } else {
                    final(self).phase == Phase::Settled
                        && final(self).outcome == Some(PipelineOutcome::Rejected { status: 403u16, retry_after: None::<u64> })
                        && (action matches PipelineAction::Respond { status, retry_after, violations }
                            && status == 403u16 && retry_after is None && violations == vs)
                },
                PipelineEvent::RateLimitChecked(status) => if status.exceeded {
                    final(self).phase == Phase::Settled
                        && final(self).outcome == Some(PipelineOutcome::Rejected {
                            status: 429u16,
                            retry_after: status.retry_after_seconds,
                        })
                        && (action matches PipelineAction::Respond { status: st, retry_after, violations }
                            && st == 429u16 && retry_after == status.retry_after_seconds
                            && violations@.len() == 0)
                } else {
                    final(self).phase == Phase::CheckingQuota
                        && action == PipelineAction::CheckQuota
                },
                PipelineEvent::QuotaChecked(status) => if status.exceeded {
                    final(self).phase == Phase::Settled
                        && final(self).outcome == Some(PipelineOutcome::Rejected { status: 402u16, retry_after: None::<u64> })
                        && (action matches PipelineAction::Respond { status: st, retry_after, violations }
                            && st == 402u16 && retry_after is None && violations@.len() == 0)
                } else {
                    final(self).phase == Phase::CheckingBreaker
                        && action == PipelineAction::CheckBreaker
                },
                PipelineEvent::BreakerChecked(admitted) => if admitted {
                    final(self).phase == Phase::Dispatching
                        && action == PipelineAction::Dispatch
                } else {
                    final(self).phase == Phase::Settled
                        && final(self).outcome == Some(PipelineOutcome::Rejected {
                            status: 503u16,
                            retry_after: Some(30u64),
                        })
                        && (action matches PipelineAction::Respond { status: st, retry_after, violations }
                            && st == 503u16 && retry_after == Some(30u64) && violations@.len() == 0)
                },
                PipelineEvent::DispatchCompleted(result) => match result {
                    None => final(self).phase == Phase::Settled
                        && final(self).outcome == Some(PipelineOutcome::Rejected { status: 502u16, retry_after: None::<u64> })
                        && final(self).records_requested == 0
                        && (action matches PipelineAction::Respond { status: st, retry_after, violations }
                            && st == 502u16 && retry_after is None && violations@.len() == 0),
                    Some((usage, latency_ms)) => final(self).phase == Phase::Settled
                        && final(self).records_requested == 1
                        && (final(self).outcome matches Some(PipelineOutcome::Completed(resp))
                            && resp.request_id == old(self).request_id
                            && resp.usage == usage
                            && resp.latency_ms == latency_ms
                            && resp.cost.amount_micros
                                == spec_cost_amount(old(self).pricing->Some_0, usage)
                            && action == PipelineAction::Complete(resp)),
                },
            },
    {
        match event {
            PipelineEvent::ServiceResolved(found) => match found {
                None => {
                    self.phase = Phase::Settled;
                    self.outcome = Some(PipelineOutcome::Rejected { status: 404, retry_after: None });
                    PipelineAction::Respond { status: 404, retry_after: None, violations: Vec::new() }
                },
                Some(pricing) => {
                    self.phase = Phase::ResolvingKey;
                    self.pricing = Some(pricing);
                    PipelineAction::ResolveKey
                },
            },
            PipelineEvent::KeyResolved(tier) => match tier {
                None => {
                    self.phase = Phase::Settled;
                    self.outcome = Some(PipelineOutcome::Rejected { status: 403, retry_after: None });
                    PipelineAction::Respond { status: 403, retry_after: None, violations: Vec::new() }
                },
                Some(t) => {
                    self.phase = Phase::CheckingPolicy;
                    self.tier = Some(t);
                    PipelineAction::CheckPolicy
                },
            },
            PipelineEvent::PolicyChecked { allowed, violations } => {
                if allowed {
                    self.phase = Phase::CheckingRateLimit;
                    PipelineAction::CheckRateLimit
                } else {
                    self.phase = Phase::Settled;
                    self.outcome = Some(PipelineOutcome::Rejected { status: 403, retry_after: None });
                    PipelineAction::Respond { status: 403, retry_after: None, violations }
                }
            },
            PipelineEvent::RateLimitChecked(status) => {
                if status.exceeded {
                    self.phase = Phase::Settled;
                    self.outcome = Some(PipelineOutcome::Rejected {
                        status: 429,
                        retry_after: status.retry_after_seconds,
                    });
                    PipelineAction::Respond {
                        status: 429,
                        retry_after: status.retry_after_seconds,
                        violations: Vec::new(),
                    }
                } else {
                    self.phase = Phase::CheckingQuota;
                    PipelineAction::CheckQuota
                }
            },
            PipelineEvent::QuotaChecked(status) => {
                if status.exceeded {
                    self.phase = Phase::Settled;
                    self.outcome = Some(PipelineOutcome::Rejected { status: 402, retry_after: None });
                    PipelineAction::Respond { status: 402, retry_after: None, violations: Vec::new() }
                } else {
                    self.phase = Phase::CheckingBreaker;
                    PipelineAction::CheckBreaker
                }
            },
            PipelineEvent::BreakerChecked(admitted) => {
                if admitted {
                    self.phase = Phase::Dispatching;
                    PipelineAction::Dispatch
                } else {
                    self.phase = Phase::Settled;
                    self.outcome = Some(PipelineOutcome::Rejected {
                        status: 503,
                        retry_after: Some(30),
                    });
                    PipelineAction::Respond {
                        status: 503,
                        retry_after: Some(30),
                        violations: Vec::new(),
                    }
                }
            },
            PipelineEvent::DispatchCompleted(result) => match result {
                None => {
                    self.phase = Phase::Settled;
                    self.outcome = Some(PipelineOutcome::Rejected { status: 502, retry_after: None });
                    PipelineAction::Respond { status: 502, retry_after: None, violations: Vec::new() }
                },
                Some((usage, latency_ms)) => {
                    let pricing = match &self.pricing {
                        Some(p) => p,
                        None => {
                            proof {
                                assert(false);
                            }
                            vstd::pervasive::unreached()
                        },
                    };
                    let cost = match compute_cost(pricing, &usage) {
                        Ok(c) => c,
                        Err(_) => {
                            proof {
                                assert(false);
                            }
                            vstd::pervasive::unreached()
                        },
                    };
                    let resp = ConsumeResponse {
                        request_id: self.request_id,
                        usage,
                        cost: CostInfo {
                            amount_micros: cost.amount_micros,
                            currency: cost.currency.clone(),
                            breakdown: cost.breakdown,
                        },
                        latency_ms,
                    };
                    self.phase = Phase::Settled;
                    self.records_requested = 1;
                    self.outcome = Some(PipelineOutcome::Completed(ConsumeResponse {
                        request_id: resp.request_id,
                        usage: resp.usage,
                        cost,
                        latency_ms: resp.latency_ms,
                    }));
                    PipelineAction::Complete(resp)
                },
            },
        }
    }
}

/// Exactly one usage record per successful request: a settled pipeline has
/// requested one usage record when it completed with a success body, and
/// none when it was rejected at any stage — and an unsettled pipeline has
/// requested none yet.
pub proof fn lemma_one_record_per_success(p: Pipeline)
    requires
        p.wf(),
    ensures
        (p.outcome matches Some(PipelineOutcome::Completed(resp))
            ==> p.records_requested == 1 && resp.request_id == p.request_id),
        (p.outcome matches Some(PipelineOutcome::Rejected { .. }) ==> p.records_requested == 0),
        p.outcome is None ==> p.records_requested == 0,
{
}

} // verus!
