use vstd::prelude::*;

verus! {

/// Token counts reported (or estimated) for one upstream call.
#[derive(Debug, Clone, Copy, PartialEq, Eq, Structural)]
pub struct UsageInfo {
    pub prompt_tokens: u32,
    pub completion_tokens: u32,
    pub total_tokens: u32,
}

/// The pricing formula a service is billed under.
#[derive(Debug, Clone, Copy, PartialEq, Eq, Structural)]
pub enum PricingModelKind {
    /// Bill `total_tokens` times the first rate.
    PerToken,
    /// Bill the first rate once per request.
    PerRequest,
    /// Pre-paid; no per-request cost.
    Subscription,
    /// Anything else: bill nothing and mark the breakdown.
    Unknown,
}

/// One pricing rate. Monetary amounts are fixed-point: millionths of one
/// currency unit (one micro-USD), so `100` stands for 0.0001 USD.
#[derive(Debug, Clone, PartialEq, Eq)]
pub struct PricingRate {
    pub tier: String,
    pub rate_micros: u64,
    pub unit: String,
}

/// Pricing model of a service: the formula and its ordered rates.
#[derive(Debug, Clone, PartialEq, Eq)]
pub struct PricingModel {
    pub model: PricingModelKind,
    pub rates: Vec<PricingRate>,
}

/// Structured record of how an amount was computed; reconstructable from
/// the usage record alone.
#[derive(Debug, Clone, Copy, PartialEq, Eq, Structural)]
pub enum CostBreakdown {
    PerToken {
        prompt_tokens: u32,
        completion_tokens: u32,
        total_tokens: u32,
        rate_micros_per_token: u64,
    },
    PerRequest {
        requests: u32,
        rate_micros_per_request: u64,
    },
    Subscription,
    UnknownModel,
}

/// A computed cost: amount in millionths of the currency unit.
#[derive(Debug, Clone, PartialEq, Eq)]
pub struct CostInfo {
    pub amount_micros: u64,
    pub currency: String,
    pub breakdown: CostBreakdown,
}

/// Failure of a cost computation.
#[derive(Debug, Clone, Copy, PartialEq, Eq, Structural)]
pub enum CostError {
    /// The pricing model carries no rate although its formula needs one.
    MissingRate,
}

/// The amount in micro-units that `pricing` bills for `usage`.
pub open spec fn spec_cost_amount(pricing: PricingModel, usage: UsageInfo) -> int {
    match pricing.model {
        PricingModelKind::PerToken => usage.total_tokens * pricing.rates[0].rate_micros,
        PricingModelKind::PerRequest => pricing.rates[0].rate_micros as int,
        PricingModelKind::Subscription => 0,
        PricingModelKind::Unknown => 0,
    }
}

/// The breakdown that `pricing` yields for `usage`.
pub open spec fn spec_cost_breakdown(pricing: PricingModel, usage: UsageInfo) -> CostBreakdown {
    match pricing.model {
        PricingModelKind::PerToken => CostBreakdown::PerToken {
            prompt_tokens: usage.prompt_tokens,
            completion_tokens: usage.completion_tokens,
            total_tokens: usage.total_tokens,
            rate_micros_per_token: pricing.rates[0].rate_micros,
        },
        PricingModelKind::PerRequest => CostBreakdown::PerRequest {
            requests: 1u32,
            rate_micros_per_request: pricing.rates[0].rate_micros,
        },
        PricingModelKind::Subscription => CostBreakdown::Subscription,
        PricingModelKind::Unknown => CostBreakdown::UnknownModel,
    }
}

/// Whether the cost computation fails: a rate is needed but none is given.
pub open spec fn spec_cost_fails(pricing: PricingModel) -> bool {
    (pricing.model == PricingModelKind::PerToken || pricing.model == PricingModelKind::PerRequest)
        && pricing.rates.len() == 0
}

/// Compute the cost of `usage` under `pricing`.
///
/// Per-token pricing bills `total_tokens` times the first rate; per-request
/// pricing bills the first rate once; subscriptions and unknown models bill
/// nothing, the latter marked in the breakdown. Fails exactly when a needed
/// rate is missing. Currency is USD. The result depends on the two
/// arguments alone.
pub fn compute_cost(pricing: &PricingModel, usage: &UsageInfo) -> (r: Result<CostInfo, CostError>)
    requires
        pricing.rates.len() > 0 ==> pricing.rates[0].rate_micros <= u32::MAX as u64,
    ensures
        r is Err <==> spec_cost_fails(*pricing),
        r matches Ok(cost) ==> {
            &&& cost.amount_micros == spec_cost_amount(*pricing, *usage)
            &&& cost.breakdown == spec_cost_breakdown(*pricing, *usage)
            &&& cost.currency@ == "USD"@
        },
        r matches Err(e) ==> e == CostError::MissingRate,
{
    match pricing.model {
        PricingModelKind::PerToken => {
            if pricing.rates.len() == 0 {
                return Err(CostError::MissingRate);
            }
            let rate: u64 = pricing.rates[0].rate_micros;
            proof {
                assert(usage.total_tokens * rate <= u32::MAX as int * u32::MAX as int)
                    by (nonlinear_arith)
                    requires usage.total_tokens <= u32::MAX, rate <= u32::MAX;
            }
            let amount: u64 = (usage.total_tokens as u64) * rate;
            Ok(CostInfo {
                amount_micros: amount,
                currency: String::from_str("USD"),
                breakdown: CostBreakdown::PerToken {
                    prompt_tokens: usage.prompt_tokens,
                    completion_tokens: usage.completion_tokens,
                    total_tokens: usage.total_tokens,
                    rate_micros_per_token: rate,
                },
            })
        },
        PricingModelKind::PerRequest => {
            if pricing.rates.len() == 0 {
                return Err(CostError::MissingRate);
            }
            let rate: u64 = pricing.rates[0].rate_micros;
            Ok(CostInfo {
                amount_micros: rate,
                currency: String::from_str("USD"),
                breakdown: CostBreakdown::PerRequest { requests: 1, rate_micros_per_request: rate },
            })
        },
        PricingModelKind::Subscription => Ok(CostInfo {
            amount_micros: 0,
            currency: String::from_str("USD"),
            breakdown: CostBreakdown::Subscription,
        }),
        PricingModelKind::Unknown => Ok(CostInfo {
            amount_micros: 0,
            currency: String::from_str("USD"),
            breakdown: CostBreakdown::UnknownModel,
        }),
    }
}

/// Cost determinism: the billed amount and breakdown are functions of the
/// pricing model and the usage alone, so computing the cost of equal inputs
/// gives equal results.
pub proof fn lemma_cost_deterministic(p1: PricingModel, u1: UsageInfo, p2: PricingModel, u2: UsageInfo)
    requires
        p1 == p2,
        u1 == u2,
    ensures
        spec_cost_amount(p1, u1) == spec_cost_amount(p2, u2),
        spec_cost_breakdown(p1, u1) == spec_cost_breakdown(p2, u2),
        spec_cost_fails(p1) == spec_cost_fails(p2),
{
}

} // verus!
