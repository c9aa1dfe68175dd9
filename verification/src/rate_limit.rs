use vstd::prelude::*;

use crate::tier::ServiceTier;

verus! {

/// One token bucket: the refillable token count and the epoch second at
/// which it was last re-evaluated. All times are the cache server's clock,
/// at second granularity.
#[derive(Debug, Clone, Copy, PartialEq, Eq, Structural)]
pub struct TokenBucket {
    pub tokens: u64,
    pub last_update: u64,
}

/// Outcome of a rate-limit check.
#[derive(Debug, Clone, PartialEq, Eq, Structural)]
pub struct RateLimitStatus {
    pub exceeded: bool,
    pub retry_after_seconds: Option<u64>,
    pub limit: u64,
    pub remaining: u32,
    pub reset_at: u64,
}

/// Token count of a bucket after refilling at time `now`: the elapsed
/// seconds times the refill rate are added, clamped to the capacity.
/// A clock that moved backwards contributes nothing.
pub open spec fn spec_refill(tokens: u64, last_update: u64, now: u64, cap: u64, rate: u64) -> int {
    let delta = if now >= last_update { now - last_update } else { 0 };
    let filled = tokens + delta * rate;
    if filled >= cap { cap as int } else { filled }
}

/// One evaluation of a bucket at time `now`, asking for one token:
/// the refilled bucket loses one token when at least one is available.
/// Returns the stored bucket and whether the request was allowed.
pub open spec fn spec_bucket_step(b: TokenBucket, now: u64, cap: u64, rate: u64) -> (TokenBucket, bool) {
    let refilled = spec_refill(b.tokens, b.last_update, now, cap, rate);
    if refilled >= 1 {
        (TokenBucket { tokens: (refilled - 1) as u64, last_update: now }, true)
    } else {
        (TokenBucket { tokens: refilled as u64, last_update: now }, false)
    }
}

/// The bucket a missing cache entry stands for: full, re-evaluated now.
pub open spec fn spec_fresh_bucket(now: u64, cap: u64) -> TokenBucket {
    TokenBucket { tokens: cap, last_update: now }
}

impl TokenBucket {
    /// A bucket as recreated on a cache miss: at full capacity.
    pub fn new(now: u64, tier: &ServiceTier) -> (b: TokenBucket)
        ensures
            b == spec_fresh_bucket(now, tier.spec_burst_capacity() as u64),
    {
        TokenBucket { tokens: tier.burst_capacity() as u64, last_update: now }
    }
}

/// Evaluate the token bucket for one request at time `now` and consume one
/// token when allowed. `bucket` is the cached state, `None` on a cache miss
/// (the bucket is then initialized at full capacity). Returns the state to
/// store back and the caller-visible status.
///
/// Exactly the atomic load-modify-store the shared cache performs; callers
/// must execute it under the cache's single critical section per key.
pub fn check_rate_limit(bucket: Option<TokenBucket>, now: u64, tier: &ServiceTier) -> (r: (TokenBucket, RateLimitStatus))
    requires
        now <= u64::MAX - 60,
    ensures
        ({
            let cap = tier.spec_burst_capacity() as u64;
            let rate = tier.spec_rate_limit();
            let before = if bucket is Some { bucket->Some_0 } else { spec_fresh_bucket(now, cap) };
            let (stored, allowed) = spec_bucket_step(before, now, cap, rate);
            &&& r.0 == stored
            &&& r.0.last_update == now
            &&& r.0.tokens <= cap
            &&& r.1.exceeded == !allowed
            &&& allowed ==> r.1.remaining == r.0.tokens && r.1.retry_after_seconds is None
            &&& !allowed ==> r.1.remaining == 0 && r.1.retry_after_seconds == Some(1u64)
            &&& r.1.limit == rate
            &&& r.1.reset_at == now + 60
        }),
{
    let cap: u64 = tier.burst_capacity() as u64;
    let rate: u64 = tier.rate_limit();
    let (tokens, last_update): (u64, u64) = match bucket {
        Some(b) => (b.tokens, b.last_update),
        None => (cap, now),
    };

    let delta: u64 = if now >= last_update { now - last_update } else { 0 };
    let refilled: u64 = match delta.checked_mul(rate) {
        Some(add) => {
            match tokens.checked_add(add) {
                Some(filled) => if filled >= cap { cap } else { filled },
                None => cap,
            }
        },
        None => {
            proof {
                assert(delta * rate > u64::MAX);
                assert(tokens + delta * rate >= cap);
            }
            cap
        },
    };

    if refilled >= 1 {
        let stored = TokenBucket { tokens: refilled - 1, last_update: now };
        let status = RateLimitStatus {
            exceeded: false,
            retry_after_seconds: None,
            limit: rate,
            remaining: (refilled - 1) as u32,
            reset_at: now + 60,
        };
        proof {
            assert(refilled - 1 <= tier.spec_burst_capacity() - 1);
        }
        (stored, status)
    } else {
        let stored = TokenBucket { tokens: refilled, last_update: now };
        let status = RateLimitStatus {
            exceeded: true,
            retry_after_seconds: Some(1),
            limit: rate,
            remaining: 0,
            reset_at: now + 60,
        };
        (stored, status)
    }
}

/// Read-only view of a bucket, consuming nothing: `tokens` is the cached
/// count (full capacity when the entry is missing).
pub fn get_status(tokens: Option<u64>, now: u64, tier: &ServiceTier) -> (r: RateLimitStatus)
    requires
        now <= u64::MAX - 60,
    ensures
        ({
            let t = if tokens is Some { tokens->Some_0 } else { tier.spec_burst_capacity() as u64 };
            &&& r.exceeded == (t < 1)
            &&& r.retry_after_seconds is None
            &&& r.limit == tier.spec_rate_limit()
            &&& r.remaining == if t <= u32::MAX { t as u32 } else { u32::MAX }
            &&& r.reset_at == now + 60
        }),
{
    let t: u64 = match tokens {
        Some(v) => v,
        None => tier.burst_capacity() as u64,
    };
    let remaining: u32 = if t <= u32::MAX as u64 { t as u32 } else { u32::MAX };
    RateLimitStatus {
        exceeded: t < 1,
        retry_after_seconds: None,
        limit: tier.rate_limit(),
        remaining,
        reset_at: now + 60,
    }
}

/// Final bucket and number of allowed requests after evaluating the bucket
/// once per time in `times`, in order, asking for one token each.
pub open spec fn spec_run(b: TokenBucket, times: Seq<u64>, cap: u64, rate: u64) -> (TokenBucket, nat)
    decreases times.len(),
{
    if times.len() == 0 {
        (b, 0nat)
    } else {
        let (b1, allowed) = spec_bucket_step(b, times[0], cap, rate);
        let (bn, count) = spec_run(b1, times.skip(1), cap, rate);
        (bn, count + if allowed { 1nat } else { 0nat })
    }
}

/// A bucket refilled at its own `last_update` gains nothing: zero elapsed
/// time contributes zero tokens, so the count is only clamped to capacity.
pub proof fn lemma_refill_at_last_update(b: TokenBucket, cap: u64, rate: u64)
    ensures
        b.tokens <= cap ==> spec_refill(b.tokens, b.last_update, b.last_update, cap, rate) == b.tokens,
        spec_refill(b.tokens, b.last_update, b.last_update, cap, rate)
            == if b.tokens >= cap { cap as int } else { b.tokens as int },
{
}

proof fn lemma_run_conservation(b: TokenBucket, times: Seq<u64>, cap: u64, rate: u64)
    requires
        b.tokens <= cap,
        forall|i: int| 0 <= i < times.len() ==> b.last_update <= #[trigger] times[i],
        forall|i: int, j: int| 0 <= i <= j < times.len() ==> #[trigger] times[i] <= #[trigger] times[j],
    ensures
        ({
            let (bn, count) = spec_run(b, times, cap, rate);
            let last = if times.len() == 0 { b.last_update } else { times[times.len() - 1] };
            &&& bn.tokens <= cap
            &&& bn.last_update == last
            &&& count + bn.tokens <= b.tokens + rate * (last - b.last_update)
        }),
    decreases times.len(),
{
    if times.len() > 0 {
        let t0 = times[0];
        let (b1, allowed) = spec_bucket_step(b, t0, cap, rate);
        let refilled = spec_refill(b.tokens, b.last_update, t0, cap, rate);
        assert(refilled <= b.tokens + (t0 - b.last_update) * rate);
        assert(b1.tokens + if allowed { 1int } else { 0int } == refilled);
        let rest = times.skip(1);
        assert(forall|i: int| 0 <= i < rest.len() ==> b1.last_update <= #[trigger] rest[i]);
        assert(forall|i: int, j: int| 0 <= i <= j < rest.len()
            ==> #[trigger] rest[i] <= #[trigger] rest[j]);
        lemma_run_conservation(b1, rest, cap, rate);
        let (bn, count_rest) = spec_run(b1, rest, cap, rate);
        let last = if rest.len() == 0 { b1.last_update } else { rest[rest.len() - 1] };
        assert(times[times.len() - 1] == last);
        assert(count_rest + bn.tokens <= b1.tokens + rate * (last - t0));
        assert((t0 - b.last_update) * rate + rate * (last - t0) == rate * (last - b.last_update))
            by (nonlinear_arith);
    }
}

/// Token-bucket conservation: starting from a full bucket, any sequence of
/// `N` accepted one-token requests whose timestamps all lie in a window of
/// `T` seconds satisfies `N <= burst_capacity + rate * T + 1`.
pub proof fn lemma_token_bucket_conservation(times: Seq<u64>, cap: u64, rate: u64, t0: u64, window: u64)
    requires
        times.len() > 0,
        times[0] == t0,
        forall|i: int| 0 <= i < times.len() ==> t0 <= #[trigger] times[i] <= t0 + window,
        forall|i: int, j: int| 0 <= i <= j < times.len() ==> #[trigger] times[i] <= #[trigger] times[j],
    ensures
        spec_run(spec_fresh_bucket(t0, cap), times, cap, rate).1 <= cap + rate * window + 1,
{
    let b = spec_fresh_bucket(t0, cap);
    lemma_run_conservation(b, times, cap, rate);
    let (bn, count) = spec_run(b, times, cap, rate);
    let last = times[times.len() - 1];
    assert(count <= cap + rate * (last - t0));
    assert(rate * (last - t0) <= rate * window) by (nonlinear_arith)
        requires last - t0 <= window, rate >= 0;
}

} // verus!
