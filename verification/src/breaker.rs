use vstd::prelude::*;

verus! {

/// State of a per-service circuit breaker.
#[derive(Debug, Clone, Copy, PartialEq, Eq, Structural)]
pub enum CircuitState {
    /// Requests flow normally.
    Closed,
    /// Requests are rejected immediately.
    Open,
    /// Probe requests are allowed to test whether the upstream recovered.
    HalfOpen,
}

/// Thresholds and timers of a circuit breaker.
#[derive(Debug, Clone, Copy, PartialEq, Eq, Structural)]
pub struct CircuitBreakerConfig {
    /// Consecutive failures in `Closed` before the breaker opens.
    pub failure_threshold: u32,
    /// Milliseconds after the last failure before an open breaker admits a probe.
    pub reset_timeout_ms: u64,
    /// Consecutive successes in `HalfOpen` before the breaker closes.
    pub success_threshold: u32,
}

impl Default for CircuitBreakerConfig {
    /// The stock configuration: open after 5 failures, probe after 30 s,
    /// close after 3 successes.
    fn default() -> (r: Self)
        ensures
            r == (CircuitBreakerConfig { failure_threshold: 5u32, reset_timeout_ms: 30000u64, success_threshold: 3u32 }),
    {
        CircuitBreakerConfig { failure_threshold: 5, reset_timeout_ms: 30000, success_threshold: 3 }
    }
}

/// A circuit breaker protecting one upstream: a state machine over
/// consecutive failure and success counts. Times are epoch milliseconds
/// supplied by the caller.
#[derive(Debug, Clone, PartialEq, Eq)]
pub struct CircuitBreaker {
    pub name: String,
    pub config: CircuitBreakerConfig,
    pub state: CircuitState,
    pub failures: u32,
    pub successes: u32,
    pub last_failure_time: u64,
}

/// The breaker after one recorded failure at time `now_ms`: a failure in
/// `HalfOpen` reopens the breaker at once; otherwise the consecutive-failure
/// count rises (staying at its maximum once there) and the breaker opens
/// when the count reaches the threshold.
pub open spec fn spec_record_failure(cb: CircuitBreaker, now_ms: u64) -> CircuitBreaker {
    if cb.state == CircuitState::HalfOpen {
        CircuitBreaker { state: CircuitState::Open, last_failure_time: now_ms, ..cb }
    } else {
        let f = if cb.failures < u32::MAX { (cb.failures + 1) as u32 } else { u32::MAX };
        let st = if f >= cb.config.failure_threshold { CircuitState::Open } else { cb.state };
        CircuitBreaker { state: st, failures: f, last_failure_time: now_ms, ..cb }
    }
}

/// The breaker after one recorded success: the failure count resets; in
/// `HalfOpen` the consecutive-success count rises and the breaker closes
/// when it reaches the threshold.
pub open spec fn spec_record_success(cb: CircuitBreaker) -> CircuitBreaker {
    if cb.state == CircuitState::HalfOpen {
        let s = if cb.successes < u32::MAX { (cb.successes + 1) as u32 } else { u32::MAX };
        if s >= cb.config.success_threshold {
            CircuitBreaker { state: CircuitState::Closed, failures: 0, successes: s, ..cb }
        } else {
            CircuitBreaker { failures: 0, successes: s, ..cb }
        }
    } else {
        CircuitBreaker { failures: 0, ..cb }
    }
}

impl CircuitBreaker {
    /// A fresh breaker: closed, with no recorded failures or successes.
    pub fn new(name: String, config: CircuitBreakerConfig) -> (r: Self)
        ensures
            r.name == name,
            r.config == config,
            r.state == CircuitState::Closed,
            r.failures == 0,
            r.successes == 0,
            r.last_failure_time == 0,
    {
        CircuitBreaker {
            name,
            config,
            state: CircuitState::Closed,
            failures: 0,
            successes: 0,
            last_failure_time: 0,
        }
    }

    /// Current state.
    pub fn state(&self) -> (r: CircuitState)
        ensures
            r == self.state,
    {
        self.state
    }

    /// Whether a request may pass at time `now_ms`. A closed or half-open
    /// breaker admits it. An open breaker admits it only once
    /// `reset_timeout_ms` elapsed since the last failure, moving to
    /// `HalfOpen` with a fresh success count; otherwise it rejects it
    /// unchanged.
    pub fn allow_request(&mut self, now_ms: u64) -> (r: bool)
        ensures
            old(self).state == CircuitState::Closed ==> r && *final(self) == *old(self),
            old(self).state == CircuitState::HalfOpen ==> r && *final(self) == *old(self),
            old(self).state == CircuitState::Open ==> {
                if now_ms >= old(self).last_failure_time
                    && now_ms - old(self).last_failure_time >= old(self).config.reset_timeout_ms {
                    r && *final(self) == (CircuitBreaker {
                        state: CircuitState::HalfOpen,
                        successes: 0u32,
                        ..*old(self)
                    })
                } else {
                    !r && *final(self) == *old(self)
                }
            },
    {
        match self.state {
            CircuitState::Closed => true,
            CircuitState::HalfOpen => true,
            CircuitState::Open => {
                if now_ms >= self.last_failure_time
                    && now_ms - self.last_failure_time >= self.config.reset_timeout_ms {
                    self.state = CircuitState::HalfOpen;
                    self.successes = 0;
                    true
                } else {
                    false
                }
            },
        }
    }

    /// Record a successful call.
    pub fn record_success(&mut self)
        ensures
            *final(self) == spec_record_success(*old(self)),
    {
        self.failures = 0;
        if self.state == CircuitState::HalfOpen {
            let s: u32 = if self.successes < u32::MAX { self.successes + 1 } else { u32::MAX };
            self.successes = s;
            if s >= self.config.success_threshold {
                self.state = CircuitState::Closed;
            }
        }
    }

    /// Record a failed call at time `now_ms`.
    pub fn record_failure(&mut self, now_ms: u64)
        ensures
            *final(self) == spec_record_failure(*old(self), now_ms),
    {
        self.last_failure_time = now_ms;
        if self.state == CircuitState::HalfOpen {
            self.state = CircuitState::Open;
        } else {
            let f: u32 = if self.failures < u32::MAX { self.failures + 1 } else { u32::MAX };
            self.failures = f;
            if f >= self.config.failure_threshold {
                self.state = CircuitState::Open;
            }
        }
    }

    /// Force the breaker back to its initial closed state.
    pub fn reset(&mut self)
        ensures
            *final(self) == (CircuitBreaker {
                state: CircuitState::Closed,
                failures: 0u32,
                successes: 0u32,
                ..*old(self)
            }),
    {
        self.state = CircuitState::Closed;
        self.failures = 0;
        self.successes = 0;
    }
}

/// The breaker after `n` consecutive recorded failures, all at time `now_ms`.
pub open spec fn spec_failures_n(cb: CircuitBreaker, n: nat, now_ms: u64) -> CircuitBreaker
    decreases n,
{
    if n == 0 {
        cb
    } else {
        spec_failures_n(spec_record_failure(cb, now_ms), (n - 1) as nat, now_ms)
    }
}

/// The breaker after `n` consecutive recorded successes.
pub open spec fn spec_successes_n(cb: CircuitBreaker, n: nat) -> CircuitBreaker
    decreases n,
{
    if n == 0 {
        cb
    } else {
        spec_successes_n(spec_record_success(cb), (n - 1) as nat)
    }
}

proof fn lemma_failures_accumulate(cb: CircuitBreaker, n: nat, now_ms: u64)
    requires
        cb.state != CircuitState::HalfOpen,
    ensures
        ({
            let after = spec_failures_n(cb, n, now_ms);
            let total = if cb.failures + n <= u32::MAX { cb.failures + n } else { u32::MAX as int };
            &&& after.failures == total
            &&& after.config == cb.config
            &&& after.state == if n > 0 && total >= cb.config.failure_threshold {
                    CircuitState::Open
                } else {
                    cb.state
                }
        }),
    decreases n,
{
    if n > 0 {
        let cb1 = spec_record_failure(cb, now_ms);
        lemma_failures_accumulate(cb1, (n - 1) as nat, now_ms);
    }
}

/// Opening on consecutive failures: a breaker that is not half-open and
/// records enough consecutive failures to bring its count to the failure
/// threshold ends up `Open`.
pub proof fn lemma_breaker_opens_on_failures(cb: CircuitBreaker, n: nat, now_ms: u64)
    requires
        cb.state == CircuitState::Closed,
        n >= 1,
        cb.failures + n >= cb.config.failure_threshold,
    ensures
        spec_failures_n(cb, n, now_ms).state == CircuitState::Open,
{
    lemma_failures_accumulate(cb, n, now_ms);
}

/// Reopening from half-open: any single failure recorded while half-open
/// returns the breaker to `Open` and stamps the failure time.
pub proof fn lemma_breaker_halfopen_failure_reopens(cb: CircuitBreaker, now_ms: u64)
    requires
        cb.state == CircuitState::HalfOpen,
    ensures
        spec_record_failure(cb, now_ms).state == CircuitState::Open,
        spec_record_failure(cb, now_ms).last_failure_time == now_ms,
{
}

proof fn lemma_successes_accumulate(cb: CircuitBreaker, n: nat)
    requires
        cb.state == CircuitState::HalfOpen,
        cb.config.success_threshold >= 1,
    ensures
        ({
            let after = spec_successes_n(cb, n);
            let total = if cb.successes + n <= u32::MAX { cb.successes + n } else { u32::MAX as int };
            &&& after.config == cb.config
            &&& after.state == if n > 0 && total >= cb.config.success_threshold {
                    CircuitState::Closed
                } else {
                    CircuitState::HalfOpen
                }
        }),
    decreases n,
{
    if n > 0 {
        let cb1 = spec_record_success(cb);
        if cb1.state == CircuitState::HalfOpen {
            lemma_successes_accumulate(cb1, (n - 1) as nat);
        } else {
            lemma_closed_successes_stay_closed(cb1, (n - 1) as nat);
        }
    }
}

proof fn lemma_closed_successes_stay_closed(cb: CircuitBreaker, n: nat)
    requires
        cb.state == CircuitState::Closed,
    ensures
        spec_successes_n(cb, n).state == CircuitState::Closed,
        spec_successes_n(cb, n).config == cb.config,
    decreases n,
{
    if n > 0 {
        lemma_closed_successes_stay_closed(spec_record_success(cb), (n - 1) as nat);
    }
}

/// Closing from half-open: a half-open breaker that records enough
/// consecutive successes to bring its count to the success threshold ends
/// up `Closed`.
pub proof fn lemma_breaker_closes_on_successes(cb: CircuitBreaker, n: nat)
    requires
        cb.state == CircuitState::HalfOpen,
        cb.config.success_threshold >= 1,
        n >= 1,
        cb.successes + n >= cb.config.success_threshold,
    ensures
        spec_successes_n(cb, n).state == CircuitState::Closed,
{
    lemma_successes_accumulate(cb, n);
}

} // verus!
