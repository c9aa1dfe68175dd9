use vstd::prelude::*;

verus! {

/// Capacity class of an API key. Every per-consumer limit (sustained rate,
/// burst size, monthly token budget) is derived from the tier alone.
#[derive(Debug, Clone, Copy, PartialEq, Eq, Structural)]
pub enum ServiceTier {
    Basic,
    Premium,
    Enterprise,
}

impl ServiceTier {
    /// Sustained requests per second allowed for this tier.
    pub open spec fn spec_rate_limit(self) -> u64 {
        match self {
            ServiceTier::Basic => 10,
            ServiceTier::Premium => 100,
            ServiceTier::Enterprise => 1000,
        }
    }

    /// Maximum number of tokens a rate-limit bucket of this tier may hold.
    pub open spec fn spec_burst_capacity(self) -> u32 {
        match self {
            ServiceTier::Basic => 20,
            ServiceTier::Premium => 200,
            ServiceTier::Enterprise => 2000,
        }
    }

    /// Monthly token budget for this tier.
    pub open spec fn spec_quota_limit(self) -> i64 {
        match self {
            ServiceTier::Basic => 100_000,
            ServiceTier::Premium => 10_000_000,
            ServiceTier::Enterprise => 1_000_000_000,
        }
    }

    /// Sustained requests per second allowed for this tier.
    pub fn rate_limit(&self) -> (r: u64)
        ensures
            r == self.spec_rate_limit(),
    {
        match self {
            ServiceTier::Basic => 10,
            ServiceTier::Premium => 100,
            ServiceTier::Enterprise => 1000,
        }
    }

    /// Maximum number of tokens a rate-limit bucket of this tier may hold.
    pub fn burst_capacity(&self) -> (r: u32)
        ensures
            r == self.spec_burst_capacity(),
    {
        match self {
            ServiceTier::Basic => 20,
            ServiceTier::Premium => 200,
            ServiceTier::Enterprise => 2000,
        }
    }

    /// Monthly token budget for this tier.
    pub fn quota_limit(&self) -> (r: i64)
        ensures
            r == self.spec_quota_limit(),
    {
        match self {
            ServiceTier::Basic => 100_000,
            ServiceTier::Premium => 10_000_000,
            ServiceTier::Enterprise => 1_000_000_000,
        }
    }
}

} // verus!
