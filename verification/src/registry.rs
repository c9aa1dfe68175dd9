use vstd::prelude::*;

verus! {

/// Registration status of a model in the registry.
#[derive(Debug, Clone, Copy, PartialEq, Eq, Structural)]
pub enum ModelStatus {
    Active,
    Deprecated,
    Experimental,
    Retired,
}

/// Version information for a registered model.
#[derive(Debug, Clone, PartialEq, Eq)]
pub struct ModelVersion {
    pub version: String,
    pub release_date: String,
    pub changelog: Option<String>,
    pub breaking_changes: bool,
    pub minimum_sdk_version: Option<String>,
    pub deprecated: bool,
    pub deprecation_date: Option<String>,
}

/// Kinds of exchangeable assets a model publishes.
#[derive(Debug, Clone, Copy, PartialEq, Eq, Structural)]
pub enum AssetType {
    ModelWeights,
    Adapter,
    Tokenizer,
    Config,
    Embedding,
    FineTune,
    Plugin,
}

/// Verification standing of a registered service.
#[derive(Debug, Clone, Copy, PartialEq, Eq, Structural)]
pub enum VerificationStatus {
    Verified,
    Pending,
    Failed,
    Expired,
}

/// Rate limits the registry advertises for a service.
#[derive(Debug, Clone, Copy, PartialEq, Eq, Structural)]
pub struct RateLimitConfig {
    pub requests_per_second: u32,
    pub burst_size: u32,
    pub tokens_per_minute: u64,
}

/// Registry entry of a service.
#[derive(Debug, Clone, PartialEq, Eq)]
pub struct ServiceRegistryInfo {
    pub service_id: u128,
    pub model_id: String,
    pub model_version: String,
    pub registered_at: String,
    pub last_verified: String,
    pub verification_status: VerificationStatus,
    pub capabilities: Vec<String>,
    pub rate_limits: RateLimitConfig,
}

/// How a read against an upstream directory ended, by HTTP status: found
/// on 2xx, absent on 404, failed on anything else.
#[derive(Debug, Clone, Copy, PartialEq, Eq, Structural)]
pub enum LookupDisposition {
    Found,
    Missing,
    Failed,
}

/// Classify the HTTP status of a registry read: 2xx carries data, 404
/// means the entry does not exist, everything else is an error.
pub fn classify_lookup_status(status: u16) -> (r: LookupDisposition)
    ensures
        r == LookupDisposition::Found <==> 200 <= status < 300,
        r == LookupDisposition::Missing <==> status == 404,
        r == LookupDisposition::Failed <==> !(200 <= status < 300) && status != 404,
{
    if 200 <= status && status < 300 {
        LookupDisposition::Found
    } else if status == 404 {
        LookupDisposition::Missing
    } else {
        LookupDisposition::Failed
    }
}

/// Whether a model is usable: its metadata was found and reports it
/// active. An absent model is not valid.
pub fn validate_model(status: Option<ModelStatus>) -> (r: bool)
    ensures
        r == (status == Some(ModelStatus::Active)),
{
    match status {
        Some(ModelStatus::Active) => true,
        _ => false,
    }
}

} // verus!
