use vstd::prelude::*;

verus! {

/// Kinds of content filters the shield applies.
#[derive(Debug, Clone, Copy, PartialEq, Eq, Structural)]
pub enum FilterType {
    ContentModeration,
    PiiDetection,
    MalwareDetection,
    PromptInjection,
    JailbreakDetection,
    ToxicityFilter,
    BiasDetection,
    CustomRegex,
}

/// Actions taken when a filter matches.
#[derive(Debug, Clone, Copy, PartialEq, Eq, Structural)]
pub enum FilterAction {
    Block,
    Warn,
    Redact,
    Log,
    Allow,
}

/// Severity levels for safety rules.
#[derive(Debug, Clone, Copy, PartialEq, Eq, Structural)]
pub enum Severity {
    Critical,
    High,
    Medium,
    Low,
    Info,
}

/// Categories of safety rules.
#[derive(Debug, Clone, Copy, PartialEq, Eq, Structural)]
pub enum SafetyCategory {
    ContentSafety,
    DataProtection,
    AccessControl,
    RateLimiting,
    AuditLogging,
    Compliance,
}

/// Enforcement modes for safety rules.
#[derive(Debug, Clone, Copy, PartialEq, Eq, Structural)]
pub enum EnforcementMode {
    Enforce,
    Audit,
    Disabled,
}

/// Kinds of content a scan can be asked about.
#[derive(Debug, Clone, Copy, PartialEq, Eq, Structural)]
pub enum ContentType {
    Prompt,
    Response,
    Document,
    Code,
}

/// One content filter.
#[derive(Debug, Clone, PartialEq, Eq)]
pub struct Filter {
    pub filter_id: String,
    pub filter_type: FilterType,
    pub name: String,
    pub pattern: Option<String>,
    pub action: FilterAction,
    pub severity: Severity,
    pub enabled: bool,
}

/// Aggregated threats of one category.
#[derive(Debug, Clone, PartialEq, Eq)]
pub struct ThreatCategory {
    pub category: String,
    pub count: u32,
    pub severity: Severity,
}

/// One filter that matched during a scan.
#[derive(Debug, Clone, PartialEq, Eq)]
pub struct FilterMatch {
    pub filter_id: String,
    pub filter_type: FilterType,
    pub severity: Severity,
    pub matched_content: Option<String>,
    pub message: String,
}

/// Outcome of a real-time content scan. `risk_score_ppm` is the risk in
/// parts per million of certainty.
#[derive(Debug, Clone, PartialEq, Eq)]
pub struct ContentScanResponse {
    pub allowed: bool,
    pub action: FilterAction,
    pub matches: Vec<FilterMatch>,
    pub risk_score_ppm: u32,
    pub processing_time_ms: u64,
}

/// The scan verdict used when the shield is unreachable: fail-open. The
/// content is allowed with no matches and zero risk, so that shield
/// unavailability never blocks traffic.
pub fn scan_fail_open(processing_time_ms: u64) -> (r: ContentScanResponse)
    ensures
        r.allowed,
        r.action == FilterAction::Allow,
        r.matches@.len() == 0,
        r.risk_score_ppm == 0,
        r.processing_time_ms == processing_time_ms,
{
    ContentScanResponse {
        allowed: true,
        action: FilterAction::Allow,
        matches: Vec::new(),
        risk_score_ppm: 0,
        processing_time_ms,
    }
}

/// Whether a service is protected at all: it has at least one filter pack.
pub fn is_protected(filter_pack_count: usize) -> (r: bool)
    ensures
        r == (filter_pack_count > 0),
{
    filter_pack_count > 0
}

} // verus!
