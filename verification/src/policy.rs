use vstd::prelude::*;

verus! {

/// One policy violation reported by the policy engine.
#[derive(Debug, Clone, PartialEq, Eq)]
pub struct PolicyViolation {
    pub policy_id: String,
    pub policy_name: String,
    pub severity: String,
    pub message: String,
}

/// The policy engine's verdict on a consumption request. `failover` marks
/// a verdict fabricated locally because the engine was unreachable.
#[derive(Debug, Clone, PartialEq, Eq)]
pub struct PolicyValidationResponse {
    pub allowed: bool,
    pub reason: Option<String>,
    pub violations: Vec<PolicyViolation>,
    pub failover: bool,
}

/// One synchronized policy.
#[derive(Debug, Clone, PartialEq, Eq)]
pub struct Policy {
    pub id: String,
    pub name: String,
    pub description: String,
    pub enabled: bool,
    pub severity: String,
}

/// Kinds of policies the engine enforces.
#[derive(Debug, Clone, Copy, PartialEq, Eq, Structural)]
pub enum PolicyType {
    AccessControl,
    RateLimiting,
    ContentFiltering,
    DataResidency,
    CostControl,
    UsageQuota,
    Compliance,
    Custom,
}

/// Actions a policy rule can take.
#[derive(Debug, Clone, Copy, PartialEq, Eq, Structural)]
pub enum PolicyAction {
    Allow,
    Deny,
    Throttle,
    Audit,
    Alert,
    Transform,
}

/// Enforcement modes of the policy engine.
#[derive(Debug, Clone, Copy, PartialEq, Eq, Structural)]
pub enum EnforcementMode {
    Enforce,
    Audit,
    Shadow,
    Disabled,
}

/// How a policy is enforced and what happens when evaluation fails.
#[derive(Debug, Clone, Copy, PartialEq, Eq, Structural)]
pub struct EnforcementConfig {
    pub mode: EnforcementMode,
    pub fail_action: PolicyAction,
    pub audit_enabled: bool,
    pub alert_threshold: Option<u32>,
}

/// Compliance frameworks the engine reports against.
#[derive(Debug, Clone, Copy, PartialEq, Eq, Structural)]
pub enum ComplianceFramework {
    Gdpr,
    Hipaa,
    Sox,
    Pci,
    Iso27001,
    Nist,
    Custom,
}

/// Severity of a compliance rule or finding.
#[derive(Debug, Clone, Copy, PartialEq, Eq, Structural)]
pub enum ComplianceSeverity {
    Critical,
    Major,
    Minor,
    Informational,
}

/// One control backing a compliance rule.
#[derive(Debug, Clone, PartialEq, Eq)]
pub struct Control {
    pub control_id: String,
    pub name: String,
    pub description: String,
    pub test_procedure: String,
    pub evidence_required: Vec<String>,
}

/// A compliance rule from the policy engine.
#[derive(Debug, Clone, PartialEq, Eq)]
pub struct ComplianceRule {
    pub rule_id: String,
    pub name: String,
    pub framework: ComplianceFramework,
    pub requirement: String,
    pub controls: Vec<Control>,
    pub severity: ComplianceSeverity,
    pub enabled: bool,
}

/// Compliance standing under one framework.
#[derive(Debug, Clone, Copy, PartialEq, Eq, Structural)]
pub struct FrameworkStatus {
    pub framework: ComplianceFramework,
    pub compliant: bool,
    pub controls_passed: u32,
    pub controls_failed: u32,
    pub controls_not_applicable: u32,
}

/// Lifecycle of a compliance finding.
#[derive(Debug, Clone, Copy, PartialEq, Eq, Structural)]
pub enum FindingStatus {
    Open,
    InProgress,
    Resolved,
    Accepted,
    Deferred,
}

/// One compliance finding.
#[derive(Debug, Clone, PartialEq, Eq)]
pub struct ComplianceFinding {
    pub finding_id: String,
    pub rule_id: String,
    pub severity: ComplianceSeverity,
    pub description: String,
    pub remediation: String,
    pub status: FindingStatus,
}

/// Compliance standing of a service across frameworks.
#[derive(Debug, Clone, PartialEq, Eq)]
pub struct ComplianceStatus {
    pub service_id: u128,
    pub frameworks: Vec<FrameworkStatus>,
    pub overall_compliant: bool,
    pub last_assessment: String,
    pub next_assessment: Option<String>,
    pub findings: Vec<ComplianceFinding>,
}

/// The verdict used when the policy engine is unreachable or fails:
/// fail-open. The request is allowed, no violations are reported, and the
/// `failover` marker is set so the fallback is observable.
pub fn fail_open_validation() -> (r: PolicyValidationResponse)
    ensures
        r.allowed,
        r.failover,
        r.violations@.len() == 0,
        r.reason matches Some(msg) && msg@ == "Policy Engine unavailable - fail-open"@,
{
    PolicyValidationResponse {
        allowed: true,
        reason: Some(String::from_str("Policy Engine unavailable - fail-open")),
        violations: Vec::new(),
        failover: true,
    }
}

/// Interpret a gating check that may not have produced an answer: absent
/// answers fail open (the request is allowed), present answers are taken
/// as they are.
pub fn interpret_gate(answer: Option<bool>) -> (r: bool)
    ensures
        r == (answer is None || answer->Some_0),
{
    match answer {
        Some(v) => v,
        None => true,
    }
}

/// Whether a compliance report finds the service compliant overall.
pub fn is_compliant(status: &ComplianceStatus) -> (r: bool)
    ensures
        r == status.overall_compliant,
{
    status.overall_compliant
}

} // verus!
