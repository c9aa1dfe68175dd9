use consumption_gateway::codec::{format_usage_record, parse_usage_record};
use consumption_gateway::config::{DatabaseConfig, Environment, LogLevel, RedisConfig};
use consumption_gateway::cost::{
    CostBreakdown, CostInfo, PricingModel, PricingModelKind, PricingRate, UsageInfo,
};
use consumption_gateway::meter::{RecordStatus, UsageMeter, UsageRecord};
use consumption_gateway::pipeline::{
    Phase, Pipeline, PipelineAction, PipelineEvent, PipelineOutcome,
};
use consumption_gateway::policy::{fail_open_validation, PolicyViolation};
use consumption_gateway::quota::QuotaManager;
use consumption_gateway::rate_limit::check_rate_limit;
use consumption_gateway::registry::{classify_lookup_status, validate_model, LookupDisposition, ModelStatus};
use consumption_gateway::retry::{backoff_delay_ms, is_retryable_error, next_attempt_delay};
use consumption_gateway::router::{classify_upstream_status, estimate_usage, extract_usage, UpstreamOutcome};
use consumption_gateway::shield::{scan_fail_open, FilterAction};
use consumption_gateway::tier::ServiceTier;

fn per_token_pricing(rate_micros: u64) -> PricingModel {
    PricingModel {
        model: PricingModelKind::PerToken,
        rates: vec![PricingRate {
            tier: "basic".to_string(),
            rate_micros,
            unit: "token".to_string(),
        }],
    }
}

#[test]
fn test_tier_limits() {
    assert_eq!(ServiceTier::Basic.rate_limit(), 10);
    assert_eq!(ServiceTier::Premium.rate_limit(), 100);
    assert_eq!(ServiceTier::Enterprise.rate_limit(), 1000);
    assert_eq!(ServiceTier::Basic.burst_capacity(), 20);
    assert_eq!(ServiceTier::Premium.burst_capacity(), 200);
    assert_eq!(ServiceTier::Enterprise.burst_capacity(), 2000);
    assert_eq!(ServiceTier::Basic.quota_limit(), 100_000);
    assert_eq!(ServiceTier::Premium.quota_limit(), 10_000_000);
    assert_eq!(ServiceTier::Enterprise.quota_limit(), 1_000_000_000);
}

#[test]
fn test_extract_usage() {
    let response: serde_json::Value = serde_json::from_str(
        "{\"choices\":[{\"text\":\"Hello world\"}],\"usage\":{\"prompt_tokens\":10,\"completion_tokens\":20,\"total_tokens\":30}}",
    )
    .unwrap();

    let (usage, estimated) = extract_usage(&response);
    assert!(!estimated);
    assert_eq!(usage.prompt_tokens, 10);
    assert_eq!(usage.completion_tokens, 20);
    assert_eq!(usage.total_tokens, 30);
}

#[test]
fn test_extract_usage_fallback() {
    let response: serde_json::Value =
        serde_json::from_str("{\"choices\":[{\"text\":\"Hello world\"}]}").unwrap();

    let (usage, estimated) = extract_usage(&response);
    assert!(estimated);
    assert!(usage.total_tokens > 0);
    assert_eq!(usage.prompt_tokens, 0);
    assert_eq!(usage.completion_tokens, usage.total_tokens);
}

#[test]
fn test_extract_usage_missing_total_sums_parts() {
    let response: serde_json::Value = serde_json::from_str(
        "{\"usage\":{\"prompt_tokens\":7,\"completion_tokens\":5}}",
    )
    .unwrap();
    let (usage, estimated) = extract_usage(&response);
    assert!(!estimated);
    assert_eq!(usage.total_tokens, 12);
}

#[test]
fn test_estimate_usage_divides_by_four() {
    let usage = estimate_usage(103);
    assert_eq!(usage.total_tokens, 25);
    assert_eq!(usage.prompt_tokens, 0);
}

#[test]
fn test_backoff_delays() {
    assert_eq!(backoff_delay_ms(1), 100);
    assert_eq!(backoff_delay_ms(2), 200);
    assert_eq!(backoff_delay_ms(3), 400);
    assert_eq!(next_attempt_delay(3, 3), None);
    assert_eq!(next_attempt_delay(1, 3), Some(100));
}

#[test]
fn test_is_retryable_error() {
    assert!(is_retryable_error("Connection refused by peer"));
    assert!(is_retryable_error("request TIMED OUT"));
    assert!(is_retryable_error("upstream returned 503"));
    assert!(is_retryable_error("got 429 back"));
    assert!(!is_retryable_error("invalid request body"));
}

#[test]
fn test_classify_upstream_status() {
    assert_eq!(classify_upstream_status(200), UpstreamOutcome::Success);
    assert_eq!(classify_upstream_status(502), UpstreamOutcome::RetryableFailure);
    assert_eq!(classify_upstream_status(429), UpstreamOutcome::RetryableFailure);
    assert_eq!(classify_upstream_status(400), UpstreamOutcome::TerminalFailure);
}

#[test]
fn test_registry_lookup_classification() {
    assert_eq!(classify_lookup_status(200), LookupDisposition::Found);
    assert_eq!(classify_lookup_status(404), LookupDisposition::Missing);
    assert_eq!(classify_lookup_status(500), LookupDisposition::Failed);
    assert!(validate_model(Some(ModelStatus::Active)));
    assert!(!validate_model(Some(ModelStatus::Retired)));
    assert!(!validate_model(None));
}

#[test]
fn test_fail_open_paths() {
    let verdict = fail_open_validation();
    assert!(verdict.allowed);
    assert!(verdict.failover);
    assert!(verdict.violations.is_empty());

    let scan = scan_fail_open(17);
    assert!(scan.allowed);
    assert_eq!(scan.action, FilterAction::Allow);
    assert_eq!(scan.processing_time_ms, 17);
}

#[test]
fn test_pipeline_success_path() {
    let mut p = Pipeline::new(900, 1, 2);
    assert_eq!(p.phase, Phase::ResolvingService);

    let a = p.step(PipelineEvent::ServiceResolved(Some(per_token_pricing(100))));
    assert_eq!(a, PipelineAction::ResolveKey);

    let a = p.step(PipelineEvent::KeyResolved(Some(ServiceTier::Basic)));
    assert_eq!(a, PipelineAction::CheckPolicy);

    let a = p.step(PipelineEvent::PolicyChecked { allowed: true, violations: vec![] });
    assert_eq!(a, PipelineAction::CheckRateLimit);

    let (_, rl) = check_rate_limit(None, 1_700_000_000, &ServiceTier::Basic);
    let a = p.step(PipelineEvent::RateLimitChecked(rl));
    assert_eq!(a, PipelineAction::CheckQuota);

    let quota = QuotaManager::new();
    let qs = quota.check_quota(1, 2, &ServiceTier::Basic, 1_700_000_000);
    let a = p.step(PipelineEvent::QuotaChecked(qs));
    assert_eq!(a, PipelineAction::CheckBreaker);

    let a = p.step(PipelineEvent::BreakerChecked(true));
    assert_eq!(a, PipelineAction::Dispatch);

    let usage = UsageInfo { prompt_tokens: 100, completion_tokens: 150, total_tokens: 250 };
    let a = p.step(PipelineEvent::DispatchCompleted(Some((usage, 42))));
    match a {
        PipelineAction::Complete(resp) => {
            assert_eq!(resp.request_id, 900);
            assert_eq!(resp.usage.total_tokens, 250);
            assert_eq!(resp.cost.amount_micros, 25_000);
            assert_eq!(resp.latency_ms, 42);
        },
        other => panic!("expected completion, got {:?}", other),
    }
    assert_eq!(p.records_requested, 1);
}

#[test]
fn test_pipeline_policy_rejection_writes_no_record() {
    let mut p = Pipeline::new(900, 1, 2);
    p.step(PipelineEvent::ServiceResolved(Some(per_token_pricing(100))));
    p.step(PipelineEvent::KeyResolved(Some(ServiceTier::Basic)));
    let a = p.step(PipelineEvent::PolicyChecked { allowed: false, violations: vec![] });
    assert_eq!(a, PipelineAction::Respond { status: 403, retry_after: None, violations: vec![] });
    assert_eq!(p.records_requested, 0);
    assert_eq!(
        p.outcome,
        Some(PipelineOutcome::Rejected { status: 403, retry_after: None })
    );
}

#[test]
fn test_pipeline_rate_limit_rejection_carries_retry_after() {
    let mut p = Pipeline::new(900, 1, 2);
    p.step(PipelineEvent::ServiceResolved(Some(per_token_pricing(100))));
    p.step(PipelineEvent::KeyResolved(Some(ServiceTier::Basic)));
    p.step(PipelineEvent::PolicyChecked { allowed: true, violations: vec![] });

    // Drain a Basic bucket, then present the denied status to the pipeline.
    let tier = ServiceTier::Basic;
    let t0: u64 = 1_700_000_000;
    let mut bucket = None;
    for _ in 0..20 {
        let (b, _s) = check_rate_limit(bucket, t0, &tier);
        bucket = Some(b);
    }
    let (_b, denied) = check_rate_limit(bucket, t0, &tier);
    assert!(denied.exceeded);

    let a = p.step(PipelineEvent::RateLimitChecked(denied));
    assert_eq!(a, PipelineAction::Respond { status: 429, retry_after: Some(1), violations: vec![] });
    assert_eq!(p.records_requested, 0);
}

#[test]
fn test_pipeline_unknown_service_is_not_found() {
    let mut p = Pipeline::new(900, 1, 2);
    let a = p.step(PipelineEvent::ServiceResolved(None));
    assert_eq!(a, PipelineAction::Respond { status: 404, retry_after: None, violations: vec![] });
}

#[test]
fn test_pipeline_dispatch_failure_is_bad_gateway() {
    let mut p = Pipeline::new(900, 1, 2);
    p.step(PipelineEvent::ServiceResolved(Some(per_token_pricing(100))));
    p.step(PipelineEvent::KeyResolved(Some(ServiceTier::Basic)));
    p.step(PipelineEvent::PolicyChecked { allowed: true, violations: vec![] });
    let (_, rl) = check_rate_limit(None, 1_700_000_000, &ServiceTier::Basic);
    p.step(PipelineEvent::RateLimitChecked(rl));
    let quota = QuotaManager::new();
    let qs = quota.check_quota(1, 2, &ServiceTier::Basic, 1_700_000_000);
    p.step(PipelineEvent::QuotaChecked(qs));
    p.step(PipelineEvent::BreakerChecked(true));
    let a = p.step(PipelineEvent::DispatchCompleted(None));
    assert_eq!(a, PipelineAction::Respond { status: 502, retry_after: None, violations: vec![] });
    assert_eq!(p.records_requested, 0);
}

#[test]
fn test_pipeline_policy_denial_carries_each_violation() {
    // A policy denial answers 403 and hands back every violation so that
    // one analytics event is emitted per violation; no usage record.
    let mut p = Pipeline::new(900, 1, 2);
    p.step(PipelineEvent::ServiceResolved(Some(per_token_pricing(100))));
    p.step(PipelineEvent::KeyResolved(Some(ServiceTier::Basic)));
    let violations = vec![
        PolicyViolation {
            policy_id: "p1".to_string(),
            policy_name: "Data Classification".to_string(),
            severity: "high".to_string(),
            message: "Sensitive data detected in prompt".to_string(),
        },
        PolicyViolation {
            policy_id: "p2".to_string(),
            policy_name: "Region".to_string(),
            severity: "low".to_string(),
            message: "Out-of-region consumer".to_string(),
        },
    ];
    let a = p.step(PipelineEvent::PolicyChecked { allowed: false, violations: violations.clone() });
    match a {
        PipelineAction::Respond { status, retry_after, violations: out } => {
            assert_eq!(status, 403);
            assert_eq!(retry_after, None);
            assert_eq!(out, violations);
        },
        other => panic!("expected a rejection, got {:?}", other),
    }
    assert_eq!(p.records_requested, 0);
}

#[test]
fn test_pipeline_open_breaker_is_service_unavailable() {
    // An open breaker rejects immediately with 503 and thirty seconds of
    // retry advice, before any dispatch.
    let mut p = Pipeline::new(900, 1, 2);
    p.step(PipelineEvent::ServiceResolved(Some(per_token_pricing(100))));
    p.step(PipelineEvent::KeyResolved(Some(ServiceTier::Basic)));
    p.step(PipelineEvent::PolicyChecked { allowed: true, violations: vec![] });
    let (_, rl) = check_rate_limit(None, 1_700_000_000, &ServiceTier::Basic);
    p.step(PipelineEvent::RateLimitChecked(rl));
    let quota = QuotaManager::new();
    let qs = quota.check_quota(1, 2, &ServiceTier::Basic, 1_700_000_000);
    p.step(PipelineEvent::QuotaChecked(qs));
    let a = p.step(PipelineEvent::BreakerChecked(false));
    assert_eq!(a, PipelineAction::Respond { status: 503, retry_after: Some(30), violations: vec![] });
    assert_eq!(p.records_requested, 0);
}

fn sample_record(error: Option<String>) -> UsageRecord {
    UsageRecord {
        id: 12345678901234567890,
        request_id: 42,
        service_id: 7,
        consumer_id: 9,
        timestamp: 1_700_000_000,
        duration_ms: 87,
        usage: UsageInfo { prompt_tokens: 100, completion_tokens: 150, total_tokens: 250 },
        cost: CostInfo {
            amount_micros: 25_000,
            currency: "USD".to_string(),
            breakdown: CostBreakdown::PerToken {
                prompt_tokens: 100,
                completion_tokens: 150,
                total_tokens: 250,
                rate_micros_per_token: 100,
            },
        },
        status: RecordStatus::Success,
        error,
    }
}

#[test]
fn test_record_json_round_trip() {
    let rec = sample_record(None);
    let bytes = format_usage_record(&rec);
    let text = String::from_utf8(bytes.clone()).unwrap();
    assert!(text.starts_with("{\"id\":12345678901234567890,"));
    let parsed = parse_usage_record(&bytes).unwrap();
    assert_eq!(parsed, rec);
}

#[test]
fn test_record_json_round_trip_with_escapes() {
    let rec = UsageRecord {
        status: RecordStatus::Error,
        error: Some("upstream said \"no\" \\ twice".to_string()),
        ..sample_record(None)
    };
    let bytes = format_usage_record(&rec);
    let parsed = parse_usage_record(&bytes).unwrap();
    assert_eq!(parsed, rec);
}

#[test]
fn test_record_json_is_valid_json() {
    let rec = sample_record(Some("boom".to_string()));
    let bytes = format_usage_record(&rec);
    let v: serde_json::Value = serde_json::from_slice(&bytes).unwrap();
    assert_eq!(v["request_id"].as_u64(), Some(42));
    assert_eq!(v["usage"]["total_tokens"].as_u64(), Some(250));
    assert_eq!(v["cost"]["currency"].as_str(), Some("USD"));
    assert_eq!(v["status"].as_str(), Some("success"));
    assert_eq!(v["error"].as_str(), Some("boom"));
}

#[test]
fn test_usage_stats_aggregation() {
    let mut meter = UsageMeter::new();
    let pricing = per_token_pricing(100);
    meter
        .record_usage(1, 10, 7, 9, UsageInfo { prompt_tokens: 1, completion_tokens: 1, total_tokens: 2 }, 30, RecordStatus::Success, None, &pricing, 1000)
        .unwrap();
    meter
        .record_usage(2, 11, 7, 9, UsageInfo { prompt_tokens: 2, completion_tokens: 2, total_tokens: 4 }, 50, RecordStatus::Error, Some("bad".to_string()), &pricing, 2000)
        .unwrap();
    meter
        .record_usage(3, 12, 7, 8, UsageInfo { prompt_tokens: 9, completion_tokens: 9, total_tokens: 18 }, 70, RecordStatus::Success, None, &pricing, 1500)
        .unwrap();

    let stats = meter.get_usage_stats(9, 7, 0, 10_000);
    assert_eq!(stats.total_requests, 2);
    assert_eq!(stats.total_tokens, 6);
    assert_eq!(stats.total_cost_micros, 600);
    assert_eq!(stats.total_duration_ms, 80);
    assert_eq!(stats.error_count, 1);
}

#[test]
fn test_environment_and_log_level_parsing() {
    assert_eq!(Environment::from_str("Production"), Ok(Environment::Production));
    assert_eq!(Environment::from_str("dev"), Ok(Environment::Development));
    assert_eq!(Environment::from_str("TEST"), Ok(Environment::Test));
    assert!(Environment::from_str("sandbox").is_err());
    assert_eq!(LogLevel::from_str("WARNING"), Ok(LogLevel::Warn));
    assert_eq!(LogLevel::from_str("trace"), Ok(LogLevel::Trace));
    assert!(LogLevel::from_str("loud").is_err());
}

#[test]
fn test_connection_urls() {
    let db = DatabaseConfig::default();
    assert_eq!(db.url(), "postgres://postgres:@localhost:5432/llm_marketplace");

    let mut redis = RedisConfig::default();
    assert_eq!(redis.url(), "redis://localhost:6379/0");
    redis.password = Some("SECRET-REDACTED".to_string());
    assert_eq!(redis.url(), "redis://:SECRET-REDACTED@localhost:6379/0");
}

#[test]
fn test_parse_rejects_non_canonical_text() {
    assert!(parse_usage_record(b"{}").is_none());
    assert!(parse_usage_record(b"").is_none());
    let rec = sample_record(None);
    let mut bytes = format_usage_record(&rec);
    bytes.push(b' ');
    assert!(parse_usage_record(&bytes).is_none());
}
