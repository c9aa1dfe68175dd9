use consumption_gateway::analytics::AnalyticsStreamer;
use consumption_gateway::bench::{
    ExampleBenchmark, MetadataValidationBenchmark, RegistryLookupBenchmark, SearchQueriesBenchmark,
};
use consumption_gateway::breaker::{CircuitBreaker, CircuitBreakerConfig, CircuitState};
use consumption_gateway::cost::{
    CostBreakdown, PricingModel, PricingModelKind, PricingRate, UsageInfo,
};
use consumption_gateway::errors::{AppError, ErrorCode, HttpStatus, InfraError};
use consumption_gateway::keys::{generate_key, hash_key, ApiKeyManager, CreateApiKeyRequest, KeyError};
use consumption_gateway::meter::{RecordStatus, UsageMeter};
use consumption_gateway::policy::PolicyViolation;
use consumption_gateway::quota::{parse_quota_key, quota_key, QuotaManager};
use consumption_gateway::rate_limit::{check_rate_limit, TokenBucket};
use consumption_gateway::sla::{check_sla_violation, SLAMonitor, SlaSeverity};
use consumption_gateway::tier::ServiceTier;

#[test]
fn metadata_validation_test_benchmark_id() {
    let bench = MetadataValidationBenchmark::new();
    assert_eq!(bench.id(), "marketplace_metadata_validation");
}

#[test]
fn registry_lookup_test_benchmark_id() {
    let bench = RegistryLookupBenchmark::new();
    assert_eq!(bench.id(), "marketplace_registry_lookup");
}

#[test]
fn search_queries_test_benchmark_id() {
    let bench = SearchQueriesBenchmark::new();
    assert_eq!(bench.id(), "marketplace_search_queries");
}

#[test]
fn test_policy_violation_structure() {
    let violation = PolicyViolation {
        policy_id: "pol_001".to_string(),
        policy_name: "Data Classification".to_string(),
        severity: "high".to_string(),
        message: "Sensitive data detected in prompt".to_string(),
    };

    assert_eq!(violation.severity, "high");
}

#[test]
fn test_example_benchmark() {
    let bench = ExampleBenchmark::new("test-bench".to_string());
    assert_eq!(bench.id(), "test-bench");
}

#[test]
fn test_generate_key() {
    let key1 = generate_key();
    let key2 = generate_key();

    assert!(key1.starts_with("llm_mk_"));
    assert!(key2.starts_with("llm_mk_"));
    assert_ne!(key1, key2);
    assert_eq!(key1.len(), 55); // "llm_mk_" + 48 chars
}

#[test]
fn test_hash_key() {
    let key = "test_key_12345";
    let hash1 = hash_key(key).unwrap();
    let hash2 = hash_key(key).unwrap();

    // Argon2 produces different hashes for same input (due to salt)
    assert_ne!(hash1, hash2);
    assert!(hash1.starts_with("$argon2"));
}

#[test]
fn test_quota_key_parsing() {
    let consumer_id = uuid::Uuid::new_v4().as_u128();
    let service_id = uuid::Uuid::new_v4().as_u128();
    let key = quota_key(consumer_id, service_id);

    let (parsed_consumer, parsed_service) = parse_quota_key(&key).unwrap();
    assert_eq!(consumer_id, parsed_consumer);
    assert_eq!(service_id, parsed_service);
}

#[test]
fn test_quota_key_matches_identifier_text() {
    let consumer_id = uuid::Uuid::new_v4();
    let service_id = uuid::Uuid::new_v4();
    let key = quota_key(consumer_id.as_u128(), service_id.as_u128());
    assert_eq!(key, format!("quota:{}:{}", consumer_id, service_id));
}

#[test]
fn test_rate_limiter() {
    let tier = ServiceTier::Basic;

    // First request should succeed
    let (_bucket, status) = check_rate_limit(None, 1_700_000_000, &tier);
    assert!(!status.exceeded);
}

#[test]
fn test_rate_limit_basic_tier_burst() {
    // Fresh Basic bucket: capacity 20, rate 10/s. Twenty-one requests at
    // the same second: the first twenty pass, the twenty-first is denied
    // with one second of retry advice.
    let tier = ServiceTier::Basic;
    let t0: u64 = 1_700_000_000;
    let mut bucket: Option<TokenBucket> = None;
    for n in 0..20 {
        let (b, status) = check_rate_limit(bucket, t0, &tier);
        assert!(!status.exceeded, "request {} should pass", n);
        bucket = Some(b);
    }
    let (_b, status) = check_rate_limit(bucket, t0, &tier);
    assert!(status.exceeded);
    assert_eq!(status.retry_after_seconds, Some(1));
}

#[test]
fn test_rate_limit_refill_at_same_second_adds_nothing() {
    let tier = ServiceTier::Basic;
    let t0: u64 = 1_700_000_000;
    let (b1, s1) = check_rate_limit(None, t0, &tier);
    assert_eq!(s1.remaining, 19);
    let (b2, s2) = check_rate_limit(Some(b1), t0, &tier);
    assert_eq!(s2.remaining, 18);
    assert_eq!(b2.last_update, t0);
}

#[test]
fn test_rate_limit_refills_over_time() {
    let tier = ServiceTier::Basic;
    let t0: u64 = 1_700_000_000;
    let mut bucket: Option<TokenBucket> = None;
    for _ in 0..20 {
        let (b, _s) = check_rate_limit(bucket, t0, &tier);
        bucket = Some(b);
    }
    // One second later ten tokens are back.
    let (b, status) = check_rate_limit(bucket, t0 + 1, &tier);
    assert!(!status.exceeded);
    assert_eq!(status.remaining, 9);
    assert_eq!(b.tokens, 9);
}

#[test]
fn test_quota_enforcement_over_limit() {
    // Basic quota 100 000; used 99 999. A 250-token request still passes
    // the check, the counter then reads 100 249, and the next check is
    // exceeded.
    let mut quota = QuotaManager::new();
    let consumer: u128 = 7;
    let service: u128 = 9;
    let tier = ServiceTier::Basic;
    let now: u64 = 1_700_000_000;

    quota.update_quota(consumer, service, &UsageInfo {
        prompt_tokens: 0,
        completion_tokens: 0,
        total_tokens: 99_999,
    }, now);

    let status = quota.check_quota(consumer, service, &tier, now);
    assert!(!status.exceeded);
    assert_eq!(status.used_tokens, 99_999);
    assert_eq!(status.total_tokens, 100_000);

    quota.update_quota(consumer, service, &UsageInfo {
        prompt_tokens: 100,
        completion_tokens: 150,
        total_tokens: 250,
    }, now);

    let status = quota.check_quota(consumer, service, &tier, now);
    assert_eq!(status.used_tokens, 100_249);
    assert!(status.exceeded);
    assert!(status.remaining_tokens < 0);
}

#[test]
fn test_quota_reset_at_month_boundary() {
    let mut quota = QuotaManager::new();
    let consumer: u128 = 1;
    let service: u128 = 2;
    let tier = ServiceTier::Basic;
    let now: u64 = 1_700_000_000;

    quota.update_quota(consumer, service, &UsageInfo {
        prompt_tokens: 0,
        completion_tokens: 0,
        total_tokens: 42,
    }, now);
    let status = quota.check_quota(consumer, service, &tier, now);
    assert_eq!(status.used_tokens, 42);
    assert!(status.reset_at > now);
    assert!(status.reset_at <= now + 31 * 86400);

    // The second after the reset instant reads a fresh counter.
    let after = status.reset_at;
    let status2 = quota.check_quota(consumer, service, &tier, after);
    assert_eq!(status2.used_tokens, 0);
}

#[test]
fn test_cost_calculation() {
    // Per-token rate 0.0001 USD (100 micro-USD) over 250 tokens comes to
    // 0.0250 USD (25 000 micro-USD), in USD, with the inputs preserved.
    let meter = UsageMeter::new();
    let pricing = PricingModel {
        model: PricingModelKind::PerToken,
        rates: vec![PricingRate {
            tier: "basic".to_string(),
            rate_micros: 100,
            unit: "token".to_string(),
        }],
    };
    let usage = UsageInfo { prompt_tokens: 100, completion_tokens: 150, total_tokens: 250 };
    let cost = meter.calculate_cost(&pricing, &usage).unwrap();
    assert_eq!(cost.amount_micros, 25_000);
    assert_eq!(cost.currency, "USD");
    match cost.breakdown {
        CostBreakdown::PerToken { total_tokens, rate_micros_per_token, .. } => {
            assert_eq!(total_tokens, 250);
            assert_eq!(rate_micros_per_token, 100);
        },
        _ => panic!("expected a per-token breakdown"),
    }
}

#[test]
fn test_cost_per_request_and_subscription() {
    let meter = UsageMeter::new();
    let usage = UsageInfo { prompt_tokens: 1, completion_tokens: 1, total_tokens: 2 };

    let per_request = PricingModel {
        model: PricingModelKind::PerRequest,
        rates: vec![PricingRate {
            tier: "basic".to_string(),
            rate_micros: 5000,
            unit: "request".to_string(),
        }],
    };
    assert_eq!(meter.calculate_cost(&per_request, &usage).unwrap().amount_micros, 5000);

    let subscription = PricingModel { model: PricingModelKind::Subscription, rates: vec![] };
    assert_eq!(meter.calculate_cost(&subscription, &usage).unwrap().amount_micros, 0);

    let unknown = PricingModel { model: PricingModelKind::Unknown, rates: vec![] };
    let cost = meter.calculate_cost(&unknown, &usage).unwrap();
    assert_eq!(cost.amount_micros, 0);
    assert!(matches!(cost.breakdown, CostBreakdown::UnknownModel));
}

#[test]
fn test_cost_missing_rate_fails() {
    let meter = UsageMeter::new();
    let usage = UsageInfo { prompt_tokens: 0, completion_tokens: 0, total_tokens: 1 };
    let pricing = PricingModel { model: PricingModelKind::PerToken, rates: vec![] };
    assert!(meter.calculate_cost(&pricing, &usage).is_err());
}

#[test]
fn test_api_key_validation() {
    // Create a Premium key, validate the plaintext, revoke it, and watch
    // validation fail with the distinct expired-or-revoked error.
    let mut manager = ApiKeyManager::new();
    let consumer: u128 = 11;
    let now: u64 = 1_700_000_000;
    let request = CreateApiKeyRequest {
        service_id: "00000000-0000-0000-0000-000000000001".to_string(),
        tier: ServiceTier::Premium,
        expires_in_days: None,
    };
    let resp = manager.create_api_key(consumer, &request, 501, now).unwrap();
    assert!(resp.key.starts_with("llm_mk_"));
    assert_eq!(resp.tier, ServiceTier::Premium);

    let validated = manager.validate_key(&resp.key, now).unwrap();
    assert_eq!(validated.consumer_id, consumer);
    assert_eq!(validated.tier, ServiceTier::Premium);

    manager.revoke_key(resp.id, consumer, now + 5).unwrap();
    let err = manager.validate_key(&resp.key, now + 10).unwrap_err();
    assert_eq!(err, KeyError::ExpiredOrRevoked);
}

#[test]
fn test_revoke_is_terminal() {
    let mut manager = ApiKeyManager::new();
    let consumer: u128 = 11;
    let now: u64 = 1_700_000_000;
    let request = CreateApiKeyRequest {
        service_id: "00000000-0000-0000-0000-000000000001".to_string(),
        tier: ServiceTier::Basic,
        expires_in_days: None,
    };
    let resp = manager.create_api_key(consumer, &request, 77, now).unwrap();
    assert!(manager.revoke_key(resp.id, consumer, now + 1).is_ok());
    let before = manager.keys.clone();
    // A second revocation is observable as failure and changes nothing.
    assert_eq!(manager.revoke_key(resp.id, consumer, now + 2), Err(KeyError::NotRevocable));
    assert_eq!(manager.keys, before);
}

#[test]
fn test_unknown_key_is_distinct_from_revoked() {
    let manager = ApiKeyManager::new();
    let err = manager.validate_key("llm_mk_nosuchkeyatallatallatallatallatallatallxx", 0).unwrap_err();
    assert_eq!(err, KeyError::UnknownKey);
}

#[test]
fn test_list_keys_sorted() {
    let mut manager = ApiKeyManager::new();
    let consumer: u128 = 3;
    let request = CreateApiKeyRequest {
        service_id: "00000000-0000-0000-0000-000000000001".to_string(),
        tier: ServiceTier::Basic,
        expires_in_days: None,
    };
    manager.create_api_key(consumer, &request, 1, 100).unwrap();
    manager.create_api_key(consumer, &request, 2, 300).unwrap();
    manager.create_api_key(consumer, &request, 3, 200).unwrap();
    manager.create_api_key(999, &request, 4, 400).unwrap();

    let listed = manager.list_keys(consumer);
    assert_eq!(listed.len(), 3);
    assert_eq!(listed[0].created_at, 300);
    assert_eq!(listed[1].created_at, 200);
    assert_eq!(listed[2].created_at, 100);
}

#[test]
fn test_circuit_breaker_opens_after_failures() {
    // Five consecutive failures open the breaker; 30 s later a probe is
    // allowed and three successes close it again.
    let mut cb = CircuitBreaker::new("upstream".to_string(), CircuitBreakerConfig::default());
    assert_eq!(cb.state(), CircuitState::Closed);
    for t in 0..5 {
        assert!(cb.allow_request(t));
        cb.record_failure(t);
    }
    assert_eq!(cb.state(), CircuitState::Open);
    assert!(!cb.allow_request(4 + 29_999));
    assert!(cb.allow_request(4 + 30_000));
    assert_eq!(cb.state(), CircuitState::HalfOpen);
    cb.record_success();
    cb.record_success();
    cb.record_success();
    assert_eq!(cb.state(), CircuitState::Closed);
}

#[test]
fn test_circuit_breaker_failure_in_half_open_reopens() {
    let mut cb = CircuitBreaker::new("upstream".to_string(), CircuitBreakerConfig::default());
    for t in 0..5 {
        cb.record_failure(t);
    }
    assert!(cb.allow_request(40_000));
    assert_eq!(cb.state(), CircuitState::HalfOpen);
    cb.record_failure(40_001);
    assert_eq!(cb.state(), CircuitState::Open);
    assert!(!cb.allow_request(40_002));
}

#[test]
fn test_circuit_breaker_reset() {
    let mut cb = CircuitBreaker::new("upstream".to_string(), CircuitBreakerConfig::default());
    for t in 0..5 {
        cb.record_failure(t);
    }
    assert_eq!(cb.state(), CircuitState::Open);
    cb.reset();
    assert_eq!(cb.state(), CircuitState::Closed);
    assert!(cb.allow_request(10));
}

#[test]
fn test_sla_violation_severity() {
    // Test that violations are properly categorized
    let violation = check_sla_violation(1, 2, 100, 250, 1_700_000_000).unwrap();
    assert_eq!(violation.severity, SlaSeverity::Critical);

    let warning = check_sla_violation(1, 2, 100, 150, 1_700_000_000).unwrap();
    assert_eq!(warning.severity, SlaSeverity::Warning);

    assert!(check_sla_violation(1, 2, 100, 100, 1_700_000_000).is_none());
}

#[test]
fn test_error_status_codes() {
    assert_eq!(
        AppError::Authentication("test".into()).status_code(),
        HttpStatus::Unauthorized
    );
    assert_eq!(
        AppError::RateLimitExceeded("test".into()).status_code(),
        HttpStatus::TooManyRequests
    );
    assert_eq!(
        AppError::QuotaExceeded("test".into()).status_code(),
        HttpStatus::PaymentRequired
    );
}

#[test]
fn test_error_types() {
    assert_eq!(
        AppError::Authentication("test".into()).error_type(),
        "authentication_error"
    );
    assert_eq!(
        AppError::RateLimitExceeded("test".into()).error_type(),
        "rate_limit_exceeded"
    );
}

#[test]
fn test_not_found_error() {
    let err = InfraError::not_found("User", "123");
    assert_eq!(err.code, ErrorCode::NotFound);
    assert_eq!(err.status, HttpStatus::NotFound);
    assert!(err.message.contains("User '123' not found"));
}

#[test]
fn test_rate_limit_error() {
    let err = InfraError::rate_limit(Some(60));
    assert_eq!(err.code, ErrorCode::RateLimitExceeded);
    assert_eq!(err.status, HttpStatus::TooManyRequests);
    assert_eq!(err.retry_after_seconds, Some(60));
}

#[test]
fn test_error_response() {
    let err = InfraError::validation("Invalid input".to_string());
    let response = err.to_response();
    assert_eq!(response.status, 400);
    assert_eq!(response.message, "Invalid input");
}

#[test]
fn test_analytics_streamer_creation() {
    let streamer = AnalyticsStreamer::new(1000);
    let metrics = streamer.metrics();
    assert_eq!(metrics.capacity, 1000);
}

#[test]
fn test_send_consumption_event() {
    let mut streamer = AnalyticsStreamer::new(1000);

    let accepted = streamer.record_consumption(
        1,
        2,
        3,
        95,
        UsageInfo { prompt_tokens: 10, completion_tokens: 20, total_tokens: 30 },
        consumption_gateway::cost::CostInfo {
            amount_micros: 25_000,
            currency: "USD".to_string(),
            breakdown: CostBreakdown::Subscription,
        },
        RecordStatus::Success,
        1_700_000_000,
    );

    assert!(accepted);
    assert_eq!(streamer.metrics().current_length, 1);
}

#[test]
fn test_analytics_drops_when_full() {
    let mut streamer = AnalyticsStreamer::new(2);
    for _ in 0..2 {
        assert!(streamer.record_rate_limit_exceeded(1, 2, ServiceTier::Basic, 10, 0));
    }
    assert!(!streamer.record_rate_limit_exceeded(1, 2, ServiceTier::Basic, 10, 0));
    assert_eq!(streamer.metrics().current_length, 2);
    assert_eq!(streamer.dropped, 1);
}

#[test]
fn test_parse_quota_key_rejects_other_strings() {
    assert!(parse_quota_key("quota:not-a-uuid:also-not").is_none());
    assert!(parse_quota_key("").is_none());
    assert!(parse_quota_key("ratelimit:00000000-0000-0000-0000-000000000000:00000000-0000-0000-0000-000000000000").is_none());
}

#[test]
fn test_key_expiry() {
    let mut manager = ApiKeyManager::new();
    let now: u64 = 1_700_000_000;
    let request = CreateApiKeyRequest {
        service_id: "00000000-0000-0000-0000-000000000001".to_string(),
        tier: ServiceTier::Basic,
        expires_in_days: Some(1),
    };
    let resp = manager.create_api_key(5, &request, 1, now).unwrap();
    assert_eq!(resp.expires_at, Some(now + 86400));
    assert!(manager.validate_key(&resp.key, now + 86399).is_ok());
    assert_eq!(
        manager.validate_key(&resp.key, now + 86400).unwrap_err(),
        KeyError::ExpiredOrRevoked
    );
}

#[test]
fn test_create_key_rejects_bad_service_id() {
    let mut manager = ApiKeyManager::new();
    let request = CreateApiKeyRequest {
        service_id: "not-an-identifier".to_string(),
        tier: ServiceTier::Basic,
        expires_in_days: None,
    };
    assert_eq!(
        manager.create_api_key(5, &request, 1, 0).unwrap_err(),
        KeyError::InvalidServiceId
    );
}

#[test]
fn test_create_key_accepts_uppercase_hex() {
    let mut manager = ApiKeyManager::new();
    let request = CreateApiKeyRequest {
        service_id: "00000000-0000-0000-0000-0000000000AB".to_string(),
        tier: ServiceTier::Basic,
        expires_in_days: None,
    };
    let resp = manager.create_api_key(5, &request, 1, 0).unwrap();
    assert_eq!(resp.service_id, 0xab);
}

#[test]
fn test_create_key_duplicate_id_fails() {
    let mut manager = ApiKeyManager::new();
    let request = CreateApiKeyRequest {
        service_id: "00000000-0000-0000-0000-000000000001".to_string(),
        tier: ServiceTier::Basic,
        expires_in_days: None,
    };
    manager.create_api_key(5, &request, 1, 0).unwrap();
    assert_eq!(manager.create_api_key(5, &request, 1, 0).unwrap_err(), KeyError::DuplicateId);
}

#[test]
fn test_get_violations_returns_most_recent() {
    let mut monitor = SLAMonitor::new();
    for (id, ts) in [(1u128, 100u64), (2, 300), (3, 200), (4, 400)] {
        let v = check_sla_violation(id, 7, 10, 50, ts).unwrap();
        monitor.record_violation(v);
    }
    let v_other = check_sla_violation(9, 8, 10, 50, 999).unwrap();
    monitor.record_violation(v_other);

    let recent = monitor.get_violations(7, 2);
    assert_eq!(recent.len(), 2);
    assert_eq!(recent[0].timestamp, 400);
    assert_eq!(recent[1].timestamp, 300);
    assert_eq!(monitor.get_violations(7, 10).len(), 4);
}

#[test]
fn test_record_usage_keeps_error_and_breakdown() {
    let mut meter = UsageMeter::new();
    let pricing = PricingModel {
        model: PricingModelKind::PerToken,
        rates: vec![PricingRate {
            tier: "basic".to_string(),
            rate_micros: 100,
            unit: "token".to_string(),
        }],
    };
    let rec = meter
        .record_usage(
            1,
            2,
            3,
            4,
            UsageInfo { prompt_tokens: 1, completion_tokens: 1, total_tokens: 2 },
            10,
            RecordStatus::Error,
            Some("upstream refused".to_string()),
            &pricing,
            1000,
        )
        .unwrap();
    assert_eq!(rec.error.as_deref(), Some("upstream refused"));
    assert_eq!(rec.cost.currency, "USD");
    assert!(matches!(rec.cost.breakdown, CostBreakdown::PerToken { total_tokens: 2, .. }));
}
