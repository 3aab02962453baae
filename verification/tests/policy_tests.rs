use ofscp_transport::policy::ReconnectConfig;

#[test]
fn default_policy_values() {
    let c = ReconnectConfig::default_config();
    assert_eq!(c.max_attempts, 10);
    assert_eq!(c.initial_delay_ms, 1000);
    assert_eq!(c.max_delay_ms, 30000);
    assert_eq!(c.backoff_multiplier, 2);
}

#[test]
fn delay_grows_exponentially_until_cap() {
    let c = ReconnectConfig {
        max_attempts: 10,
        initial_delay_ms: 1000,
        max_delay_ms: 30000,
        backoff_multiplier: 2,
    };
    assert_eq!(c.delay_for_attempt(0), 1000);
    assert_eq!(c.delay_for_attempt(1), 2000);
    assert_eq!(c.delay_for_attempt(2), 4000);
    assert_eq!(c.delay_for_attempt(3), 8000);
    assert_eq!(c.delay_for_attempt(4), 16000);
    // 32000 exceeds the cap
    assert_eq!(c.delay_for_attempt(5), 30000);
    assert_eq!(c.delay_for_attempt(6), 30000);
}

#[test]
fn delay_is_monotone() {
    let c = ReconnectConfig {
        max_attempts: 8,
        initial_delay_ms: 250,
        max_delay_ms: 10000,
        backoff_multiplier: 3,
    };
    let mut prev = 0u64;
    for attempt in 0..8 {
        let d = c.delay_for_attempt(attempt);
        assert!(d >= prev);
        prev = d;
    }
}

#[test]
fn delay_with_unit_multiplier_is_flat() {
    let c = ReconnectConfig {
        max_attempts: 3,
        initial_delay_ms: 700,
        max_delay_ms: 30000,
        backoff_multiplier: 1,
    };
    assert_eq!(c.delay_for_attempt(0), 700);
    assert_eq!(c.delay_for_attempt(9), 700);
}
