use taskcast::types::{BackoffStrategy, RetryConfig};
use taskcast::webhook::{backoff_ms, default_retry, merge_retry, next_delivery_step, sign, DeliveryStep, WebhookError};

fn retry(backoff: BackoffStrategy) -> RetryConfig {
    RetryConfig { retries: 3, backoff, initial_delay_ms: 1000, max_delay_ms: 5000, timeout_ms: 5000 }
}

#[test]
fn default_retry_has_expected_values() {
    let retry = default_retry();
    assert_eq!(retry.retries, 3);
    assert_eq!(retry.backoff, BackoffStrategy::Exponential);
    assert_eq!(retry.initial_delay_ms, 1000);
    assert_eq!(retry.max_delay_ms, 30000);
    assert_eq!(retry.timeout_ms, 5000);
}

#[test]
fn merge_retry_prefers_the_webhook_policy() {
    let own = retry(BackoffStrategy::Fixed);
    assert_eq!(merge_retry(Some(&own)), own);
    assert_eq!(merge_retry(None), default_retry());
}

#[test]
fn backoff_fixed_returns_initial_delay() {
    let r = retry(BackoffStrategy::Fixed);
    assert_eq!(backoff_ms(&r, 1), 1000);
    assert_eq!(backoff_ms(&r, 3), 1000);
}

#[test]
fn backoff_linear_grows_with_attempt() {
    let r = retry(BackoffStrategy::Linear);
    assert_eq!(backoff_ms(&r, 1), 1000);
    assert_eq!(backoff_ms(&r, 3), 3000);
}

#[test]
fn backoff_exponential_doubles_and_caps() {
    let r = retry(BackoffStrategy::Exponential);
    assert_eq!(backoff_ms(&r, 1), 1000);
    assert_eq!(backoff_ms(&r, 2), 2000);
    assert_eq!(backoff_ms(&r, 3), 4000);
    assert_eq!(backoff_ms(&r, 4), 5000);
    assert_eq!(backoff_ms(&r, 5), 5000);
}

#[test]
fn delivery_steps_retry_then_fail() {
    let r = retry(BackoffStrategy::Exponential);
    assert!(matches!(next_delivery_step(&r, 0, true, String::new()), DeliveryStep::Delivered));
    match next_delivery_step(&r, 0, false, "HTTP 500".to_string()) {
        DeliveryStep::Retry { attempt, delay_ms } => {
            assert_eq!(attempt, 1);
            assert_eq!(delay_ms, 1000);
        }
        _ => panic!("expected a retry"),
    }
    match next_delivery_step(&r, 3, false, "HTTP 500".to_string()) {
        DeliveryStep::Failed(WebhookError::DeliveryFailed { attempts, message }) => {
            assert_eq!(attempts, 4);
            assert_eq!(message, "HTTP 500");
        }
        _ => panic!("expected a failure"),
    }
}

#[test]
fn sign_produces_correct_hmac_sha256() {
    let body = r#"{"type":"progress","data":{"percent":50}}"#;
    let result = sign(body, "my-secret-key");
    assert!(result.starts_with("sha256="));
    let hex_part = &result[7..];
    assert_eq!(hex_part.len(), 64);
    assert!(hex_part.chars().all(|c| c.is_ascii_hexdigit()));
}

#[test]
fn sign_different_secrets_produce_different_signatures() {
    let body = r#"{"type":"test"}"#;
    assert_ne!(sign(body, "secret1"), sign(body, "secret2"));
}

#[test]
fn sign_same_input_produces_same_signature() {
    let body = r#"{"type":"test"}"#;
    assert_eq!(sign(body, "secret"), sign(body, "secret"));
}

#[test]
fn sign_matches_known_vector() {
    // RFC 4231 test case 2.
    let result = sign("what do ya want for nothing?", "Jefe");
    assert_eq!(result, "sha256=5bdcc146bf60754e6a042426089575c75a003f089d2739839dec58b964ec3843");
}
