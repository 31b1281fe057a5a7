use vstd::prelude::*;

use crate::filter::{filter_accepts, matches_filter};
use crate::text::concat;
use crate::types::{BackoffStrategy, RetryConfig, SubscribeFilter, TaskEvent};

verus! {

/// Why a webhook could not be delivered.
#[derive(Clone, Debug)]
pub enum WebhookError {
    DeliveryFailed { attempts: u32, message: String },
}

/// Where and how an event is delivered to an HTTP endpoint.
#[derive(Clone, Debug)]
pub struct WebhookConfig {
    pub url: String,
    pub filter: Option<SubscribeFilter>,
    pub secret: Option<String>,
    pub wrap: Option<bool>,
    pub retry: Option<RetryConfig>,
}

/// The retry policy used where a webhook names none.
pub open spec fn default_retry_spec() -> RetryConfig {
    RetryConfig {
        retries: 3,
        backoff: BackoffStrategy::Exponential,
        initial_delay_ms: 1000,
        max_delay_ms: 30000,
        timeout_ms: 5000,
    }
}

/// The retry policy used where a webhook names none: three retries,
/// exponential from one second, capped at thirty, five seconds per attempt.
pub fn default_retry() -> (r: RetryConfig)
    ensures
        r == default_retry_spec(),
{
    RetryConfig {
        retries: 3,
        backoff: BackoffStrategy::Exponential,
        initial_delay_ms: 1000,
        max_delay_ms: 30000,
        timeout_ms: 5000,
    }
}

/// A webhook's own retry policy, or the default.
pub fn merge_retry(config_retry: Option<&RetryConfig>) -> (r: RetryConfig)
    ensures
        r == match config_retry {
            Some(c) => *c,
            None => default_retry_spec(),
        },
{
    match config_retry {
        Some(r) => *r,
        None => default_retry(),
    }
}

/// Two to the power `n`.
pub open spec fn pow2(n: nat) -> nat
    decreases n,
{
    if n == 0 {
        1
    } else {
        2 * pow2((n - 1) as nat)
    }
}

/// The delay before attempt `attempt` (from 1): fixed, linear in the
/// attempt, or doubling from the initial delay up to the cap.
pub open spec fn backoff_spec(retry: RetryConfig, attempt: nat) -> int {
    match retry.backoff {
        BackoffStrategy::Fixed => retry.initial_delay_ms as int,
        BackoffStrategy::Linear => retry.initial_delay_ms * attempt,
        BackoffStrategy::Exponential => {
            let d: int = retry.initial_delay_ms as int * pow2((attempt - 1) as nat) as int;
            if d < retry.max_delay_ms as int {
                d
            } else {
                retry.max_delay_ms as int
            }
        },
    }
}

proof fn lemma_pow2_grows(k: nat, j: nat, x: nat)
    requires
        k <= j,
    ensures
        x * pow2(k) <= x * pow2(j),
    decreases j - k,
{
    if k < j {
        lemma_pow2_grows(k, (j - 1) as nat, x);
        assert(x * pow2(j) == 2 * (x * pow2((j - 1) as nat))) by (nonlinear_arith)
            requires
                pow2(j) == 2 * pow2((j - 1) as nat),
        ;
    }
}

/// The delay in milliseconds before attempt `attempt` (from 1).
pub fn backoff_ms(retry: &RetryConfig, attempt: u32) -> (r: u64)
    requires
        attempt >= 1,
        retry.backoff == BackoffStrategy::Linear ==> retry.initial_delay_ms * attempt <= u64::MAX,
    ensures
        r == backoff_spec(*retry, attempt as nat),
{
    match retry.backoff {
        BackoffStrategy::Fixed => retry.initial_delay_ms,
        BackoffStrategy::Linear => retry.initial_delay_ms * attempt as u64,
        BackoffStrategy::Exponential => {
            let max = retry.max_delay_ms;
            let mut d: u64 = retry.initial_delay_ms;
            let mut k: u32 = 1;
            assert(pow2(0) == 1);
            assert(d == retry.initial_delay_ms * pow2(0));
            while k < attempt
                invariant
                    1 <= k <= attempt,
                    d == retry.initial_delay_ms * pow2((k - 1) as nat),
                    max == retry.max_delay_ms,
                    retry.backoff == BackoffStrategy::Exponential,
                decreases attempt - k,
            {
                if d >= max || d > u64::MAX / 2 {
                    proof {
                        let x = retry.initial_delay_ms as nat;
                        lemma_pow2_grows(k as nat, (attempt - 1) as nat, x);
                        assert(pow2(k as nat) == 2 * pow2((k - 1) as nat));
                        assert(x * pow2(k as nat) == 2 * (x * pow2((k - 1) as nat))) by (nonlinear_arith)
                            requires
                                pow2(k as nat) == 2 * pow2((k - 1) as nat),
                        ;
                        let big: int = retry.initial_delay_ms as int * pow2((attempt - 1) as nat) as int;
                        assert(big >= 2 * d);
                        assert(!(big < max));
                    }
                    return max;
                }
                d = d * 2;
                k = k + 1;
                assert(d == retry.initial_delay_ms * pow2((k - 1) as nat)) by (nonlinear_arith)
                    requires
                        d == 2 * (retry.initial_delay_ms * pow2((k - 2) as nat)),
                        pow2((k - 1) as nat) == 2 * pow2((k - 2) as nat),
                ;
            }
            if d < max {
                d
            } else {
                max
            }
        },
    }
}

/// The next move of a delivery loop after attempt `attempt` (from 0).
#[derive(Clone, Debug)]
pub enum DeliveryStep {
    /// The endpoint accepted the event.
    Delivered,
    /// Wait `delay_ms`, then make attempt `attempt`.
    Retry { attempt: u32, delay_ms: u64 },
    /// The attempts are spent.
    Failed(WebhookError),
}

/// Decides what follows attempt `attempt` (from 0) of a delivery that
/// succeeded or not; `last_error` describes the last failure.
pub fn next_delivery_step(retry: &RetryConfig, attempt: u32, succeeded: bool, last_error: String) -> (r:
    DeliveryStep)
    requires
        attempt <= retry.retries,
        retry.retries < u32::MAX,
        retry.backoff == BackoffStrategy::Linear ==> retry.initial_delay_ms * (retry.retries as int)
            <= u64::MAX,
    ensures
        succeeded ==> r is Delivered,
        !succeeded && attempt < retry.retries ==> r == (DeliveryStep::Retry {
            attempt: (attempt + 1) as u32,
            delay_ms: backoff_spec(*retry, (attempt + 1) as nat) as u64,
        }),
        !succeeded && attempt == retry.retries ==> r == DeliveryStep::Failed(
            WebhookError::DeliveryFailed { attempts: (retry.retries + 1) as u32, message: last_error },
        ),
{
    if succeeded {
        return DeliveryStep::Delivered;
    }
    if attempt < retry.retries {
        let next = attempt + 1;
        proof {
            if retry.backoff == BackoffStrategy::Linear {
                assert(retry.initial_delay_ms * (next as int) <= retry.initial_delay_ms * (
                retry.retries as int)) by (nonlinear_arith)
                    requires
                        next <= retry.retries,
                ;
            }
        }
        DeliveryStep::Retry { attempt: next, delay_ms: backoff_ms(retry, next) }
    } else {
        DeliveryStep::Failed(
            WebhookError::DeliveryFailed { attempts: retry.retries + 1, message: last_error },
        )
    }
}

/// Whether a webhook receives an event: it has no filter or the event
/// passes it.
pub fn should_deliver(event: &TaskEvent, config: &WebhookConfig) -> (r: bool)
    ensures
        r == (config.filter matches Some(f) ==> filter_accepts(*event, f)),
{
    match &config.filter {
        Some(f) => matches_filter(event, f),
        None => true,
    }
}

/// The lower-case hex HMAC-SHA256 of `body` under key `secret`.
pub uninterp spec fn hmac_sha256_hex(body: Seq<char>, secret: Seq<char>) -> Seq<char>;

/// Relies on hmac::Hmac::<sha2::Sha256> (new_from_slice, update, finalize),
/// which accepts keys of every length, and on hex::encode, two digits for
/// each of the 32 bytes of the tag.
#[verifier::external_body]
fn hmac_hex(body: &str, secret: &str) -> (r: String)
    ensures
        r@ == hmac_sha256_hex(body@, secret@),
        r@.len() == 64,
{
    let mut mac = match <hmac::Hmac<sha2::Sha256> as hmac::Mac>::new_from_slice(secret.as_bytes()) {
        Ok(m) => m,
        Err(_) => return String::new(),
    };
    hmac::Mac::update(&mut mac, body.as_bytes());
    hex::encode(hmac::Mac::finalize(mac).into_bytes())
}

/// The signature header value of a webhook body: `sha256=` and the hex
/// HMAC-SHA256 of the body under the secret.
pub fn sign(body: &str, secret: &str) -> (r: String)
    ensures
        r@ == "sha256="@ + hmac_sha256_hex(body@, secret@),
{
    let mac = hmac_hex(body, secret);
    concat("sha256=", mac.as_str())
}

} // verus!
