//! Enforcement of the rules: from a request, by way of a store and a queue, to what becomes of it.

use crate::config::{RateLimitAlgorithm, RateLimitBehavior, RateLimitConfig, RateLimitRule};
use crate::queue::{QueueError, ThrottledRequest, ThrottledRequestQueue};
use crate::store::{
    CountModel, CounterState, RateLimitStore, StoreError, TakeModel, TokenBucketState,
};
use crate::text::{decimal, to_decimal};
use crate::time::{at_least, is_unix_second, unix_timestamp_seconds, Duration};
use vstd::prelude::*;

verus! {

/// What a client is told of its limit.
#[derive(Debug, Clone, Copy, PartialEq, Eq, Structural)]
pub struct RateLimitHeaders {
    /// How many requests pass at once.
    pub limit: u64,
    /// How many more pass now.
    pub remaining: u64,
    /// How long to wait before the next request.
    pub retry_after_seconds: u64,
    /// When the whole limit is at hand again.
    pub reset_unix_seconds: u64,
}

/// A request within its limit.
#[derive(Debug, Clone, PartialEq, Eq)]
pub struct AllowedResponse {
    pub headers: RateLimitHeaders,
    pub rule_name: String,
}

/// Whether the description of a request over its limit was queued.
#[derive(Debug, Clone, Copy, PartialEq, Eq, Structural)]
pub enum QueueDisposition {
    NotQueued,
    Queued,
    QueueFailed,
}

/// A request over its limit.
#[derive(Debug, Clone, PartialEq, Eq)]
pub struct ThrottledResponse {
    pub headers: RateLimitHeaders,
    pub rule_name: String,
    pub queue_disposition: QueueDisposition,
}

/// What becomes of a request.
#[derive(Debug, Clone, PartialEq, Eq)]
pub enum EnforcementResult {
    /// No rule applies to it.
    NotConfigured,
    Allowed(AllowedResponse),
    Throttled(ThrottledResponse),
}

/// Why a request could not be held against its limit.
#[derive(Debug, PartialEq, Eq)]
pub enum LimiterError {
    Store(StoreError),
    Queue(QueueError),
    /// The time at which the limit is at hand again cannot be told.
    OutOfRange,
}

impl LimiterError {
    /// The error in words.
    pub open spec fn text(&self) -> Seq<char> {
        match self {
            LimiterError::Store(error) => "counter store error: "@ + error.text(),
            LimiterError::Queue(error) => "queue error: "@ + error.text(),
            LimiterError::OutOfRange => "reset time out of range"@,
        }
    }

    /// The error in words.
    pub fn message(&self) -> (s: String)
        ensures
            s@ == self.text(),
    {
        match self {
            LimiterError::Store(error) => {
                let mut s = "counter store error: ".to_owned();
                s.append(error.message().as_str());
                s
            },
            LimiterError::Queue(error) => {
                let mut s = "queue error: ".to_owned();
                s.append(error.message().as_str());
                s
            },
            LimiterError::OutOfRange => "reset time out of range".to_owned(),
        }
    }
}

impl From<StoreError> for LimiterError {
    fn from(error: StoreError) -> (e: LimiterError) {
        LimiterError::Store(error)
    }
}

impl vstd::std_specs::convert::FromSpecImpl<StoreError> for LimiterError {
    open spec fn obeys_from_spec() -> bool {
        true
    }

    open spec fn from_spec(error: StoreError) -> LimiterError {
        LimiterError::Store(error)
    }
}

impl From<QueueError> for LimiterError {
    fn from(error: QueueError) -> (e: LimiterError) {
        LimiterError::Queue(error)
    }
}

impl vstd::std_specs::convert::FromSpecImpl<QueueError> for LimiterError {
    open spec fn obeys_from_spec() -> bool {
        true
    }

    open spec fn from_spec(error: QueueError) -> LimiterError {
        LimiterError::Queue(error)
    }
}

/// When the window that is open at `now` began, in windows that are at least a second long: times
/// are in seconds but for the length, which is in nanoseconds.
pub open spec fn window_start(window: nat, now: nat) -> nat {
    now / at_least(window / 1_000_000_000, 1) * at_least(window / 1_000_000_000, 1)
}

/// The key of a client's counter for the window that is open at `now`.
pub open spec fn fixed_window_key(
    rule_name: Seq<char>,
    ip: Seq<char>,
    window: nat,
    now: nat,
) -> Seq<char> {
    "rl:"@ + rule_name + ":"@ + ip + ":"@ + decimal(window_start(window, now))
}

/// The key of a client's bucket.
pub open spec fn token_bucket_key(rule_name: Seq<char>, ip: Seq<char>) -> Seq<char> {
    "rl:"@ + rule_name + ":"@ + ip
}

/// The key of the client's counter for the window that is open at `now`, in seconds since the Unix
/// epoch.
pub fn build_fixed_window_key(rule: &RateLimitRule, ip: &str, window: Duration, now: u64) -> (key:
    String)
    ensures
        key@ == fixed_window_key(rule.name@, ip@, window@, now as nat),
{
    let whole: u64 = window.as_secs();
    let seconds: u64 = if whole < 1 {
        1
    } else {
        whole
    };
    proof {
        vstd::arithmetic::div_mod::lemma_fundamental_div_mod(now as int, seconds as int);
        vstd::arithmetic::mul::lemma_mul_is_commutative(seconds as int, now as int / seconds as int);
    }
    let start: u64 = now / seconds * seconds;
    let mut key = "rl:".to_owned();
    key.append(rule.name.as_str());
    key.append(":");
    key.append(ip);
    key.append(":");
    key.append(to_decimal(start).as_str());
    key
}

/// The key of the client's bucket.
pub fn build_token_bucket_key(rule: &RateLimitRule, ip: &str) -> (key: String)
    ensures
        key@ == token_bucket_key(rule.name@, ip@),
{
    let mut key = "rl:".to_owned();
    key.append(rule.name.as_str());
    key.append(":");
    key.append(ip);
    key
}

/// What a client is told at `now`, if the time at which the limit is at hand again can be told:
/// `retry_after` and `reset_after` are in nanoseconds.
pub open spec fn headers_at(
    limit: u64,
    remaining: u64,
    retry_after: nat,
    reset_after: nat,
    now: u64,
) -> Option<RateLimitHeaders> {
    if now + reset_after / 1_000_000_000 <= u64::MAX {
        Some(
            RateLimitHeaders {
                limit,
                remaining,
                retry_after_seconds: (retry_after / 1_000_000_000) as u64,
                reset_unix_seconds: (now + reset_after / 1_000_000_000) as u64,
            },
        )
    } else {
        None
    }
}

/// What a client is told at `now`, in seconds since the Unix epoch, if the time at which the limit
/// is at hand again can be told.
pub fn build_headers(
    limit: u64,
    remaining: u64,
    retry_after: Duration,
    reset_after: Duration,
    now: u64,
) -> (headers: Option<RateLimitHeaders>)
    ensures
        headers == headers_at(limit, remaining, retry_after@, reset_after@, now),
{
    match now.checked_add(reset_after.as_secs()) {
        Some(reset_unix_seconds) => Some(
            RateLimitHeaders {
                limit,
                remaining,
                retry_after_seconds: retry_after.as_secs(),
                reset_unix_seconds,
            },
        ),
        None => None,
    }
}

/// What becomes of a request of which the client is told `headers`.
pub open spec fn verdict(
    rule_name: String,
    allowed: bool,
    headers: Option<RateLimitHeaders>,
) -> Result<EnforcementResult, LimiterError> {
    match headers {
        None => Err(LimiterError::OutOfRange),
        Some(headers) => if allowed {
            Ok(EnforcementResult::Allowed(AllowedResponse { headers, rule_name }))
        } else {
            Ok(
                EnforcementResult::Throttled(
                    ThrottledResponse {
                        headers,
                        rule_name,
                        queue_disposition: QueueDisposition::NotQueued,
                    },
                ),
            )
        },
    }
}

/// What becomes of a request, at `now`, that left its counter in the given state.
pub open spec fn counter_verdict(
    rule_name: String,
    limit: u64,
    counter: CountModel,
    now: u64,
) -> Result<EnforcementResult, LimiterError> {
    let allowed = counter.current <= limit;
    verdict(
        rule_name,
        allowed,
        headers_at(
            limit,
            if allowed {
                (limit - counter.current) as u64
            } else {
                0
            },
            if allowed {
                0
            } else {
                counter.ttl
            },
            counter.ttl,
            now,
        ),
    )
}

/// What becomes of a request, at `now`, that its counter's answer `reply` is about.
pub open spec fn window_verdict(
    rule_name: String,
    limit: u64,
    reply: Result<CounterState, StoreError>,
    now: u64,
) -> Result<EnforcementResult, LimiterError> {
    match reply {
        Err(error) => Err(LimiterError::Store(error)),
        Ok(counter) => counter_verdict(rule_name, limit, counter@, now),
    }
}

/// What becomes of a request, at `now`, that learned so much of its bucket.
pub open spec fn take_verdict(
    rule_name: String,
    capacity: u64,
    bucket: TakeModel,
    now: u64,
) -> Result<EnforcementResult, LimiterError> {
    verdict(
        rule_name,
        bucket.allowed,
        headers_at(
            capacity,
            bucket.tokens_remaining as u64,
            bucket.retry_after,
            bucket.reset_after,
            now,
        ),
    )
}

/// What becomes of a request, at `now`, that its bucket's answer `reply` is about.
pub open spec fn bucket_verdict(
    rule_name: String,
    capacity: u64,
    reply: Result<TokenBucketState, StoreError>,
    now: u64,
) -> Result<EnforcementResult, LimiterError> {
    match reply {
        Err(error) => Err(LimiterError::Store(error)),
        Ok(bucket) => take_verdict(rule_name, capacity, bucket@, now),
    }
}

/// What becomes of a request of which the client is told `headers`.
fn pass_verdict(rule: &RateLimitRule, allowed: bool, headers: Option<RateLimitHeaders>) -> (r:
    Result<EnforcementResult, LimiterError>)
    ensures
        r == verdict(rule.name, allowed, headers),
{
    match headers {
        None => Err(LimiterError::OutOfRange),
        Some(headers) => if allowed {
            Ok(
                EnforcementResult::Allowed(
                    AllowedResponse { headers, rule_name: rule.name.clone() },
                ),
            )
        } else {
            Ok(
                EnforcementResult::Throttled(
                    ThrottledResponse {
                        headers,
                        rule_name: rule.name.clone(),
                        queue_disposition: QueueDisposition::NotQueued,
                    },
                ),
            )
        },
    }
}

/// What becomes of a request under a fixed-window rule, given the answer of its counter and the
/// time in seconds since the Unix epoch.
pub fn judge_fixed_window(
    rule: &RateLimitRule,
    requests_per_window: u64,
    reply: Result<CounterState, StoreError>,
    now: u64,
) -> (r: Result<EnforcementResult, LimiterError>)
    ensures
        r == window_verdict(rule.name, requests_per_window, reply, now),
{
    match reply {
        Err(error) => Err(LimiterError::from(error)),
        Ok(counter) => {
            let allowed = counter.current <= requests_per_window;
            let remaining: u64 = requests_per_window.saturating_sub(counter.current);
            let retry_after = if allowed {
                Duration::from_secs(0)
            } else {
                counter.ttl
            };
            let headers = build_headers(
                requests_per_window,
                remaining,
                retry_after,
                counter.ttl,
                now,
            );
            pass_verdict(rule, allowed, headers)
        },
    }
}

/// What becomes of a request under a token-bucket rule, given the answer of its bucket and the
/// time in seconds since the Unix epoch.
pub fn judge_token_bucket(
    rule: &RateLimitRule,
    capacity: u64,
    reply: Result<TokenBucketState, StoreError>,
    now: u64,
) -> (r: Result<EnforcementResult, LimiterError>)
    ensures
        r == bucket_verdict(rule.name, capacity, reply, now),
{
    match reply {
        Err(error) => Err(LimiterError::from(error)),
        Ok(bucket) => {
            let headers = build_headers(
                capacity,
                bucket.tokens_remaining,
                bucket.retry_after,
                bucket.reset_after,
                now,
            );
            pass_verdict(rule, bucket.allowed, headers)
        },
    }
}

/// What a store is asked for a request.
#[derive(Debug, PartialEq, Eq)]
pub enum StoreCall {
    /// To count the request under `key`, in windows of length `window`.
    CountWindow { key: String, window: Duration },
    /// For a token from the bucket under `key`.
    TakeToken { key: String, capacity: u64, refill_tokens: u64, refill_interval: Duration },
}

impl StoreCall {
    /// Whether this is what the rule asks a store, at `now`, for a request from `ip`.
    pub open spec fn follows(&self, rule: RateLimitRule, ip: Seq<char>, now: u64) -> bool {
        match rule.algorithm {
            RateLimitAlgorithm::FixedWindow { window, .. } => {
                &&& self matches StoreCall::CountWindow { key, window: asked }
                &&& key@ == fixed_window_key(rule.name@, ip, window@, now as nat)
                &&& *asked == window
            },
            RateLimitAlgorithm::TokenBucket { capacity, refill_tokens, refill_interval } => {
                &&& self matches StoreCall::TakeToken {
                    key,
                    capacity: asked,
                    refill_tokens: tokens,
                    refill_interval: interval,
                }
                &&& key@ == token_bucket_key(rule.name@, ip)
                &&& *asked == capacity
                &&& *tokens == refill_tokens
                &&& *interval == refill_interval
            },
        }
    }
}

/// What the rule asks a store for a request from `ip` at `now`, in seconds since the Unix epoch.
pub fn store_call(rule: &RateLimitRule, ip: &str, now: u64) -> (call: StoreCall)
    ensures
        call.follows(*rule, ip@, now),
{
    match rule.algorithm {
        RateLimitAlgorithm::FixedWindow { window, .. } => StoreCall::CountWindow {
            key: build_fixed_window_key(rule, ip, window, now),
            window,
        },
        RateLimitAlgorithm::TokenBucket { capacity, refill_tokens, refill_interval } => {
            StoreCall::TakeToken {
                key: build_token_bucket_key(rule, ip),
                capacity,
                refill_tokens,
                refill_interval,
            }
        },
    }
}

/// How long the client is to wait, for a request that is over its limit and whose rule has such
/// requests queued.
pub open spec fn to_be_queued(
    rule: RateLimitRule,
    verdict: Result<EnforcementResult, LimiterError>,
) -> Option<u64> {
    match (verdict, rule.behavior) {
        (
            Ok(EnforcementResult::Throttled(throttled)),
            RateLimitBehavior::Queue,
        ) => Some(throttled.headers.retry_after_seconds),
        _ => None,
    }
}

/// The description to be queued of a request at `now`, in seconds since the Unix epoch, if it is
/// over its limit and its rule has such requests queued.
pub fn request_to_queue(
    rule: &RateLimitRule,
    ip: &str,
    method: &str,
    path: &str,
    verdict: &Result<EnforcementResult, LimiterError>,
    now: u64,
) -> (request: Option<ThrottledRequest>)
    ensures
        request is Some <==> to_be_queued(*rule, *verdict) is Some,
        request matches Some(request) ==> request.says(
            rule.name@,
            ip@,
            method@,
            path@,
            now,
            to_be_queued(*rule, *verdict)->0,
        ),
{
    match (verdict, rule.behavior) {
        (Ok(EnforcementResult::Throttled(throttled)), RateLimitBehavior::Queue) => Some(
            ThrottledRequest::queued_at(
                rule.name.clone(),
                ip.to_owned(),
                method.to_owned(),
                path.to_owned(),
                now,
                throttled.headers.retry_after_seconds,
            ),
        ),
        _ => None,
    }
}

/// Whether the description of a request over its limit was queued, given the answer of the queue,
/// if it was asked.
pub open spec fn disposition(reply: Option<Result<(), QueueError>>) -> QueueDisposition {
    match reply {
        None => QueueDisposition::NotQueued,
        Some(Ok(_)) => QueueDisposition::Queued,
        Some(Err(_)) => QueueDisposition::QueueFailed,
    }
}

/// What becomes of a request in the end, given the answer of the queue, if it was asked.
pub open spec fn settled(
    verdict: Result<EnforcementResult, LimiterError>,
    reply: Option<Result<(), QueueError>>,
) -> Result<EnforcementResult, LimiterError> {
    match verdict {
        Ok(EnforcementResult::Throttled(throttled)) => Ok(
            EnforcementResult::Throttled(
                ThrottledResponse {
                    headers: throttled.headers,
                    rule_name: throttled.rule_name,
                    queue_disposition: disposition(reply),
                },
            ),
        ),
        _ => verdict,
    }
}

/// What becomes of a request in the end, given the answer of the queue, if it was asked.
pub fn settle(
    verdict: Result<EnforcementResult, LimiterError>,
    reply: Option<Result<(), QueueError>>,
) -> (r: Result<EnforcementResult, LimiterError>)
    ensures
        r == settled(verdict, reply),
{
    match verdict {
        Ok(EnforcementResult::Throttled(throttled)) => {
            let queue_disposition = match reply {
                None => QueueDisposition::NotQueued,
                Some(Ok(_)) => QueueDisposition::Queued,
                Some(Err(_)) => QueueDisposition::QueueFailed,
            };
            Ok(
                EnforcementResult::Throttled(
                    ThrottledResponse {
                        headers: throttled.headers,
                        rule_name: throttled.rule_name,
                        queue_disposition,
                    },
                ),
            )
        },
        verdict => verdict,
    }
}

/// Asking a store about a request from `ip` under the rule can take the store from `pre` to `post`
/// with `verdict` as what becomes of the request: the system clock is read once for the key and once
/// for what the client is told, in whole seconds.
pub open spec fn may_judge<S: RateLimitStore>(
    rule: RateLimitRule,
    ip: Seq<char>,
    pre: S,
    post: S,
    verdict: Result<EnforcementResult, LimiterError>,
) -> bool {
    match rule.algorithm {
        RateLimitAlgorithm::FixedWindow { requests_per_window, window } => {
            exists|now: u64, reply: Result<CounterState, StoreError>, later: u64|
                {
                    &&& is_unix_second(now)
                    &&& is_unix_second(later)
                    &&& #[trigger] S::may_count(
                        pre,
                        fixed_window_key(rule.name@, ip, window@, now as nat),
                        window,
                        post,
                        reply,
                    )
                    &&& verdict == #[trigger] window_verdict(
                        rule.name,
                        requests_per_window,
                        reply,
                        later,
                    )
                }
        },
        RateLimitAlgorithm::TokenBucket { capacity, refill_tokens, refill_interval } => {
            exists|reply: Result<TokenBucketState, StoreError>, later: u64|
                {
                    &&& is_unix_second(later)
                    &&& #[trigger] S::may_take(
                        pre,
                        token_bucket_key(rule.name@, ip),
                        capacity,
                        refill_tokens,
                        refill_interval,
                        post,
                        reply,
                    )
                    &&& verdict == #[trigger] bucket_verdict(rule.name, capacity, reply, later)
                }
        },
    }
}

/// Queueing the description of a request, if its rule has it queued, can take the queues from
/// `pre` to `post` with `r` as what becomes of the request in the end.
pub open spec fn may_settle<Q: ThrottledRequestQueue>(
    rule: RateLimitRule,
    queue_key: Seq<char>,
    ip: Seq<char>,
    method: Seq<char>,
    path: Seq<char>,
    verdict: Result<EnforcementResult, LimiterError>,
    pre: Q,
    post: Q,
    r: Result<EnforcementResult, LimiterError>,
) -> bool {
    match to_be_queued(rule, verdict) {
        None => {
            &&& r == settled(verdict, None)
            &&& post == pre
        },
        Some(retry_after_seconds) => {
            exists|request: ThrottledRequest, now: u64, reply: Result<(), QueueError>|
                {
                    &&& is_unix_second(now)
                    &&& #[trigger] request.says(
                        rule.name@,
                        ip,
                        method,
                        path,
                        now,
                        retry_after_seconds,
                    )
                    &&& #[trigger] Q::may_enqueue(pre, queue_key, request, post, reply)
                    &&& r == settled(verdict, Some(reply))
                }
        },
    }
}

/// Checking a request from `ip` with the method and the path can take a store and queues from one
/// state to another with `r` as what becomes of the request.
pub open spec fn may_check<S: RateLimitStore, Q: ThrottledRequestQueue>(
    config: RateLimitConfig,
    ip: Seq<char>,
    method: Seq<char>,
    path: Seq<char>,
    store: S,
    store_after: S,
    queue: Q,
    queue_after: Q,
    r: Result<EnforcementResult, LimiterError>,
) -> bool {
    match config.rule_for(method, path) {
        None => {
            &&& r == Ok::<EnforcementResult, LimiterError>(EnforcementResult::NotConfigured)
            &&& store_after == store
            &&& queue_after == queue
        },
        Some(rule) => {
            exists|verdict: Result<EnforcementResult, LimiterError>|
                {
                    &&& #[trigger] may_judge(rule, ip, store, store_after, verdict)
                    &&& may_settle(
                        rule,
                        config.queue_key@,
                        ip,
                        method,
                        path,
                        verdict,
                        queue,
                        queue_after,
                        r,
                    )
                }
        },
    }
}

/// The rules of a service with the store for its counters and buckets and the queues for requests
/// over their limits.
pub struct RateLimiter<S, Q> {
    config: RateLimitConfig,
    store: S,
    queue: Q,
}

impl<S: RateLimitStore, Q: ThrottledRequestQueue> RateLimiter<S, Q> {
    /// The configuration.
    pub closed spec fn configuration(&self) -> RateLimitConfig {
        self.config
    }

    /// The store.
    pub closed spec fn stored(&self) -> S {
        self.store
    }

    /// The queues.
    pub closed spec fn queued(&self) -> Q {
        self.queue
    }

    /// A limiter that goes by the configuration.
    pub fn new(config: RateLimitConfig, store: S, queue: Q) -> (limiter: RateLimiter<S, Q>)
        ensures
            limiter.configuration() == config,
            limiter.stored() == store,
            limiter.queued() == queue,
    {
        RateLimiter { config, store, queue }
    }

    /// The configuration.
    pub fn config(&self) -> (config: &RateLimitConfig)
        ensures
            *config == self.configuration(),
    {
        &self.config
    }

    /// The store.
    pub fn store(&self) -> (store: &S)
        ensures
            *store == self.stored(),
    {
        &self.store
    }

    /// The queues.
    pub fn queue(&self) -> (queue: &Q)
        ensures
            *queue == self.queued(),
    {
        &self.queue
    }

    /// Holds a request from `ip`, with the method and the path, against the limit of the rule that
    /// applies to it.
    pub fn check_ip(&mut self, ip: &str, method: &str, path: &str) -> (r: Result<
        EnforcementResult,
        LimiterError,
    >)
        requires
            old(self).stored().valid(),
        ensures
            final(self).stored().valid(),
            final(self).configuration() == old(self).configuration(),
            may_check(
                old(self).configuration(),
                ip@,
                method@,
                path@,
                old(self).stored(),
                final(self).stored(),
                old(self).queued(),
                final(self).queued(),
                r,
            ),
    {
        let rule = match self.config.find_rule(method, path) {
            Some(rule) => rule,
            None => {
                return Ok(EnforcementResult::NotConfigured);
            },
        };
        let verdict = match store_call(rule, ip, unix_timestamp_seconds()) {
            StoreCall::CountWindow { key, window } => {
                let reply = self.store.increment_fixed_window(key.as_str(), window);
                judge_fixed_window(rule, rule.algorithm.limit(), reply, unix_timestamp_seconds())
            },
            StoreCall::TakeToken { key, capacity, refill_tokens, refill_interval } => {
                let reply = self.store.take_token_from_bucket(
                    key.as_str(),
                    capacity,
                    refill_tokens,
                    refill_interval,
                );
                judge_token_bucket(rule, capacity, reply, unix_timestamp_seconds())
            },
        };
        assert(may_judge(*rule, ip@, old(self).store, self.store, verdict));
        let request = request_to_queue(
            rule,
            ip,
            method,
            path,
            &verdict,
            unix_timestamp_seconds(),
        );
        let reply = match request {
            Some(request) => Some(self.queue.enqueue(self.config.queue_key.as_str(), request)),
            None => None,
        };
        settle(verdict, reply)
    }
}

} // verus!
