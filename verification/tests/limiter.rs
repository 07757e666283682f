use rate_limiter_sdi::config::{
    RateLimitAlgorithm, RateLimitBehavior, RateLimitConfig, RateLimitRule,
};
use rate_limiter_sdi::limiter::{
    build_fixed_window_key, build_headers, build_token_bucket_key, judge_fixed_window,
    judge_token_bucket, request_to_queue, settle, store_call, AllowedResponse, EnforcementResult,
    LimiterError, QueueDisposition, RateLimitHeaders, RateLimiter, StoreCall, ThrottledResponse,
};
use rate_limiter_sdi::queue::{InMemoryThrottledRequestQueue, QueueError, ThrottledRequest, ThrottledRequestQueue};
use rate_limiter_sdi::store::{CounterState, InMemoryCounterStore, StoreError, TokenBucketState};
use rate_limiter_sdi::time::Duration;

fn login_rule(behavior: RateLimitBehavior) -> RateLimitRule {
    RateLimitRule {
        name: "login".to_string(),
        path: Some("/login".to_string()),
        methods: vec!["POST".to_string()],
        algorithm: RateLimitAlgorithm::FixedWindow {
            requests_per_window: 1,
            window: Duration::from_secs(60),
        },
        behavior,
    }
}

fn status_rule() -> RateLimitRule {
    RateLimitRule {
        name: "status".to_string(),
        path: Some("/status".to_string()),
        methods: vec!["GET".to_string()],
        algorithm: RateLimitAlgorithm::TokenBucket {
            capacity: 1,
            refill_tokens: 1,
            refill_interval: Duration::from_secs(60),
        },
        behavior: RateLimitBehavior::Queue,
    }
}

fn limiter(rule: RateLimitRule) -> RateLimiter<InMemoryCounterStore, InMemoryThrottledRequestQueue> {
    RateLimiter::new(
        RateLimitConfig { rules: vec![rule], queue_key: "queue".to_string() },
        InMemoryCounterStore::default(),
        InMemoryThrottledRequestQueue::default(),
    )
}

#[test]
fn fixed_window_limiter_allows_first_request_and_queues_second() {
    // A minute that ends between the two requests parts them, so that they may have to be made anew.
    for _ in 0..3 {
        let mut limiter = limiter(login_rule(RateLimitBehavior::Queue));
        let before = rate_limiter_sdi::time::unix_timestamp_seconds() / 60;
        let first = limiter.check_ip("127.0.0.1", "POST", "/login").unwrap();
        let second = limiter.check_ip("127.0.0.1", "POST", "/login").unwrap();
        if rate_limiter_sdi::time::unix_timestamp_seconds() / 60 != before {
            continue;
        }

        assert!(matches!(first, EnforcementResult::Allowed(_)));

        match second {
            EnforcementResult::Throttled(result) => {
                assert_eq!(result.queue_disposition, QueueDisposition::Queued);
            }
            other => panic!("unexpected result: {other:?}"),
        }

        assert_eq!(limiter.queue().len(), 1);
        return;
    }
    panic!("the minute ended three times");
}

#[test]
fn token_bucket_limiter_throttles_after_capacity_is_spent() {
    let mut limiter = limiter(status_rule());

    let first = limiter.check_ip("127.0.0.1", "GET", "/status").unwrap();
    let second = limiter.check_ip("127.0.0.1", "GET", "/status").unwrap();

    assert!(matches!(first, EnforcementResult::Allowed(_)));

    match second {
        EnforcementResult::Throttled(result) => {
            assert_eq!(result.queue_disposition, QueueDisposition::Queued);
            assert_eq!(result.headers.limit, 1);
            assert_eq!(result.headers.remaining, 0);
        }
        other => panic!("unexpected result: {other:?}"),
    }

    assert_eq!(limiter.queue().len(), 1);
}

#[test]
fn clients_have_limits_of_their_own() {
    let mut limiter = limiter(status_rule());
    for ip in ["10.0.0.1", "10.0.0.2", "::1"] {
        assert!(matches!(
            limiter.check_ip(ip, "GET", "/status"),
            Ok(EnforcementResult::Allowed(_))
        ));
    }
    assert!(matches!(
        limiter.check_ip("10.0.0.2", "GET", "/status"),
        Ok(EnforcementResult::Throttled(_))
    ));
    let (key, request) = limiter.queue().get(0).unwrap();
    assert_eq!(key, "queue");
    assert_eq!(request.rule_name, "status");
    assert_eq!(request.ip_address, "10.0.0.2");
    assert_eq!(request.method, "GET");
    assert_eq!(request.path, "/status");
    assert!(request.retry_after_seconds == 59 || request.retry_after_seconds == 60);
}

#[test]
fn requests_without_a_rule_are_not_limited() {
    let mut limiter = limiter(status_rule());
    for _ in 0..3 {
        assert_eq!(
            limiter.check_ip("10.0.0.1", "POST", "/status"),
            Ok(EnforcementResult::NotConfigured)
        );
    }
    assert!(limiter.queue().is_empty());
    assert_eq!(limiter.config().rules[0], status_rule());
}

#[test]
fn keys_name_rule_client_and_window() {
    let rule = login_rule(RateLimitBehavior::Block);
    let window = Duration::from_secs(60);
    assert_eq!(
        build_fixed_window_key(&rule, "127.0.0.1", window, 1_700_000_039),
        "rl:login:127.0.0.1:1699999980"
    );
    assert_eq!(
        build_fixed_window_key(&rule, "127.0.0.1", window, 1_700_000_040),
        "rl:login:127.0.0.1:1700000040"
    );
    assert_eq!(
        build_fixed_window_key(&rule, "::1", Duration::from_millis(900), 17),
        "rl:login:::1:17"
    );
    assert_eq!(build_token_bucket_key(&rule, "127.0.0.1"), "rl:login:127.0.0.1");
}

#[test]
fn stores_are_asked_what_the_algorithm_says() {
    assert_eq!(
        store_call(&login_rule(RateLimitBehavior::Block), "1.2.3.4", 61),
        StoreCall::CountWindow {
            key: "rl:login:1.2.3.4:60".to_string(),
            window: Duration::from_secs(60),
        }
    );
    assert_eq!(
        store_call(&status_rule(), "1.2.3.4", 61),
        StoreCall::TakeToken {
            key: "rl:status:1.2.3.4".to_string(),
            capacity: 1,
            refill_tokens: 1,
            refill_interval: Duration::from_secs(60),
        }
    );
}

#[test]
fn headers_are_in_whole_seconds() {
    assert_eq!(
        build_headers(5, 2, Duration::from_millis(2999), Duration::from_millis(4001), 100),
        Some(RateLimitHeaders {
            limit: 5,
            remaining: 2,
            retry_after_seconds: 2,
            reset_unix_seconds: 104,
        })
    );
    assert_eq!(
        build_headers(5, 2, Duration::from_secs(0), Duration::from_secs(1), u64::MAX),
        None
    );
}

#[test]
fn windows_admit_up_to_their_limit() {
    let rule = login_rule(RateLimitBehavior::Block);
    let ttl = Duration::from_secs(9);
    for current in 1..=5 {
        let result = judge_fixed_window(&rule, 3, Ok(CounterState { current, ttl }), 1000).unwrap();
        let headers = RateLimitHeaders {
            limit: 3,
            remaining: 3_u64.saturating_sub(current),
            retry_after_seconds: if current > 3 { 9 } else { 0 },
            reset_unix_seconds: 1009,
        };
        if current <= 3 {
            assert_eq!(
                result,
                EnforcementResult::Allowed(AllowedResponse { headers, rule_name: "login".to_string() })
            );
        } else {
            assert_eq!(
                result,
                EnforcementResult::Throttled(ThrottledResponse {
                    headers,
                    rule_name: "login".to_string(),
                    queue_disposition: QueueDisposition::NotQueued,
                })
            );
        }
    }
}

#[test]
fn failures_of_stores_are_reported() {
    let rule = status_rule();
    assert_eq!(
        judge_fixed_window(&rule, 3, Err(StoreError::LockPoisoned), 1),
        Err(LimiterError::Store(StoreError::LockPoisoned))
    );
    assert_eq!(
        judge_token_bucket(&rule, 3, Err(StoreError::OutOfRange), 1),
        Err(LimiterError::Store(StoreError::OutOfRange))
    );
    let far = TokenBucketState {
        allowed: true,
        tokens_remaining: 1,
        retry_after: Duration::from_secs(0),
        reset_after: Duration::from_secs(u64::MAX),
    };
    assert_eq!(judge_token_bucket(&rule, 3, Ok(far), 1), Err(LimiterError::OutOfRange));
    assert!(judge_token_bucket(&rule, 3, Ok(far), 0).is_ok());
}

fn throttled() -> Result<EnforcementResult, LimiterError> {
    judge_token_bucket(
        &status_rule(),
        1,
        Ok(TokenBucketState {
            allowed: false,
            tokens_remaining: 0,
            retry_after: Duration::from_secs(7),
            reset_after: Duration::from_secs(8),
        }),
        1000,
    )
}

fn disposition(result: Result<EnforcementResult, LimiterError>) -> QueueDisposition {
    match result {
        Ok(EnforcementResult::Throttled(throttled)) => throttled.queue_disposition,
        other => panic!("unexpected result: {other:?}"),
    }
}

#[test]
fn only_throttled_requests_of_queueing_rules_are_queued() {
    let queueing = status_rule();
    let request = request_to_queue(&queueing, "1.2.3.4", "GET", "/status", &throttled(), 1001).unwrap();
    assert_eq!(
        request,
        ThrottledRequest {
            rule_name: "status".to_string(),
            ip_address: "1.2.3.4".to_string(),
            method: "GET".to_string(),
            path: "/status".to_string(),
            queued_at_unix_seconds: 1001,
            retry_after_seconds: 7,
        }
    );
    let mut blocking = status_rule();
    blocking.behavior = RateLimitBehavior::Block;
    assert_eq!(request_to_queue(&blocking, "1.2.3.4", "GET", "/status", &throttled(), 1001), None);
    let allowed = judge_fixed_window(
        &queueing,
        3,
        Ok(CounterState { current: 1, ttl: Duration::from_secs(1) }),
        1,
    );
    assert_eq!(request_to_queue(&queueing, "1.2.3.4", "GET", "/status", &allowed, 1001), None);
    let failed = Err(LimiterError::OutOfRange);
    assert_eq!(request_to_queue(&queueing, "1.2.3.4", "GET", "/status", &failed, 1001), None);
}

#[test]
fn clients_are_told_whether_they_are_queued() {
    assert_eq!(disposition(settle(throttled(), None)), QueueDisposition::NotQueued);
    assert_eq!(disposition(settle(throttled(), Some(Ok(())))), QueueDisposition::Queued);
    assert_eq!(
        disposition(settle(throttled(), Some(Err(QueueError::Redis("gone".to_string()))))),
        QueueDisposition::QueueFailed
    );
    assert_eq!(
        settle(Ok(EnforcementResult::NotConfigured), Some(Ok(()))),
        Ok(EnforcementResult::NotConfigured)
    );
}

#[test]
fn queues_keep_their_order() {
    let mut queue = InMemoryThrottledRequestQueue::new();
    for i in 0..3_u64 {
        let request = ThrottledRequest::queued_at(
            "r".to_string(),
            "ip".to_string(),
            "GET".to_string(),
            "/".to_string(),
            i,
            0,
        );
        queue.enqueue(if i == 1 { "b" } else { "a" }, request).unwrap();
    }
    assert_eq!(queue.len(), 3);
    for i in 0..3_usize {
        let (key, request) = queue.get(i).unwrap();
        assert_eq!(key, if i == 1 { "b" } else { "a" });
        assert_eq!(request.queued_at_unix_seconds, i as u64);
    }
    assert!(queue.get(3).is_none());
}

#[test]
fn new_descriptions_bear_the_present_time() {
    let before = rate_limiter_sdi::time::unix_timestamp_seconds();
    let request = ThrottledRequest::new(
        "r".to_string(),
        "ip".to_string(),
        "GET".to_string(),
        "/".to_string(),
        5,
    );
    let after = rate_limiter_sdi::time::unix_timestamp_seconds();
    assert!(before <= request.queued_at_unix_seconds && request.queued_at_unix_seconds <= after);
    assert_eq!(request.retry_after_seconds, 5);
    assert_eq!(request.rule_name, "r");
}

#[test]
fn limiter_errors_in_words() {
    assert_eq!(
        LimiterError::from(StoreError::LockPoisoned).message(),
        "counter store error: in-memory store lock poisoned"
    );
    assert_eq!(
        LimiterError::from(QueueError::Serialize("no".to_string())).message(),
        "queue error: failed to serialize queued request: no"
    );
    assert_eq!(
        LimiterError::Queue(QueueError::Redis("gone".to_string())).message(),
        "queue error: redis queue error: gone"
    );
    assert_eq!(LimiterError::OutOfRange.message(), "reset time out of range");
}

#[test]
fn clients_are_held_to_their_limit_in_each_window() {
    let mut store = InMemoryCounterStore::new();
    let rule = login_rule(RateLimitBehavior::Block);
    let window = Duration::from_secs(60);
    let mut admitted = [0; 4];
    for second in 0..200_u64 {
        for ip in ["10.0.0.1", "10.0.0.2"] {
            let key = build_fixed_window_key(&rule, ip, window, 30 + second);
            let reply = store.increment_fixed_window_at(&key, window, Duration::from_secs(second));
            let result = judge_fixed_window(&rule, 7, reply, 30 + second).unwrap();
            if ip == "10.0.0.1" && matches!(result, EnforcementResult::Allowed(_)) {
                admitted[((30 + second) / 60) as usize] += 1;
            }
        }
    }
    assert_eq!(admitted, [7, 7, 7, 7]);
}

#[test]
fn keys_differ_by_client_window_and_rule() {
    let login = login_rule(RateLimitBehavior::Block);
    let status = status_rule();
    let window = Duration::from_secs(60);
    let key = build_fixed_window_key(&login, "10.0.0.1", window, 0);
    assert_eq!(build_fixed_window_key(&login, "10.0.0.1", window, 59), key);
    assert_ne!(build_fixed_window_key(&login, "10.0.0.1", window, 60), key);
    assert_ne!(build_fixed_window_key(&login, "10.0.0.11", window, 0), key);
    assert_ne!(build_fixed_window_key(&status, "10.0.0.1", window, 0), key);
    assert_ne!(
        build_token_bucket_key(&login, "10.0.0.1"),
        build_token_bucket_key(&login, "10.0.0.2")
    );
    assert_ne!(
        build_token_bucket_key(&login, "10.0.0.1"),
        build_token_bucket_key(&status, "10.0.0.1")
    );
}

/// What becomes of requests to two rules, of those clients alone, at given readings of the clocks.
fn results(clients: &[&str], wanted: &str) -> Vec<EnforcementResult> {
    let mut store = InMemoryCounterStore::new();
    let login = login_rule(RateLimitBehavior::Block);
    let status = status_rule();
    let mut results = Vec::new();
    for step in 0..150_u64 {
        for ip in clients {
            for rule in [&login, &status] {
                let now = Duration::from_secs(step);
                let verdict = match store_call(rule, ip, 1000 + step) {
                    StoreCall::CountWindow { key, window } => {
                        let reply = store.increment_fixed_window_at(&key, window, now);
                        judge_fixed_window(rule, rule.algorithm.limit(), reply, 1000 + step)
                    }
                    StoreCall::TakeToken { key, capacity, refill_tokens, refill_interval } => {
                        let reply = store.take_token_from_bucket_at(
                            &key,
                            capacity,
                            refill_tokens,
                            refill_interval,
                            now,
                        );
                        judge_token_bucket(rule, capacity, reply, 1000 + step)
                    }
                };
                if *ip == wanted {
                    results.push(verdict.unwrap());
                }
            }
        }
    }
    results
}

#[test]
fn clients_do_not_affect_each_other() {
    let alone = results(&["10.0.0.1"], "10.0.0.1");
    assert_eq!(results(&["10.0.0.2", "10.0.0.1", "::1"], "10.0.0.1"), alone);
    assert!(alone.iter().any(|r| matches!(r, EnforcementResult::Allowed(_))));
    assert!(alone.iter().any(|r| matches!(r, EnforcementResult::Throttled(_))));
}

/// The limit and what remains of it, for a request within its limit or over it.
fn told(result: &EnforcementResult) -> (bool, u64, u64) {
    match result {
        EnforcementResult::Allowed(allowed) => (true, allowed.headers.limit, allowed.headers.remaining),
        EnforcementResult::Throttled(throttled) => {
            (false, throttled.headers.limit, throttled.headers.remaining)
        }
        EnforcementResult::NotConfigured => panic!("a rule applies"),
    }
}

#[test]
fn first_requests_of_a_window_pass_and_no_others() {
    let mut store = InMemoryCounterStore::new();
    let rule = login_rule(RateLimitBehavior::Block);
    let window = Duration::from_secs(60);
    for i in 0..30_u64 {
        for ip in ["10.0.0.1", "10.0.0.2"] {
            let key = build_fixed_window_key(&rule, ip, window, 600 + 2 * i);
            let reply = store.increment_fixed_window_at(&key, window, Duration::from_secs(2 * i));
            let result = judge_fixed_window(&rule, 4, reply, 600 + 2 * i).unwrap();
            assert_eq!(told(&result), (i < 4, 4, 3_u64.saturating_sub(i)));
        }
    }
}

#[test]
fn first_requests_of_an_interval_get_the_tokens_and_no_others() {
    let mut store = InMemoryCounterStore::new();
    let rule = status_rule();
    for i in 0..30_u64 {
        for ip in ["10.0.0.1", "10.0.0.2"] {
            let key = build_token_bucket_key(&rule, ip);
            let interval = Duration::from_secs(60);
            let now = Duration::from_secs(7 + 2 * i);
            let reply = store.take_token_from_bucket_at(&key, 4, 2, interval, now);
            let result = judge_token_bucket(&rule, 4, reply, 600 + 2 * i).unwrap();
            assert_eq!(told(&result), (i < 4, 4, 3_u64.saturating_sub(i)));
        }
    }
}
