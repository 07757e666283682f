use actix_web::http::header::{HeaderMap, HeaderName, HeaderValue};
use rate_limiter_sdi::config::{
    RateLimitAlgorithm, RateLimitBehavior, RateLimitConfig, RateLimitRule,
};
use rate_limiter_sdi::limiter::{EnforcementResult, LimiterError, RateLimitHeaders, RateLimiter};
use rate_limiter_sdi::middleware::{insert_header, insert_headers, respond, Action, HeaderError};
use rate_limiter_sdi::queue::InMemoryThrottledRequestQueue;
use rate_limiter_sdi::store::{InMemoryCounterStore, StoreError};
use rate_limiter_sdi::time::Duration;

fn value<'a>(map: &'a HeaderMap, name: &str) -> &'a str {
    map.get(name).unwrap().to_str().unwrap()
}

#[test]
fn middleware_throttles_second_request_and_enqueues_it() {
    let mut limiter = RateLimiter::new(
        RateLimitConfig {
            rules: vec![RateLimitRule {
                name: "status".to_string(),
                path: Some("/status".to_string()),
                methods: vec!["GET".to_string()],
                algorithm: RateLimitAlgorithm::TokenBucket {
                    capacity: 1,
                    refill_tokens: 1,
                    refill_interval: Duration::from_secs(60),
                },
                behavior: RateLimitBehavior::Queue,
            }],
            queue_key: "queue".to_string(),
        },
        InMemoryCounterStore::default(),
        InMemoryThrottledRequestQueue::default(),
    );

    let first = respond(Some(limiter.check_ip("203.0.113.10", "GET", "/status")));
    match first {
        Action::ForwardWithHeaders(headers) => {
            assert_eq!(headers.limit, 1);
            assert_eq!(headers.remaining, 0);
            assert_eq!(headers.retry_after_seconds, 0);
        }
        other => panic!("unexpected action: {other:?}"),
    }

    let second = respond(Some(limiter.check_ip("203.0.113.10", "GET", "/status")));
    match second {
        Action::Reject { status, body, headers } => {
            assert_eq!(status, 429);
            assert_eq!(body.message, "request was rate limited");
            assert_eq!(body.rule_name, "status");
            assert!(body.queued);
            assert!(!body.queue_failed);
            assert_eq!(body.retry_after_seconds, headers.retry_after_seconds);
        }
        other => panic!("unexpected action: {other:?}"),
    }
    assert_eq!(limiter.queue().len(), 1);
}

#[test]
fn services_fail_open() {
    assert_eq!(respond(None), Action::Forward);
    assert_eq!(respond(Some(Ok(EnforcementResult::NotConfigured))), Action::Forward);
    assert_eq!(
        respond(Some(Err(LimiterError::Store(StoreError::Redis("gone".to_string()))))),
        Action::FailOpen(
            "rate limiter degraded to fail-open mode: counter store error: redis store error: gone"
                .to_string()
        )
    );
}

#[test]
fn clients_are_told_of_their_limit() {
    let mut map = HeaderMap::new();
    map.insert(HeaderName::from_static("server"), HeaderValue::from_static("demo"));
    map.append(HeaderName::from_static("x-ratelimit-limit"), HeaderValue::from_static("1"));
    map.append(HeaderName::from_static("x-ratelimit-limit"), HeaderValue::from_static("2"));
    let headers = RateLimitHeaders {
        limit: 30,
        remaining: 0,
        retry_after_seconds: 7,
        reset_unix_seconds: u64::MAX,
    };
    assert_eq!(insert_headers(&mut map, &headers), Ok(()));
    assert_eq!(map.len(), 5);
    assert_eq!(value(&map, "server"), "demo");
    assert_eq!(value(&map, "x-ratelimit-limit"), "30");
    assert_eq!(value(&map, "x-ratelimit-remaining"), "0");
    assert_eq!(value(&map, "x-ratelimit-retry-after"), "7");
    assert_eq!(value(&map, "x-ratelimit-reset"), "18446744073709551615");
}

#[test]
fn names_and_values_of_header_fields_are_checked() {
    let mut map = HeaderMap::new();
    for name in ["", "X-Upper", "with space", "colon:", "\u{e4}"] {
        assert_eq!(insert_header(&mut map, name, "v"), Err(HeaderError::InvalidName), "{name}");
    }
    for text in ["\n", "a\u{7f}", "\0"] {
        assert_eq!(insert_header(&mut map, "x-a", text), Err(HeaderError::InvalidValue));
    }
    assert!(map.is_empty());
    assert_eq!(insert_header(&mut map, "x-a", "tab\tand \u{e4}"), Ok(()));
    assert_eq!(map.get("x-a").unwrap().as_bytes(), "tab\tand \u{e4}".as_bytes());
    assert_eq!(insert_header(&mut map, "!\"#$%&'*+-.^_`|~09az", ""), Ok(()));
}

#[test]
fn bytes_of_lower_case_names_are_those_that_the_header_type_takes() {
    for byte in 0..=255_u8 {
        let taken = HeaderName::from_lowercase(&[byte]).is_ok();
        let expected = matches!(byte, 33..=39 | 42..=43 | 45..=46 | 48..=57 | 94..=122 | 124 | 126);
        assert_eq!(taken, expected, "{byte}");
    }
}
