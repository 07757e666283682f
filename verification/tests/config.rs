use rate_limiter_sdi::config::{
    default_behavior, default_queue_key, ConfigError, RateLimitAlgorithm, RateLimitBehavior,
    RateLimitConfig, RateLimitRule,
};
use rate_limiter_sdi::time::Duration;

#[test]
fn rule_matching_respects_method_and_path() {
    let rule = RateLimitRule {
        name: "login".to_string(),
        path: Some("/login".to_string()),
        methods: vec!["POST".to_string()],
        algorithm: RateLimitAlgorithm::TokenBucket {
            capacity: 5,
            refill_tokens: 1,
            refill_interval: Duration::from_secs(1),
        },
        behavior: RateLimitBehavior::Queue,
    };

    assert!(rule.matches("POST", "/login"));
    assert!(!rule.matches("GET", "/login"));
    assert!(!rule.matches("POST", "/signup"));
}

#[test]
fn config_finds_first_matching_rule() {
    let config = RateLimitConfig {
        rules: vec![RateLimitRule {
            name: "global".to_string(),
            path: Some("/status".to_string()),
            methods: vec!["GET".to_string()],
            algorithm: RateLimitAlgorithm::FixedWindow {
                requests_per_window: 10,
                window: Duration::from_secs(1),
            },
            behavior: RateLimitBehavior::Block,
        }],
        queue_key: "queue".to_string(),
    };

    let rule = config.find_rule("GET", "/status").unwrap();
    assert_eq!(rule.name, "global");
}

fn window(requests_per_window: u64, secs: u64) -> RateLimitAlgorithm {
    RateLimitAlgorithm::FixedWindow { requests_per_window, window: Duration::from_secs(secs) }
}

fn bucket(capacity: u64, refill_tokens: u64, secs: u64) -> RateLimitAlgorithm {
    RateLimitAlgorithm::TokenBucket {
        capacity,
        refill_tokens,
        refill_interval: Duration::from_secs(secs),
    }
}

fn rule(name: &str, path: Option<&str>, methods: &[&str], algorithm: RateLimitAlgorithm) -> RateLimitRule {
    RateLimitRule {
        name: name.to_string(),
        path: path.map(|p| p.to_string()),
        methods: methods.iter().map(|m| m.to_string()).collect(),
        algorithm,
        behavior: RateLimitBehavior::Block,
    }
}

fn config(rules: Vec<RateLimitRule>) -> RateLimitConfig {
    RateLimitConfig { rules, queue_key: "queue".to_string() }
}

fn reason(checked: Result<(), ConfigError>) -> String {
    match checked {
        Err(ConfigError::Validation(reason)) => reason,
        other => panic!("unexpected result: {other:?}"),
    }
}

#[test]
fn limit_is_what_passes_at_once() {
    assert_eq!(window(7, 60).limit(), 7);
    assert_eq!(bucket(9, 2, 60).limit(), 9);
}

#[test]
fn algorithms_are_validated_number_by_number() {
    assert_eq!(window(1, 1).validate("r"), Ok(()));
    assert_eq!(bucket(1, 1, 1).validate("r"), Ok(()));
    assert_eq!(
        reason(window(0, 0).validate("login")),
        "rule 'login' must allow at least one request"
    );
    assert_eq!(reason(window(1, 0).validate("login")), "rule 'login' must have a non-zero window");
    assert_eq!(
        reason(bucket(0, 0, 0).validate("status")),
        "rule 'status' must have a token bucket capacity greater than zero"
    );
    assert_eq!(
        reason(bucket(1, 0, 0).validate("status")),
        "rule 'status' must refill at least one token"
    );
    assert_eq!(
        reason(bucket(1, 1, 0).validate("status")),
        "rule 'status' must have a non-zero refill interval"
    );
}

#[test]
fn configurations_are_validated_rule_by_rule() {
    assert_eq!(reason(config(vec![]).validate()), "at least one rate-limit rule is required");
    assert_eq!(
        reason(config(vec![rule("", None, &[], window(0, 1))]).validate()),
        "rule name must not be empty"
    );
    assert_eq!(
        reason(config(vec![rule(" \t\u{2003}", None, &[], window(1, 1))]).validate()),
        "rule name must not be empty"
    );
    assert_eq!(
        reason(
            config(vec![
                rule("a", None, &[], window(1, 1)),
                rule("b", None, &[], window(0, 1)),
                rule("", None, &[], window(1, 1)),
            ])
            .validate()
        ),
        "rule 'b' must allow at least one request"
    );
    assert_eq!(config(vec![rule(" a ", None, &[], bucket(1, 1, 1))]).validate(), Ok(()));
}

#[test]
fn methods_match_in_any_case_and_none_stands_for_any() {
    let listed = rule("r", Some("/p"), &["GET", "Put"], window(1, 1));
    assert!(listed.matches("get", "/p"));
    assert!(listed.matches("PUT", "/p"));
    assert!(!listed.matches("GE", "/p"));
    assert!(!listed.matches("GET", "/P"));
    assert!(!listed.matches("GET", "/p/"));
    let any = rule("r", None, &[], window(1, 1));
    assert!(any.matches("PATCH", "/whatever"));
    assert!(any.matches("", ""));
}

#[test]
fn first_matching_rule_wins() {
    let config = config(vec![
        rule("login", Some("/login"), &["POST"], window(1, 1)),
        rule("all", None, &[], window(2, 1)),
        rule("late", Some("/status"), &["GET"], window(3, 1)),
    ]);
    assert_eq!(config.find_rule("post", "/login").unwrap().name, "login");
    assert_eq!(config.find_rule("GET", "/login").unwrap().name, "all");
    assert_eq!(config.find_rule("GET", "/status").unwrap().name, "all");
    let narrow = RateLimitConfig { rules: config.rules[..1].to_vec(), queue_key: String::new() };
    assert!(narrow.find_rule("GET", "/login").is_none());
}

#[test]
fn defaults_block_and_name_a_queue() {
    assert_eq!(default_behavior(), RateLimitBehavior::Block);
    assert_eq!(default_queue_key(), "ratelimiter:throttled");
}

#[test]
fn config_errors_in_words() {
    let read = ConfigError::ReadFile {
        path: "limits.yaml".to_string(),
        source: "no such file".to_string(),
    };
    assert_eq!(read.message(), "failed to read config file limits.yaml: no such file");
    assert_eq!(
        ConfigError::ParseYaml("bad indent".to_string()).message(),
        "failed to parse yaml config: bad indent"
    );
    assert_eq!(
        ConfigError::Validation("no rule".to_string()).message(),
        "config validation failed: no rule"
    );
}
