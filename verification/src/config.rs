//! Rate-limit rules: which requests they apply to, how they limit them, and when they make sense.

use crate::text::{
    blank, eq_ignore_ascii_case, equal_ignoring_ascii_case, is_blank, same_text,
};
use crate::time::Duration;
use vstd::prelude::*;

verus! {

/// Why a configuration could not be loaded.
#[derive(Debug, PartialEq, Eq)]
pub enum ConfigError {
    /// The file at `path` could not be read, for the reason given.
    ReadFile { path: String, source: String },
    /// The text is no YAML form of a configuration, for the reason given.
    ParseYaml(String),
    /// The configuration makes no sense, for the reason given.
    Validation(String),
}

impl ConfigError {
    /// The error in words.
    pub open spec fn text(&self) -> Seq<char> {
        match self {
            ConfigError::ReadFile { path, source } => "failed to read config file "@ + path@ + ": "@
                + source@,
            ConfigError::ParseYaml(reason) => "failed to parse yaml config: "@ + reason@,
            ConfigError::Validation(reason) => "config validation failed: "@ + reason@,
        }
    }

    /// The error in words.
    pub fn message(&self) -> (s: String)
        ensures
            s@ == self.text(),
    {
        match self {
            ConfigError::ReadFile { path, source } => {
                let mut s = "failed to read config file ".to_owned();
                s.append(path.as_str());
                s.append(": ");
                s.append(source.as_str());
                s
            },
            ConfigError::ParseYaml(reason) => {
                let mut s = "failed to parse yaml config: ".to_owned();
                s.append(reason.as_str());
                s
            },
            ConfigError::Validation(reason) => {
                let mut s = "config validation failed: ".to_owned();
                s.append(reason.as_str());
                s
            },
        }
    }
}

/// Whether a validation ended as it must: well where there is no problem, and with the problem as
/// its reason otherwise.
pub open spec fn reports(r: Result<(), ConfigError>, problem: Option<Seq<char>>) -> bool {
    match r {
        Ok(_) => problem is None,
        Err(ConfigError::Validation(reason)) => problem == Some(reason@),
        Err(_) => false,
    }
}

/// What becomes of a request that is over the limit, beside being refused.
#[derive(Debug, Clone, Copy, PartialEq, Eq, Structural)]
pub enum RateLimitBehavior {
    /// Nothing.
    Block,
    /// A description of it is queued.
    Queue,
}

/// How requests are limited.
#[derive(Debug, Clone, Copy, PartialEq, Eq, Structural)]
pub enum RateLimitAlgorithm {
    /// So many requests in each window of time.
    FixedWindow { requests_per_window: u64, window: Duration },
    /// A token for each request, from a bucket that is refilled at regular intervals.
    TokenBucket { capacity: u64, refill_tokens: u64, refill_interval: Duration },
}

/// A complaint about a rule.
pub open spec fn complaint(rule_name: Seq<char>, fault: Seq<char>) -> Seq<char> {
    "rule '"@ + rule_name + "' "@ + fault
}

/// The validation error with a complaint about a rule.
fn complain(rule_name: &str, fault: &str) -> (e: ConfigError)
    ensures
        e matches ConfigError::Validation(reason) && reason@ == complaint(rule_name@, fault@),
{
    let mut reason = "rule '".to_owned();
    reason.append(rule_name);
    reason.append("' ");
    reason.append(fault);
    ConfigError::Validation(reason)
}

impl RateLimitAlgorithm {
    /// How many requests pass at once.
    pub open spec fn burst(&self) -> u64 {
        match self {
            RateLimitAlgorithm::FixedWindow { requests_per_window, .. } => *requests_per_window,
            RateLimitAlgorithm::TokenBucket { capacity, .. } => *capacity,
        }
    }

    /// Whether every number in the algorithm is above zero.
    pub open spec fn is_valid(&self) -> bool {
        match self {
            RateLimitAlgorithm::FixedWindow { requests_per_window, window } => {
                *requests_per_window > 0 && window@ > 0
            },
            RateLimitAlgorithm::TokenBucket { capacity, refill_tokens, refill_interval } => {
                *capacity > 0 && *refill_tokens > 0 && refill_interval@ > 0
            },
        }
    }

    /// The first thing that is wrong with the algorithm of the rule of that name.
    pub open spec fn problem(&self, rule_name: Seq<char>) -> Option<Seq<char>> {
        match self {
            RateLimitAlgorithm::FixedWindow { requests_per_window, window } => {
                if *requests_per_window == 0 {
                    Some(complaint(rule_name, "must allow at least one request"@))
                } else if window@ == 0 {
                    Some(complaint(rule_name, "must have a non-zero window"@))
                } else {
                    None
                }
            },
            RateLimitAlgorithm::TokenBucket { capacity, refill_tokens, refill_interval } => {
                if *capacity == 0 {
                    Some(
                        complaint(
                            rule_name,
                            "must have a token bucket capacity greater than zero"@,
                        ),
                    )
                } else if *refill_tokens == 0 {
                    Some(complaint(rule_name, "must refill at least one token"@))
                } else if refill_interval@ == 0 {
                    Some(complaint(rule_name, "must have a non-zero refill interval"@))
                } else {
                    None
                }
            },
        }
    }

    /// The limit that is announced to clients.
    pub fn limit(&self) -> (n: u64)
        ensures
            n == self.burst(),
    {
        match self {
            RateLimitAlgorithm::FixedWindow { requests_per_window, .. } => *requests_per_window,
            RateLimitAlgorithm::TokenBucket { capacity, .. } => *capacity,
        }
    }

    /// Checks that the algorithm, which belongs to the rule of that name, makes sense.
    pub fn validate(&self, rule_name: &str) -> (r: Result<(), ConfigError>)
        ensures
            reports(r, self.problem(rule_name@)),
            r is Ok <==> self.is_valid(),
    {
        match self {
            RateLimitAlgorithm::FixedWindow { requests_per_window, window } => {
                if *requests_per_window == 0 {
                    return Err(complain(rule_name, "must allow at least one request"));
                }
                if window.is_zero() {
                    return Err(complain(rule_name, "must have a non-zero window"));
                }
            },
            RateLimitAlgorithm::TokenBucket { capacity, refill_tokens, refill_interval } => {
                if *capacity == 0 {
                    return Err(
                        complain(rule_name, "must have a token bucket capacity greater than zero"),
                    );
                }
                if *refill_tokens == 0 {
                    return Err(complain(rule_name, "must refill at least one token"));
                }
                if refill_interval.is_zero() {
                    return Err(complain(rule_name, "must have a non-zero refill interval"));
                }
            },
        }
        Ok(())
    }
}

/// A rule: which requests are limited, how, and what becomes of those over the limit.
#[derive(Debug, Clone, PartialEq, Eq)]
pub struct RateLimitRule {
    /// What the rule is called in keys, messages and responses.
    pub name: String,
    /// The path that a request must have; none stands for any.
    pub path: Option<String>,
    /// The methods of which a request must have one; none stands for any.
    pub methods: Vec<String>,
    pub algorithm: RateLimitAlgorithm,
    pub behavior: RateLimitBehavior,
}

/// What becomes of requests over the limit of a rule that does not say.
pub fn default_behavior() -> (b: RateLimitBehavior)
    ensures
        b == RateLimitBehavior::Block,
{
    RateLimitBehavior::Block
}

/// Whether the list holds the method, in whatever case.
pub open spec fn names_method(methods: Seq<String>, method: Seq<char>) -> bool {
    exists|i: int|
        0 <= i < methods.len() && equal_ignoring_ascii_case(#[trigger] methods[i]@, method)
}

impl RateLimitRule {
    /// Whether the rule applies to requests with the method and the path.
    pub open spec fn applies_to(&self, method: Seq<char>, path: Seq<char>) -> bool {
        &&& self.methods@.len() == 0 || names_method(self.methods@, method)
        &&& self.path matches Some(own) ==> own@ == path
    }

    /// Whether the rule has a name and an algorithm that makes sense.
    pub open spec fn is_valid(&self) -> bool {
        !blank(self.name@) && self.algorithm.is_valid()
    }

    /// The first thing that is wrong with the rule.
    pub open spec fn problem(&self) -> Option<Seq<char>> {
        if blank(self.name@) {
            Some("rule name must not be empty"@)
        } else {
            self.algorithm.problem(self.name@)
        }
    }

    /// Whether the rule applies to requests with the method and the path.
    pub fn matches(&self, method: &str, path: &str) -> (b: bool)
        ensures
            b == self.applies_to(method@, path@),
    {
        let mut method_matches = self.methods.len() == 0;
        let mut i: usize = 0;
        while i < self.methods.len()
            invariant
                0 <= i <= self.methods@.len(),
                method_matches ==> self.methods@.len() == 0 || names_method(
                    self.methods@,
                    method@,
                ),
                self.methods@.len() == 0 ==> method_matches,
                !method_matches ==> forall|j: int|
                    0 <= j < i ==> !equal_ignoring_ascii_case(
                        #[trigger] self.methods@[j]@,
                        method@,
                    ),
            decreases self.methods@.len() - i,
        {
            if eq_ignore_ascii_case(self.methods[i].as_str(), method) {
                method_matches = true;
            }
            i = i + 1;
        }
        let path_matches = match &self.path {
            Some(own) => same_text(own.as_str(), path),
            None => true,
        };
        method_matches && path_matches
    }
}

/// The rules of a service and the queue for requests over their limits.
#[derive(Debug, Clone, PartialEq, Eq)]
pub struct RateLimitConfig {
    pub rules: Vec<RateLimitRule>,
    pub queue_key: String,
}

/// The queue of a configuration that names none.
pub fn default_queue_key() -> (s: String)
    ensures
        s@ == "ratelimiter:throttled"@,
{
    "ratelimiter:throttled".to_owned()
}

/// The first thing that is wrong with the rules from the index `from` on.
pub open spec fn first_problem(rules: Seq<RateLimitRule>, from: int) -> Option<Seq<char>>
    decreases rules.len() - from,
{
    if from >= rules.len() {
        None
    } else if rules[from].problem() is Some {
        rules[from].problem()
    } else {
        first_problem(rules, from + 1)
    }
}

/// The index of the first rule, from the index `from` on, that applies to requests with the method
/// and the path.
pub open spec fn first_match(
    rules: Seq<RateLimitRule>,
    method: Seq<char>,
    path: Seq<char>,
    from: int,
) -> Option<int>
    decreases rules.len() - from,
{
    if from >= rules.len() {
        None
    } else if rules[from].applies_to(method, path) {
        Some(from)
    } else {
        first_match(rules, method, path, from + 1)
    }
}

impl RateLimitConfig {
    /// Whether there are rules and all of them make sense.
    pub open spec fn is_valid(&self) -> bool {
        &&& self.rules@.len() > 0
        &&& forall|i: int|
            0 <= i < self.rules@.len() ==> (#[trigger] self.rules@[i]).is_valid()
    }

    /// The first thing that is wrong with the configuration.
    pub open spec fn problem(&self) -> Option<Seq<char>> {
        if self.rules@.len() == 0 {
            Some("at least one rate-limit rule is required"@)
        } else {
            first_problem(self.rules@, 0)
        }
    }

    /// The rule that applies to requests with the method and the path: the first of those that do.
    pub open spec fn rule_for(&self, method: Seq<char>, path: Seq<char>) -> Option<RateLimitRule> {
        match first_match(self.rules@, method, path, 0) {
            Some(i) => Some(self.rules@[i]),
            None => None,
        }
    }

    /// Checks that the configuration makes sense.
    pub fn validate(&self) -> (r: Result<(), ConfigError>)
        ensures
            reports(r, self.problem()),
            r is Ok <==> self.is_valid(),
    {
        if self.rules.len() == 0 {
            return Err(
                ConfigError::Validation("at least one rate-limit rule is required".to_owned()),
            );
        }
        let mut i: usize = 0;
        while i < self.rules.len()
            invariant
                0 <= i <= self.rules@.len(),
                self.rules@.len() > 0,
                first_problem(self.rules@, 0) == first_problem(self.rules@, i as int),
                forall|j: int|
                    0 <= j < i ==> (#[trigger] self.rules@[j]).is_valid(),
            decreases self.rules@.len() - i,
        {
            let rule = &self.rules[i];
            assert(*rule == self.rules@[i as int]);
            if is_blank(rule.name.as_str()) {
                return Err(ConfigError::Validation("rule name must not be empty".to_owned()));
            }
            match rule.algorithm.validate(rule.name.as_str()) {
                Ok(_) => {},
                Err(error) => {
                    return Err(error);
                },
            }
            i = i + 1;
        }
        Ok(())
    }

    /// The rule that applies to requests with the method and the path: the first of those that do.
    pub fn find_rule(&self, method: &str, path: &str) -> (rule: Option<&RateLimitRule>)
        ensures
            match rule {
                Some(rule) => self.rule_for(method@, path@) == Some(*rule),
                None => self.rule_for(method@, path@) is None,
            },
    {
        let mut i: usize = 0;
        while i < self.rules.len()
            invariant
                0 <= i <= self.rules@.len(),
                first_match(self.rules@, method@, path@, 0) == first_match(
                    self.rules@,
                    method@,
                    path@,
                    i as int,
                ),
            decreases self.rules@.len() - i,
        {
            if self.rules[i].matches(method, path) {
                return Some(&self.rules[i]);
            }
            i = i + 1;
        }
        None
    }
}

} // verus!
