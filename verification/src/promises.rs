//! What each operation is for, in plain terms: the numbers, the texts and the fields of what goes in
//! and of what comes out.

use crate::config::{
    first_match, first_problem, reports, ConfigError, RateLimitAlgorithm, RateLimitBehavior,
    RateLimitConfig, RateLimitRule,
};
use crate::laws::{
    admitted, law_clients_are_told_of_their_limit, law_first_matching_rule_applies, refills, taking,
};
use crate::limiter::{
    bucket_verdict, fixed_window_key, headers_at, may_check, may_judge, may_settle, settled,
    token_bucket_key, window_verdict, EnforcementResult, LimiterError, QueueDisposition,
    RateLimitHeaders, StoreCall,
};
use crate::middleware::{with_rate_limit, Action};
use crate::queue::{
    InMemoryThrottledRequestQueue, QueueError, ThrottledRequest, ThrottledRequestQueue,
};
use crate::store::{
    bucket_of, can_plan, count_outcome, exact_take_outcome, millis_or_none, refill_periods,
    refills_to_fill, take_outcome, take_plan, BucketModel, CounterState, InMemoryCounterStore,
    RateLimitStore, StoreError, StoreModel, TokenBucketState,
};
use crate::text::{blank, decimal, equal_ignoring_ascii_case};
use crate::time::{
    at_least, is_unix_second, low_u64, max_span, monus, system_clock_shows, Duration,
};
use vstd::arithmetic::div_mod::lemma_fundamental_div_mod_converse;
use vstd::prelude::*;
use vstd::utf8::encode_utf8;

verus! {

/// Texts are equal but for case exactly where each letter of the one is that of the other, or one is
/// the capital and the other the small form of an ASCII letter.
pub proof fn law_case_is_ignored_letter_by_letter(a: Seq<char>, b: Seq<char>)
    ensures
        equal_ignoring_ascii_case(a, b) <==> a.len() == b.len() && forall|i: int|
            0 <= i < a.len() ==> {
                ||| #[trigger] a[i] == b[i]
                ||| 65 <= a[i] as u32 <= 90 && b[i] as u32 == a[i] as u32 + 32
                ||| 65 <= b[i] as u32 <= 90 && a[i] as u32 == b[i] as u32 + 32
            },
{
}

/// A rule applies to a request exactly where the rule names no method or names the request's in
/// whatever case, and, whatever the methods, has no path or has the request's.
pub proof fn law_rule_applies_by_method_and_by_path(
    rule: RateLimitRule,
    method: Seq<char>,
    path: Seq<char>,
)
    ensures
        rule.applies_to(method, path) <==> {
            &&& rule.methods@.len() == 0 || exists|i: int|
                0 <= i < rule.methods@.len() && equal_ignoring_ascii_case(
                    #[trigger] rule.methods@[i]@,
                    method,
                )
            &&& rule.path is None || rule.path->0@ == path
        },
{
}

/// The method and the path of a request count independently: where a rule applies to one request by
/// its method and to another by its path, it applies to the request with that method and that path.
/// A rule without methods does not tell methods apart, one without a path does not tell paths apart,
/// and no rule tells methods apart by the case of their letters.
pub proof fn law_methods_and_paths_count_independently(
    rule: RateLimitRule,
    method: Seq<char>,
    path: Seq<char>,
    other_method: Seq<char>,
    other_path: Seq<char>,
)
    ensures
        rule.applies_to(method, other_path) && rule.applies_to(other_method, path)
            ==> rule.applies_to(method, path),
        rule.methods@.len() == 0 ==> rule.applies_to(method, path) == rule.applies_to(
            other_method,
            path,
        ),
        rule.path is None ==> rule.applies_to(method, path) == rule.applies_to(method, other_path),
        rule.path is Some && rule.applies_to(method, path) ==> rule.path->0@ == path,
        rule.methods@.len() == 0 && rule.path is None ==> rule.applies_to(method, path),
        equal_ignoring_ascii_case(method, other_method) ==> rule.applies_to(method, path)
            == rule.applies_to(other_method, path),
{
    if equal_ignoring_ascii_case(method, other_method) {
        if rule.applies_to(method, path) && rule.methods@.len() > 0 {
            let i = choose|i: int|
                0 <= i < rule.methods@.len() && equal_ignoring_ascii_case(
                    #[trigger] rule.methods@[i]@,
                    method,
                );
            assert(equal_ignoring_ascii_case(rule.methods@[i]@, other_method));
        }
        if rule.applies_to(other_method, path) && rule.methods@.len() > 0 {
            let i = choose|i: int|
                0 <= i < rule.methods@.len() && equal_ignoring_ascii_case(
                    #[trigger] rule.methods@[i]@,
                    other_method,
                );
            assert forall|j: int| 0 <= j < method.len() implies crate::text::ascii_lower(
                #[trigger] rule.methods@[i]@[j],
            ) == crate::text::ascii_lower(method[j]) by {
                assert(crate::text::ascii_lower(method[j]) == crate::text::ascii_lower(
                    other_method[j],
                ));
            }
            assert(equal_ignoring_ascii_case(rule.methods@[i]@, method));
        }
    }
}

/// The rule that is found is one of the configuration's, applies to the request, and comes before
/// all others that do; none is found exactly where none applies.
pub proof fn law_rule_that_is_found_is_the_first(
    config: RateLimitConfig,
    method: Seq<char>,
    path: Seq<char>,
)
    ensures
        match config.rule_for(method, path) {
            Some(rule) => exists|i: int|
                {
                    &&& 0 <= i < config.rules@.len()
                    &&& #[trigger] config.rules@[i] == rule
                    &&& rule.applies_to(method, path)
                    &&& forall|j: int|
                        0 <= j < i ==> !(#[trigger] config.rules@[j]).applies_to(method, path)
                },
            None => forall|j: int|
                0 <= j < config.rules@.len() ==> !(#[trigger] config.rules@[j]).applies_to(
                    method,
                    path,
                ),
        },
{
    law_first_matching_rule_applies(config.rules@, method, path, 0);
    if config.rule_for(method, path) is Some {
        let i = first_match(config.rules@, method, path, 0)->0;
        assert(config.rules@[i] == config.rule_for(method, path)->0);
    }
}

/// Whether every number of the algorithm is one at least, and its span of time is not empty.
pub open spec fn numbers_above_zero(algorithm: RateLimitAlgorithm) -> bool {
    match algorithm {
        RateLimitAlgorithm::FixedWindow { requests_per_window, window } => requests_per_window >= 1
            && window@ >= 1,
        RateLimitAlgorithm::TokenBucket { capacity, refill_tokens, refill_interval } => capacity >= 1
            && refill_tokens >= 1 && refill_interval@ >= 1,
    }
}

/// What is to be said of an algorithm whose numbers are not all above zero: the first of them that
/// is not is named.
pub open spec fn fault(algorithm: RateLimitAlgorithm) -> Seq<char> {
    match algorithm {
        RateLimitAlgorithm::FixedWindow { requests_per_window, .. } => if requests_per_window == 0 {
            "must allow at least one request"@
        } else {
            "must have a non-zero window"@
        },
        RateLimitAlgorithm::TokenBucket { capacity, refill_tokens, .. } => if capacity == 0 {
            "must have a token bucket capacity greater than zero"@
        } else if refill_tokens == 0 {
            "must refill at least one token"@
        } else {
            "must have a non-zero refill interval"@
        },
    }
}

/// The validation of an algorithm succeeds exactly where all of its numbers are above zero, however
/// they compare with each other; otherwise it names the rule and the first number that is not.
pub proof fn law_algorithms_with_numbers_above_zero_are_accepted(
    algorithm: RateLimitAlgorithm,
    rule_name: Seq<char>,
    r: Result<(), ConfigError>,
)
    requires
        reports(r, algorithm.problem(rule_name)),
    ensures
        r is Ok <==> match algorithm {
            RateLimitAlgorithm::FixedWindow { requests_per_window, window } => requests_per_window
                >= 1 && window@ >= 1,
            RateLimitAlgorithm::TokenBucket { capacity, refill_tokens, refill_interval } => capacity
                >= 1 && refill_tokens >= 1 && refill_interval@ >= 1,
        },
        algorithm.is_valid() <==> r is Ok,
        r matches Err(error) ==> {
            &&& error matches ConfigError::Validation(reason)
            &&& reason@ == "rule '"@ + rule_name + "' "@ + fault(algorithm)
        },
{
}

/// Raising a number of an algorithm that is accepted, or putting another span of time that is not
/// empty in it, leaves it accepted.
pub proof fn law_accepted_algorithms_may_grow(
    rule_name: Seq<char>,
    capacity: u64,
    refill_tokens: u64,
    interval: Duration,
    more_capacity: u64,
    more_tokens: u64,
    other_interval: Duration,
)
    requires
        capacity <= more_capacity,
        refill_tokens <= more_tokens,
        other_interval@ > 0,
        (RateLimitAlgorithm::TokenBucket {
            capacity,
            refill_tokens,
            refill_interval: interval,
        }).problem(rule_name) is None,
    ensures
        (RateLimitAlgorithm::TokenBucket {
            capacity: more_capacity,
            refill_tokens,
            refill_interval: interval,
        }).problem(rule_name) is None,
        (RateLimitAlgorithm::TokenBucket {
            capacity,
            refill_tokens: more_tokens,
            refill_interval: interval,
        }).problem(rule_name) is None,
        (RateLimitAlgorithm::TokenBucket {
            capacity,
            refill_tokens,
            refill_interval: other_interval,
        }).problem(rule_name) is None,
        capacity > 0 ==> (RateLimitAlgorithm::FixedWindow {
            requests_per_window: capacity,
            window: other_interval,
        }).problem(rule_name) is None,
{
}

/// Whether the number is the code of a character of white space.
pub open spec fn code_of_white_space(code: int) -> bool {
    ||| 9 <= code <= 13
    ||| code == 32
    ||| code == 133
    ||| code == 160
    ||| code == 5760
    ||| 8192 <= code <= 8202
    ||| code == 8232
    ||| code == 8233
    ||| code == 8239
    ||| code == 8287
    ||| code == 12288
}

/// A name is blank exactly where it holds no character but white space.
pub proof fn law_blank_names_hold_white_space_only(name: Seq<char>)
    ensures
        blank(name) <==> forall|i: int|
            0 <= i < name.len() ==> code_of_white_space(#[trigger] name[i] as int),
{
    if forall|i: int| 0 <= i < name.len() ==> code_of_white_space(#[trigger] name[i] as int) {
        assert forall|i: int| 0 <= i < name.len() implies crate::text::white_space(
            #[trigger] name[i],
        ) by {
            assert(code_of_white_space(name[i] as int));
        }
    }
}

/// Whether a rule has a name that is not blank and numbers above zero.
pub open spec fn faultless(rule: RateLimitRule) -> bool {
    !blank(rule.name@) && numbers_above_zero(rule.algorithm)
}

/// What is to be said of a rule that is not faultless.
pub open spec fn blame(rule: RateLimitRule) -> Seq<char> {
    if blank(rule.name@) {
        "rule name must not be empty"@
    } else {
        "rule '"@ + rule.name@ + "' "@ + fault(rule.algorithm)
    }
}

/// A configuration is accepted exactly where it has a rule, and every rule has a name that is not
/// blank and numbers above zero; otherwise the first rule that has not is complained of.
pub proof fn law_sensible_configurations_are_accepted(
    config: RateLimitConfig,
    r: Result<(), ConfigError>,
)
    requires
        reports(r, config.problem()),
    ensures
        ({
            let rules = config.rules@;
            &&& r is Ok <==> rules.len() > 0 && forall|i: int|
                0 <= i < rules.len() ==> faultless(#[trigger] rules[i])
            &&& r matches Err(error) ==> {
                &&& error matches ConfigError::Validation(reason)
                &&& rules.len() == 0 ==> reason@ == "at least one rate-limit rule is required"@
                &&& rules.len() > 0 ==> exists|i: int|
                    {
                        &&& 0 <= i < rules.len()
                        &&& reason@ == blame(#[trigger] rules[i])
                        &&& !faultless(rules[i])
                        &&& forall|j: int| 0 <= j < i ==> faultless(#[trigger] rules[j])
                    }
            }
        }),
{
    let i = lemma_first_problem(config.rules@, 0);
    if config.rules@.len() > 0 && r is Err {
        assert(!faultless(config.rules@[i]));
    }
}

/// The first problem of some rules is that of the first of them that has one.
proof fn lemma_first_problem(rules: Seq<RateLimitRule>, from: int) -> (i: int)
    requires
        0 <= from <= rules.len(),
    ensures
        from <= i <= rules.len(),
        forall|j: int| from <= j < i ==> faultless(#[trigger] rules[j]),
        i < rules.len() ==> !faultless(rules[i]),
        match first_problem(rules, from) {
            None => i == rules.len(),
            Some(problem) => i < rules.len() && problem == blame(rules[i]),
        },
    decreases rules.len() - from,
{
    if from == rules.len() {
        from
    } else {
        lemma_problem(rules[from]);
        if rules[from].problem() is None {
            lemma_first_problem(rules, from + 1)
        } else {
            from
        }
    }
}

/// What is wrong with a rule.
proof fn lemma_problem(rule: RateLimitRule)
    ensures
        rule.problem() == if faultless(rule) {
            None
        } else {
            Some(blame(rule))
        },
{
}

/// The limit that is announced is the number of requests in a window, or the tokens that a bucket
/// holds.
pub proof fn law_announced_limits(algorithm: RateLimitAlgorithm)
    ensures
        algorithm matches RateLimitAlgorithm::FixedWindow { requests_per_window, .. }
            ==> algorithm.burst() == requests_per_window,
        algorithm matches RateLimitAlgorithm::TokenBucket { capacity, .. } ==> algorithm.burst()
            == capacity,
{
}

/// Spans, differences and cut numbers.
pub proof fn law_numbers(a: nat, b: nat, milliseconds: i64)
    ensures
        a >= b ==> monus(a, b) + b == a && at_least(a, b) == a,
        a <= b ==> monus(a, b) == 0 && at_least(a, b) == b,
        max_span() == 0xffff_ffff_ffff_ffff * 1_000_000_000 + 999_999_999,
        a <= 0xffff_ffff_ffff_ffff ==> low_u64(a) == a,
        low_u64(a) <= 0xffff_ffff_ffff_ffff,
        low_u64(a + 0x1_0000_0000_0000_0000) == low_u64(a),
        milliseconds >= 0 ==> millis_or_none(milliseconds) == milliseconds * 1_000_000,
        milliseconds <= 0 ==> millis_or_none(milliseconds) == 0,
{
}

/// The number that a decimal numeral stands for.
pub open spec fn value_of(numeral: Seq<char>) -> int
    decreases numeral.len(),
{
    if numeral.len() == 0 {
        0
    } else {
        value_of(numeral.drop_last()) * 10 + (numeral.last() as u32 - 48)
    }
}

/// A number's decimal numeral stands for it, is made of the ten digits, and begins with a zero for
/// the number zero alone.
pub proof fn law_numerals_stand_for_their_numbers(n: nat)
    ensures
        value_of(decimal(n)) == n,
        decimal(n).len() > 0,
        forall|i: int| 0 <= i < decimal(n).len() ==> 48 <= #[trigger] decimal(n)[i] as u32 <= 57,
        decimal(n)[0] as u32 == 48 <==> n == 0,
    decreases n,
{
    reveal_with_fuel(value_of, 2);
    if n >= 10 {
        law_numerals_stand_for_their_numbers(n / 10);
        assert(decimal(n).drop_last() =~= decimal(n / 10));
        assert(decimal(n)[0] == decimal(n / 10)[0]);
    } else {
        assert(decimal(n).drop_last().len() == 0);
    }
}

/// The key of a counter names the rule, the client and the second at which the window began: the
/// last that is a multiple of the window's length, which is taken in whole seconds and as one at
/// least.
pub proof fn law_counter_keys(name: Seq<char>, ip: Seq<char>, window: nat, now: nat, seconds: nat)
    requires
        seconds == if window < 1_000_000_000 {
            1
        } else {
            window / 1_000_000_000
        },
    ensures
        fixed_window_key(name, ip, window, now) == "rl:"@ + name + ":"@ + ip + ":"@ + decimal(
            (now - now % seconds) as nat,
        ),
{
    vstd::arithmetic::div_mod::lemma_fundamental_div_mod(now as int, seconds as int);
    vstd::arithmetic::mul::lemma_mul_is_commutative(seconds as int, now as int / seconds as int);
}

/// Two moments have one counter exactly where they fall into one window, which begins at a multiple
/// of its length in whole seconds.
pub proof fn law_moments_of_one_window_have_one_counter(
    name: Seq<char>,
    ip: Seq<char>,
    seconds: nat,
    windows: nat,
    now: nat,
    later: nat,
)
    requires
        seconds >= 1,
        seconds * windows <= now < seconds * windows + seconds,
    ensures
        fixed_window_key(name, ip, seconds * 1_000_000_000, now) == fixed_window_key(
            name,
            ip,
            seconds * 1_000_000_000,
            later,
        ) <==> seconds * windows <= later < seconds * windows + seconds,
{
    let window = seconds * 1_000_000_000;
    crate::laws::law_windows_part_time(window, now, later);
    vstd::arithmetic::mul::lemma_mul_is_commutative(seconds as int, windows as int);
    lemma_fundamental_div_mod_converse(
        now as int,
        seconds as int,
        windows as int,
        now - seconds * windows,
    );
    assert(crate::limiter::window_start(window, now) == seconds * windows);
    if fixed_window_key(name, ip, window, now) == fixed_window_key(name, ip, window, later) {
        crate::laws::law_window_keys_tell_clients_and_windows_apart(
            name,
            ip,
            ip,
            window,
            now,
            later,
        );
    }
}

/// The key of a bucket names the rule and the client.
pub proof fn law_bucket_keys(name: Seq<char>, ip: Seq<char>)
    ensures
        token_bucket_key(name, ip) == "rl:"@ + name + ":"@ + ip,
{
}

/// A request that is counted is the next of a window that is still open, or the first of a new one
/// that lasts for its whole length from then on. It learns how many there were and how long the
/// window still lasts. Windows that have closed are forgotten, and nothing else changes. It fails,
/// and changes nothing, only where the count or the end of the window cannot be kept.
pub proof fn law_counting(
    pre: StoreModel,
    key: Seq<char>,
    window: nat,
    now: nat,
    post: StoreModel,
    r: Result<CounterState, StoreError>,
)
    requires
        count_outcome(pre, key, window, now, post, r),
    ensures
        ({
            let open = pre.windows.contains_key(key) && now < pre.windows[key].expires_at;
            let count: int = if open {
                pre.windows[key].count as int + 1
            } else {
                1
            };
            let end: int = if open {
                pre.windows[key].expires_at as int
            } else {
                now as int + window
            };
            &&& r is Ok <==> if open {
                count <= 0xffff_ffff_ffff_ffff
            } else {
                end <= 0xffff_ffff_ffff_ffff * 1_000_000_000 + 999_999_999
            }
            &&& r matches Ok(state) ==> {
                &&& state.current == count
                &&& now + state.ttl@ == end
                &&& post.windows.contains_key(key)
                &&& post.windows[key].count == count
                &&& post.windows[key].expires_at == end
                &&& post.buckets == pre.buckets
                &&& forall|other: Seq<char>|
                    other != key ==> (#[trigger] post.windows.contains_key(other) <==> {
                        pre.windows.contains_key(other) && now < pre.windows[other].expires_at
                    })
                &&& forall|other: Seq<char>|
                    other != key && #[trigger] post.windows.contains_key(other)
                        ==> post.windows[other] == pre.windows[other]
            }
            &&& r matches Err(error) ==> error == StoreError::OutOfRange && post == pre
        }),
{
}

/// Whether `periods` whole intervals, taken in whole milliseconds and as one at least, have passed
/// since the bucket under `key` was last refilled. A new bucket was so just now.
pub open spec fn periods_passed(
    pre: StoreModel,
    key: Seq<char>,
    interval: nat,
    now: nat,
    periods: nat,
) -> bool {
    let elapsed: int = if pre.buckets.contains_key(key) && pre.buckets[key].last_refill < now {
        now - pre.buckets[key].last_refill
    } else {
        0
    };
    let length: int = if interval < 1_000_000 {
        1
    } else {
        interval as int / 1_000_000
    };
    periods * length <= elapsed / 1_000_000 < (periods + 1) * length
}

/// The tokens that a request finds in the bucket under `key` after so many refills: what was in it
/// and what they bring, up to its capacity. A new bucket is full. Of the number of refills 64 bits
/// are kept.
pub open spec fn found(
    pre: StoreModel,
    key: Seq<char>,
    capacity: nat,
    refill_tokens: nat,
    periods: nat,
) -> int {
    let held: int = if pre.buckets.contains_key(key) {
        pre.buckets[key].tokens as int
    } else {
        capacity as int
    };
    let brought: int = (periods % 0x1_0000_0000_0000_0000) as int * refill_tokens;
    if periods == 0 || held + brought <= capacity {
        held + if periods == 0 {
            0
        } else {
            brought
        }
    } else {
        capacity as int
    }
}

/// Whether so many refills, and no fewer, fill a bucket in which so many tokens are left.
pub open spec fn fill_up(left: int, capacity: nat, refill_tokens: nat, steps: nat) -> bool {
    if left >= capacity {
        steps == 0
    } else {
        refill_tokens > 0 ==> refill_tokens * (steps - 1) < capacity - left <= refill_tokens * steps
    }
}

/// The quotients that stand for `periods` and `steps`.
proof fn lemma_periods_and_steps(
    pre: StoreModel,
    key: Seq<char>,
    capacity: nat,
    refill_tokens: nat,
    interval: nat,
    now: nat,
    periods: nat,
    left: int,
    steps: nat,
)
    requires
        periods_passed(pre, key, interval, now, periods),
        left >= 0,
        fill_up(left, capacity, refill_tokens, steps),
    ensures
        refill_periods(bucket_of(pre.buckets, key, capacity, now), interval, now) == periods,
        left >= capacity || refill_tokens > 0 ==> refills_to_fill(
            left as nat,
            capacity,
            refill_tokens,
        ) == steps,
{
    let bucket = bucket_of(pre.buckets, key, capacity, now);
    let elapsed = monus(now, bucket.last_refill) as int / 1_000_000;
    let length = at_least(interval / 1_000_000, 1) as int;
    assert((periods + 1) * length == periods * length + length) by (nonlinear_arith);
    lemma_fundamental_div_mod_converse(
        elapsed,
        length,
        periods as int,
        elapsed - periods * length,
    );
    if left < capacity && refill_tokens > 0 {
        let missing = capacity - left;
        assert(refill_tokens * (steps - 1) == refill_tokens * steps - refill_tokens)
            by (nonlinear_arith);
        vstd::arithmetic::mul::lemma_mul_is_commutative(steps as int, refill_tokens as int);
        lemma_fundamental_div_mod_converse(
            missing + refill_tokens - 1,
            refill_tokens as int,
            steps as int,
            missing + refill_tokens - 1 - refill_tokens * steps,
        );
    }
}

/// The tokens that a request finds.
proof fn lemma_found(
    pre: StoreModel,
    key: Seq<char>,
    capacity: nat,
    refill_tokens: nat,
    now: nat,
    periods: nat,
)
    ensures
        crate::store::refilled_tokens(
            bucket_of(pre.buckets, key, capacity, now),
            capacity,
            refill_tokens,
            periods,
        ) == found(pre, key, capacity, refill_tokens, periods),
{
}

/// A refill adds to what the bucket holds: a request finds what was in it and what the refills that
/// are due bring, up to its capacity. It gets a token exactly where it finds one, which is then gone,
/// and learns how many are left. Without a token it learns how much of the interval is left, and in
/// any case how long the refills that are missing take. Nothing else changes. It fails, and changes
/// nothing, only where a number or a time cannot be kept, or where tokens are missing and no refill
/// brings any.
pub proof fn law_taking(
    pre: StoreModel,
    key: Seq<char>,
    capacity: nat,
    refill_tokens: nat,
    interval: nat,
    now: nat,
    post: StoreModel,
    r: Result<TokenBucketState, StoreError>,
    periods: nat,
    steps: nat,
)
    requires
        exact_take_outcome(pre, key, capacity, refill_tokens, interval, now, post, r),
        periods_passed(pre, key, interval, now, periods),
        fill_up(
            if found(pre, key, capacity, refill_tokens, periods) > 0 {
                found(pre, key, capacity, refill_tokens, periods) - 1
            } else {
                0
            },
            capacity,
            refill_tokens,
            steps,
        ),
    ensures
        ({
            let longest = 0xffff_ffff_ffff_ffff * 1_000_000_000 + 999_999_999;
            let tokens = found(pre, key, capacity, refill_tokens, periods);
            let left: int = if tokens > 0 {
                tokens - 1
            } else {
                0
            };
            let last: int = interval * periods + if pre.buckets.contains_key(key) {
                pre.buckets[key].last_refill as int
            } else {
                now as int
            };
            let since: int = if last < now {
                now - last
            } else {
                0
            };
            &&& r is Ok <==> {
                &&& (periods % 0x1_0000_0000_0000_0000) * refill_tokens <= 0xffff_ffff_ffff_ffff
                &&& left < capacity ==> refill_tokens > 0
                &&& periods > 0 ==> last <= longest
                &&& interval * steps <= longest
            }
            &&& r matches Ok(state) ==> {
                &&& state.allowed <==> tokens > 0
                &&& state.tokens_remaining == left
                &&& state.retry_after@ == if tokens == 0 && since < interval {
                    interval - since
                } else {
                    0
                }
                &&& state.reset_after@ == if left < capacity && since < interval * steps {
                    interval * steps - since
                } else {
                    0
                }
                &&& post.windows == pre.windows
                &&& post.buckets == pre.buckets.insert(
                    key,
                    BucketModel { tokens: left as nat, last_refill: last as nat },
                )
            }
            &&& r matches Err(error) ==> error == StoreError::OutOfRange && post == pre
        }),
{
    let bucket = bucket_of(pre.buckets, key, capacity, now);
    let tokens = found(pre, key, capacity, refill_tokens, periods);
    let left = if tokens > 0 {
        tokens - 1
    } else {
        0
    };
    assert(tokens >= 0) by {
        assert((periods % 0x1_0000_0000_0000_0000) * refill_tokens >= 0) by (nonlinear_arith);
    }
    lemma_periods_and_steps(
        pre,
        key,
        capacity,
        refill_tokens,
        interval,
        now,
        periods,
        left,
        steps,
    );
    lemma_found(pre, key, capacity, refill_tokens, now, periods);
    assert(interval * 0 == 0) by (nonlinear_arith);
    assert(periods == 0 ==> interval * periods == 0);
}

/// A refill adds to what the bucket holds: after so many whole intervals, a request finds what was
/// held before and what the refills bring, or the capacity where that is less, and never fewer than
/// were held.
pub proof fn law_refills_add_to_what_is_held(
    pre: StoreModel,
    key: Seq<char>,
    capacity: nat,
    refill_tokens: nat,
    interval: nat,
    now: nat,
    post: StoreModel,
    state: TokenBucketState,
    periods: nat,
)
    requires
        exact_take_outcome(pre, key, capacity, refill_tokens, interval, now, post, Ok(state)),
        pre.buckets.contains_key(key),
        pre.buckets[key].tokens <= capacity,
        pre.buckets[key].last_refill <= now,
        interval >= 1_000_000,
        periods <= u64::MAX,
        periods * (interval / 1_000_000) <= (now - pre.buckets[key].last_refill) / 1_000_000 < (
        periods + 1) * (interval / 1_000_000),
    ensures
        ({
            let held = pre.buckets[key].tokens;
            let tokens: int = state.tokens_remaining + if state.allowed {
                1int
            } else {
                0
            };
            &&& tokens >= held
            &&& tokens <= capacity
            &&& tokens <= held + periods * refill_tokens
            &&& tokens == capacity || tokens == held + periods * refill_tokens
            &&& state.allowed <==> tokens > 0
            &&& post.buckets.contains_key(key)
            &&& post.buckets[key].tokens == state.tokens_remaining
            &&& post.buckets[key].last_refill == pre.buckets[key].last_refill + interval * periods
        }),
{
    let bucket = bucket_of(pre.buckets, key, capacity, now);
    let elapsed = (now - bucket.last_refill) / 1_000_000;
    let length = (interval / 1_000_000) as int;
    assert((periods + 1) * length == periods * length + length) by (nonlinear_arith);
    lemma_fundamental_div_mod_converse(
        elapsed,
        length,
        periods as int,
        elapsed - periods * length,
    );
    assert(refill_periods(bucket, interval, now) == periods);
    assert(periods * refill_tokens >= 0) by (nonlinear_arith);
    assert(0 * refill_tokens == 0 && interval * 0 == 0) by (nonlinear_arith);
}

/// A request that takes a token where the refills are taken to be as long as `advance` and `to_full`
/// say: what it finds, gets and leaves is the same, and the two lengths stand for those of the
/// refills that are due and of those that are then missing.
pub proof fn law_taking_with_given_lengths(
    pre: StoreModel,
    key: Seq<char>,
    capacity: nat,
    refill_tokens: nat,
    interval: nat,
    now: nat,
    advance: nat,
    to_full: nat,
    post: StoreModel,
    r: Result<TokenBucketState, StoreError>,
    periods: nat,
)
    requires
        take_outcome(
            pre,
            key,
            capacity,
            refill_tokens,
            interval,
            now,
            advance,
            to_full,
            post,
            r,
        ),
        periods_passed(pre, key, interval, now, periods),
    ensures
        ({
            let longest = 0xffff_ffff_ffff_ffff * 1_000_000_000 + 999_999_999;
            let tokens = found(pre, key, capacity, refill_tokens, periods);
            let left: int = if tokens > 0 {
                tokens - 1
            } else {
                0
            };
            let before: int = if pre.buckets.contains_key(key) {
                pre.buckets[key].last_refill as int
            } else {
                now as int
            };
            let last: int = if periods > 0 {
                before + advance
            } else {
                before
            };
            let since: int = if last < now {
                now - last
            } else {
                0
            };
            &&& r is Ok <==> {
                &&& (periods % 0x1_0000_0000_0000_0000) * refill_tokens <= 0xffff_ffff_ffff_ffff
                &&& left < capacity ==> refill_tokens > 0
                &&& periods > 0 ==> last <= longest
            }
            &&& r matches Ok(state) ==> {
                &&& state.allowed <==> tokens > 0
                &&& state.tokens_remaining == left
                &&& state.retry_after@ == if tokens == 0 && since < interval {
                    interval - since
                } else {
                    0
                }
                &&& state.reset_after@ == if left < capacity && since < to_full {
                    to_full - since
                } else {
                    0
                }
                &&& post.windows == pre.windows
                &&& post.buckets == pre.buckets.insert(
                    key,
                    BucketModel { tokens: left as nat, last_refill: last as nat },
                )
            }
            &&& r matches Err(error) ==> error == StoreError::OutOfRange && post == pre
        }),
{
    assert(found(pre, key, capacity, refill_tokens, periods) >= 0) by {
        assert((periods % 0x1_0000_0000_0000_0000) * refill_tokens >= 0) by (nonlinear_arith);
    }
    lemma_periods_and_steps(
        pre,
        key,
        capacity,
        refill_tokens,
        interval,
        now,
        periods,
        capacity as int,
        0,
    );
    lemma_found(pre, key, capacity, refill_tokens, now, periods);
}

/// The plan for a token counts the refills that are due, and those that are then missing; there is
/// one exactly where what the refills bring can be counted and missing tokens are brought.
pub proof fn law_planning(
    pre: StoreModel,
    key: Seq<char>,
    capacity: nat,
    refill_tokens: nat,
    interval: nat,
    now: nat,
    periods: nat,
    steps: nat,
)
    requires
        periods_passed(pre, key, interval, now, periods),
        fill_up(
            if found(pre, key, capacity, refill_tokens, periods) > 0 {
                found(pre, key, capacity, refill_tokens, periods) - 1
            } else {
                0
            },
            capacity,
            refill_tokens,
            steps,
        ),
    ensures
        ({
            let bucket = bucket_of(pre.buckets, key, capacity, now);
            let tokens = found(pre, key, capacity, refill_tokens, periods);
            &&& can_plan(bucket, capacity, refill_tokens, interval, now) <==> {
                &&& (periods % 0x1_0000_0000_0000_0000) * refill_tokens <= 0xffff_ffff_ffff_ffff
                &&& tokens <= capacity && capacity > 0 ==> refill_tokens > 0
            }
            &&& can_plan(bucket, capacity, refill_tokens, interval, now) ==> take_plan(
                bucket,
                capacity,
                refill_tokens,
                interval,
                now,
            ) == (periods, steps)
        }),
{
    let tokens = found(pre, key, capacity, refill_tokens, periods);
    assert(tokens >= 0) by {
        assert((periods % 0x1_0000_0000_0000_0000) * refill_tokens >= 0) by (nonlinear_arith);
    }
    lemma_periods_and_steps(
        pre,
        key,
        capacity,
        refill_tokens,
        interval,
        now,
        periods,
        if tokens > 0 {
            tokens - 1
        } else {
            0
        },
        steps,
    );
    lemma_found(pre, key, capacity, refill_tokens, now, periods);
}

/// Whether the bucket, asked at each of the times, is never filled up: what each finds is what was in
/// it and all that the refills brought.
pub open spec fn never_full(
    bucket: BucketModel,
    capacity: nat,
    refill_tokens: nat,
    interval: nat,
    times: Seq<nat>,
) -> bool
    decreases times.len(),
{
    times.len() > 0 ==> {
        let before = taking(bucket, capacity, refill_tokens, interval, times.drop_last());
        let due = refill_periods(before, interval, times.last());
        &&& never_full(bucket, capacity, refill_tokens, interval, times.drop_last())
        &&& due <= u64::MAX
        &&& before.tokens + due * refill_tokens <= capacity
    }
}

/// No token is lost and none is made: where a bucket is never filled up, as many requests get one as
/// there were at the start and the refills brought, less those that are left.
pub proof fn law_every_token_is_accounted_for(
    bucket: BucketModel,
    capacity: nat,
    refill_tokens: nat,
    interval: nat,
    times: Seq<nat>,
)
    requires
        never_full(bucket, capacity, refill_tokens, interval, times),
    ensures
        admitted(bucket, capacity, refill_tokens, interval, times) == bucket.tokens + refills(
            bucket,
            capacity,
            refill_tokens,
            interval,
            times,
        ) * refill_tokens - taking(bucket, capacity, refill_tokens, interval, times).tokens,
    decreases times.len(),
{
    if times.len() == 0 {
        assert(0 * refill_tokens == 0) by (nonlinear_arith);
    } else {
        let earlier = times.drop_last();
        law_every_token_is_accounted_for(bucket, capacity, refill_tokens, interval, earlier);
        let before = taking(bucket, capacity, refill_tokens, interval, earlier);
        let made = refills(bucket, capacity, refill_tokens, interval, earlier);
        let due = refill_periods(before, interval, times.last());
        assert((made + due) * refill_tokens == made * refill_tokens + due * refill_tokens)
            by (nonlinear_arith);
        assert(due == 0 ==> due * refill_tokens == 0) by (nonlinear_arith);
    }
}

/// What a client is told: the limit, what remains, the whole seconds of the wait, and the second at
/// which the limit is at hand again, unless that cannot be told.
pub proof fn law_headers(
    limit: u64,
    remaining: u64,
    retry_after: nat,
    reset_after: nat,
    now: u64,
)
    requires
        retry_after / 1_000_000_000 <= u64::MAX,
    ensures
        ({
            let headers = headers_at(limit, remaining, retry_after, reset_after, now);
            &&& headers is Some <==> now + reset_after / 1_000_000_000 <= 0xffff_ffff_ffff_ffff
            &&& headers matches Some(told) ==> {
                &&& told.limit == limit
                &&& told.remaining == remaining
                &&& told.retry_after_seconds == retry_after / 1_000_000_000
                &&& told.reset_unix_seconds == now + reset_after / 1_000_000_000
            }
        }),
{
}

/// A request is allowed exactly where its window has seen no more than the limit, is told how many
/// more it may see, and need not wait; otherwise it is throttled, nothing remains, and it may come
/// again once the window is over.
pub proof fn law_window_verdicts(rule_name: String, limit: u64, counter: CounterState, now: u64)
    ensures
        ({
            let r = window_verdict(rule_name, limit, Ok(counter), now);
            let reset = now + counter.ttl@ / 1_000_000_000;
            &&& reset > 0xffff_ffff_ffff_ffff ==> r == Err::<EnforcementResult, LimiterError>(
                LimiterError::OutOfRange,
            )
            &&& reset <= 0xffff_ffff_ffff_ffff && counter.current <= limit ==> {
                &&& r matches Ok(EnforcementResult::Allowed(allowed))
                &&& allowed.rule_name == rule_name
                &&& allowed.headers.limit == limit
                &&& allowed.headers.remaining + counter.current == limit
                &&& allowed.headers.retry_after_seconds == 0
                &&& allowed.headers.reset_unix_seconds == reset
            }
            &&& reset <= 0xffff_ffff_ffff_ffff && counter.current > limit ==> {
                &&& r matches Ok(EnforcementResult::Throttled(throttled))
                &&& throttled.rule_name == rule_name
                &&& throttled.headers.limit == limit
                &&& throttled.headers.remaining == 0
                &&& now + throttled.headers.retry_after_seconds == reset
                &&& throttled.headers.reset_unix_seconds == reset
                &&& throttled.queue_disposition == QueueDisposition::NotQueued
            }
        }),
{
}

/// A request is allowed exactly where it got a token, and throttled otherwise; either way it is told
/// the capacity, the tokens that are left, how long to wait, and when the bucket is full.
pub proof fn law_bucket_verdicts(
    rule_name: String,
    capacity: u64,
    bucket: TokenBucketState,
    now: u64,
)
    requires
        bucket.retry_after@ / 1_000_000_000 <= u64::MAX,
    ensures
        ({
            let r = bucket_verdict(rule_name, capacity, Ok(bucket), now);
            let reset = now + bucket.reset_after@ / 1_000_000_000;
            &&& reset > 0xffff_ffff_ffff_ffff ==> r == Err::<EnforcementResult, LimiterError>(
                LimiterError::OutOfRange,
            )
            &&& reset <= 0xffff_ffff_ffff_ffff && bucket.allowed ==> {
                &&& r matches Ok(EnforcementResult::Allowed(allowed))
                &&& allowed.rule_name == rule_name
                &&& allowed.headers.limit == capacity
                &&& allowed.headers.remaining == bucket.tokens_remaining
                &&& allowed.headers.retry_after_seconds == bucket.retry_after@ / 1_000_000_000
                &&& allowed.headers.reset_unix_seconds == reset
            }
            &&& reset <= 0xffff_ffff_ffff_ffff && !bucket.allowed ==> {
                &&& r matches Ok(EnforcementResult::Throttled(throttled))
                &&& throttled.rule_name == rule_name
                &&& throttled.headers.limit == capacity
                &&& throttled.headers.remaining == bucket.tokens_remaining
                &&& throttled.headers.retry_after_seconds == bucket.retry_after@ / 1_000_000_000
                &&& throttled.headers.reset_unix_seconds == reset
                &&& throttled.queue_disposition == QueueDisposition::NotQueued
            }
        }),
{
}

/// A store that fails is reported as such, whichever algorithm asked it.
pub proof fn law_failures_are_passed_on(
    rule_name: String,
    limit: u64,
    error: StoreError,
    now: u64,
)
    ensures
        window_verdict(rule_name, limit, Err(error), now) == Err::<EnforcementResult, LimiterError>(
            LimiterError::Store(error),
        ),
        bucket_verdict(rule_name, limit, Err(error), now) == Err::<EnforcementResult, LimiterError>(
            LimiterError::Store(error),
        ),
{
}

/// Queueing a throttled request changes nothing of what its client is told but whether it is queued:
/// it is if the queue took it, it is not if the queue was not asked, and it failed if the queue did.
/// Nothing changes for any other request.
pub proof fn law_settling(
    verdict: Result<EnforcementResult, LimiterError>,
    reply: Option<Result<(), QueueError>>,
)
    ensures
        match verdict {
            Ok(EnforcementResult::Throttled(before)) => {
                &&& settled(verdict, reply) matches Ok(EnforcementResult::Throttled(after))
                &&& after.headers == before.headers
                &&& after.rule_name == before.rule_name
                &&& after.queue_disposition == QueueDisposition::NotQueued <==> reply is None
                &&& after.queue_disposition == QueueDisposition::Queued <==> (reply matches Some(
                    Ok(_),
                ))
                &&& after.queue_disposition == QueueDisposition::QueueFailed <==> (reply matches Some(
                    Err(_),
                ))
            },
            _ => settled(verdict, reply) == verdict,
        },
{
}

/// A store is asked to count the request in windows of the rule's length, under the key of the window
/// that is open at the second, or for a token from the client's bucket, which has the rule's numbers.
pub proof fn law_store_calls(call: StoreCall, rule: RateLimitRule, ip: Seq<char>, now: u64)
    requires
        call.follows(rule, ip, now),
    ensures
        match rule.algorithm {
            RateLimitAlgorithm::FixedWindow { window, .. } => {
                &&& call matches StoreCall::CountWindow { key, window: length }
                &&& length == window
                &&& key@ == fixed_window_key(rule.name@, ip, window@, now as nat)
            },
            RateLimitAlgorithm::TokenBucket { capacity, refill_tokens, refill_interval } => {
                &&& call matches StoreCall::TakeToken {
                    key,
                    capacity: size,
                    refill_tokens: tokens,
                    refill_interval: interval,
                }
                &&& key@ == token_bucket_key(rule.name@, ip)
                &&& size == capacity
                &&& tokens == refill_tokens
                &&& interval == refill_interval
            },
        },
{
}

/// A number of seconds since the Unix epoch is the whole seconds of a reading of the system clock, or
/// none where the clock stands before the epoch.
pub proof fn law_unix_seconds_are_read_from_the_clock(n: u64)
    requires
        is_unix_second(n),
    ensures
        exists|reading: Option<(u64, u32)>|
            {
                &&& #[trigger] system_clock_shows(reading)
                &&& reading matches Some(t) ==> n == t.0
                &&& reading is None ==> n == 0
            },
{
}

/// A store in memory counts a request, and takes a token, at the time that its own clock shows, and
/// does not set that clock.
pub proof fn law_stores_in_memory_go_by_their_clocks(
    pre: InMemoryCounterStore,
    key: Seq<char>,
    window: Duration,
    capacity: u64,
    refill_tokens: u64,
    post: InMemoryCounterStore,
    counted: Result<CounterState, StoreError>,
    taken: Result<TokenBucketState, StoreError>,
)
    ensures
        InMemoryCounterStore::may_count(pre, key, window, post, counted) ==> {
            &&& post.time_source() == pre.time_source()
            &&& exists|now: nat|
                {
                    &&& pre.time_source().shows(now)
                    &&& #[trigger] count_outcome(pre@, key, window@, now, post@, counted)
                }
        },
        InMemoryCounterStore::may_take(pre, key, capacity, refill_tokens, window, post, taken) ==> {
            &&& post.time_source() == pre.time_source()
            &&& exists|now: nat|
                {
                    &&& pre.time_source().shows(now)
                    &&& #[trigger] exact_take_outcome(
                        pre@,
                        key,
                        capacity as nat,
                        refill_tokens as nat,
                        window@,
                        now,
                        post@,
                        taken,
                    )
                }
        },
{
}

/// Whether what becomes of a request is the verdict, but for whether the request is queued.
pub open spec fn upholds(
    r: Result<EnforcementResult, LimiterError>,
    verdict: Result<EnforcementResult, LimiterError>,
) -> bool {
    match verdict {
        Ok(EnforcementResult::Throttled(before)) => {
            &&& r matches Ok(EnforcementResult::Throttled(after))
            &&& after.headers == before.headers
            &&& after.rule_name == before.rule_name
        },
        _ => r == verdict,
    }
}

/// A limiter in memory leaves a request alone that no rule applies to. Any other it counts, or takes
/// a token for, under the key of the rule and the client, which for a window is that of the second
/// that the system clock shows, and at the time that the store's clock shows; the client is told what
/// follows from the answer at a second that the system clock shows.
pub proof fn law_requests_are_held_against_their_limits(
    config: RateLimitConfig,
    ip: Seq<char>,
    method: Seq<char>,
    path: Seq<char>,
    store: InMemoryCounterStore,
    store_after: InMemoryCounterStore,
    queue: InMemoryThrottledRequestQueue,
    queue_after: InMemoryThrottledRequestQueue,
    r: Result<EnforcementResult, LimiterError>,
)
    requires
        may_check(config, ip, method, path, store, store_after, queue, queue_after, r),
    ensures
        match config.rule_for(method, path) {
            None => {
                &&& r == Ok::<EnforcementResult, LimiterError>(EnforcementResult::NotConfigured)
                &&& store_after == store
                &&& queue_after == queue
            },
            Some(rule) => match rule.algorithm {
                RateLimitAlgorithm::FixedWindow { requests_per_window, window } => {
                    exists|
                        second: u64,
                        at: nat,
                        told: u64,
                        reply: Result<CounterState, StoreError>,
                    |
                        {
                            &&& is_unix_second(second)
                            &&& is_unix_second(told)
                            &&& store.time_source().shows(at)
                            &&& #[trigger] count_outcome(
                                store@,
                                fixed_window_key(rule.name@, ip, window@, second as nat),
                                window@,
                                at,
                                store_after@,
                                reply,
                            )
                            &&& upholds(
                                r,
                                #[trigger] window_verdict(
                                    rule.name,
                                    requests_per_window,
                                    reply,
                                    told,
                                ),
                            )
                        }
                },
                RateLimitAlgorithm::TokenBucket { capacity, refill_tokens, refill_interval } => {
                    exists|at: nat, told: u64, reply: Result<TokenBucketState, StoreError>|
                        {
                            &&& is_unix_second(told)
                            &&& store.time_source().shows(at)
                            &&& #[trigger] exact_take_outcome(
                                store@,
                                token_bucket_key(rule.name@, ip),
                                capacity as nat,
                                refill_tokens as nat,
                                refill_interval@,
                                at,
                                store_after@,
                                reply,
                            )
                            &&& upholds(
                                r,
                                #[trigger] bucket_verdict(rule.name, capacity, reply, told),
                            )
                        }
                },
            },
        },
{
    if config.rule_for(method, path) is Some {
        let rule = config.rule_for(method, path)->0;
        let verdict = choose|verdict: Result<EnforcementResult, LimiterError>|
            {
                &&& #[trigger] may_judge(rule, ip, store, store_after, verdict)
                &&& may_settle(
                    rule,
                    config.queue_key@,
                    ip,
                    method,
                    path,
                    verdict,
                    queue,
                    queue_after,
                    r,
                )
            };
        assert(upholds(r, verdict));
        match rule.algorithm {
            RateLimitAlgorithm::FixedWindow { requests_per_window, window } => {
                let (second, reply, told) = choose|
                    second: u64,
                    reply: Result<CounterState, StoreError>,
                    told: u64,
                |
                    {
                        &&& is_unix_second(second)
                        &&& is_unix_second(told)
                        &&& #[trigger] InMemoryCounterStore::may_count(
                            store,
                            fixed_window_key(rule.name@, ip, window@, second as nat),
                            window,
                            store_after,
                            reply,
                        )
                        &&& verdict == #[trigger] window_verdict(
                            rule.name,
                            requests_per_window,
                            reply,
                            told,
                        )
                    };
                let key = fixed_window_key(rule.name@, ip, window@, second as nat);
                let at = choose|at: nat|
                    {
                        &&& store.time_source().shows(at)
                        &&& at <= max_span()
                        &&& #[trigger] count_outcome(
                            store@,
                            key,
                            window@,
                            at,
                            store_after@,
                            reply,
                        )
                    };
                assert(count_outcome(
                    store@,
                    fixed_window_key(rule.name@, ip, window@, second as nat),
                    window@,
                    at,
                    store_after@,
                    reply,
                ) && upholds(r, window_verdict(rule.name, requests_per_window, reply, told)));
            },
            RateLimitAlgorithm::TokenBucket { capacity, refill_tokens, refill_interval } => {
                let (reply, told) = choose|reply: Result<TokenBucketState, StoreError>, told: u64|
                    {
                        &&& is_unix_second(told)
                        &&& #[trigger] InMemoryCounterStore::may_take(
                            store,
                            token_bucket_key(rule.name@, ip),
                            capacity,
                            refill_tokens,
                            refill_interval,
                            store_after,
                            reply,
                        )
                        &&& verdict == #[trigger] bucket_verdict(rule.name, capacity, reply, told)
                    };
                let at = choose|at: nat|
                    {
                        &&& store.time_source().shows(at)
                        &&& at <= max_span()
                        &&& #[trigger] exact_take_outcome(
                            store@,
                            token_bucket_key(rule.name@, ip),
                            capacity as nat,
                            refill_tokens as nat,
                            refill_interval@,
                            at,
                            store_after@,
                            reply,
                        )
                    };
                assert(upholds(r, bucket_verdict(rule.name, capacity, reply, told)));
            },
        }
    }
}

/// A request that is throttled under a rule that queues is put at the end of the queue of the
/// configuration: the rule, the client, the method and the path, the wait that the client is told,
/// and a second that the system clock shows. No other request is queued, and each throttled one is
/// told whether it is.
pub proof fn law_throttled_requests_are_queued_where_the_rule_says_so(
    config: RateLimitConfig,
    ip: Seq<char>,
    method: Seq<char>,
    path: Seq<char>,
    store: InMemoryCounterStore,
    store_after: InMemoryCounterStore,
    queue: InMemoryThrottledRequestQueue,
    queue_after: InMemoryThrottledRequestQueue,
    r: Result<EnforcementResult, LimiterError>,
)
    requires
        may_check(config, ip, method, path, store, store_after, queue, queue_after, r),
    ensures
        match (r, config.rule_for(method, path)) {
            (Ok(EnforcementResult::Throttled(throttled)), Some(rule)) => {
                &&& rule.behavior == RateLimitBehavior::Queue ==> {
                    let request = queue_after@.last().1;
                    &&& throttled.queue_disposition == QueueDisposition::Queued
                    &&& queue_after@.len() == queue@.len() + 1
                    &&& queue_after@.drop_last() == queue@
                    &&& queue_after@.last().0 == config.queue_key@
                    &&& request.rule_name@ == rule.name@
                    &&& request.ip_address@ == ip
                    &&& request.method@ == method
                    &&& request.path@ == path
                    &&& request.retry_after_seconds == throttled.headers.retry_after_seconds
                    &&& is_unix_second(request.queued_at_unix_seconds)
                }
                &&& rule.behavior == RateLimitBehavior::Block ==> {
                    &&& throttled.queue_disposition == QueueDisposition::NotQueued
                    &&& queue_after == queue
                }
            },
            (Ok(EnforcementResult::Throttled(_)), None) => false,
            _ => queue_after == queue,
        },
{
    if config.rule_for(method, path) is Some {
        let rule = config.rule_for(method, path)->0;
        let verdict = choose|verdict: Result<EnforcementResult, LimiterError>|
            {
                &&& #[trigger] may_judge(rule, ip, store, store_after, verdict)
                &&& may_settle(
                    rule,
                    config.queue_key@,
                    ip,
                    method,
                    path,
                    verdict,
                    queue,
                    queue_after,
                    r,
                )
            };
        if verdict matches Ok(EnforcementResult::Throttled(_)) && rule.behavior
            == RateLimitBehavior::Queue {
            let wait = verdict->Ok_0->Throttled_0.headers.retry_after_seconds;
            let (request, now, reply) = choose|
                request: ThrottledRequest,
                now: u64,
                reply: Result<(), QueueError>,
            |
                {
                    &&& is_unix_second(now)
                    &&& #[trigger] request.says(rule.name@, ip, method, path, now, wait)
                    &&& #[trigger] InMemoryThrottledRequestQueue::may_enqueue(
                        queue,
                        config.queue_key@,
                        request,
                        queue_after,
                        reply,
                    )
                    &&& r == settled(verdict, Some(reply))
                };
            assert(queue_after@.drop_last() =~= queue@);
            assert(queue_after@.last() == (config.queue_key@, request));
        }
    }
}

/// What a service does with each result. A request that is allowed is served and told its very
/// headers, whatever their numbers; one that is throttled is answered with the status 429, its very
/// headers and a body that says so; all others are served without being told anything, and a failure
/// is logged in words.
pub proof fn law_answers(action: Action, checked: Option<Result<EnforcementResult, LimiterError>>)
    requires
        action.answers(checked),
    ensures
        checked is None ==> action == Action::Forward,
        checked matches Some(Ok(EnforcementResult::NotConfigured)) ==> action == Action::Forward,
        checked matches Some(Ok(EnforcementResult::Allowed(allowed))) ==> action
            == Action::ForwardWithHeaders(allowed.headers),
        checked matches Some(Ok(EnforcementResult::Throttled(throttled))) ==> {
            &&& action matches Action::Reject { status, body, headers }
            &&& status == 429
            &&& headers == throttled.headers
            &&& body.message@ == "request was rate limited"@
            &&& body.rule_name == throttled.rule_name
            &&& body.queued <==> throttled.queue_disposition == QueueDisposition::Queued
            &&& body.queue_failed <==> throttled.queue_disposition == QueueDisposition::QueueFailed
            &&& body.retry_after_seconds == throttled.headers.retry_after_seconds
        },
        checked matches Some(Err(error)) ==> {
            &&& action matches Action::FailOpen(warning)
            &&& warning@ == "rate limiter degraded to fail-open mode: "@ + error.text()
        },
{
}

/// A client is told of its limit exactly where its request was allowed or throttled, and refused
/// exactly where it was throttled.
pub proof fn law_clients_are_told_where_a_limit_was_applied(
    action: Action,
    checked: Option<Result<EnforcementResult, LimiterError>>,
)
    requires
        action.answers(checked),
    ensures
        action is ForwardWithHeaders || action is Reject <==> (checked matches Some(
            Ok(EnforcementResult::Allowed(_)),
        )) || (checked matches Some(Ok(EnforcementResult::Throttled(_)))),
        action is Reject <==> (checked matches Some(Ok(EnforcementResult::Throttled(_)))),
        action is FailOpen <==> (checked matches Some(Err(_))),
{
}

/// The four fields by which a client is told of its limit, each with one numeral; all others stay as
/// they were.
pub proof fn law_header_fields(
    fields: Map<Seq<u8>, Seq<Seq<u8>>>,
    headers: RateLimitHeaders,
    other: Seq<u8>,
)
    ensures
        ({
            let told = with_rate_limit(fields, headers);
            let limit = encode_utf8("x-ratelimit-limit"@);
            let remaining = encode_utf8("x-ratelimit-remaining"@);
            let retry_after = encode_utf8("x-ratelimit-retry-after"@);
            let reset = encode_utf8("x-ratelimit-reset"@);
            &&& told.contains_key(limit)
            &&& told[limit] == seq![encode_utf8(decimal(headers.limit as nat))]
            &&& told.contains_key(remaining)
            &&& told[remaining] == seq![encode_utf8(decimal(headers.remaining as nat))]
            &&& told.contains_key(retry_after)
            &&& told[retry_after] == seq![
                encode_utf8(decimal(headers.retry_after_seconds as nat)),
            ]
            &&& told.contains_key(reset)
            &&& told[reset] == seq![encode_utf8(decimal(headers.reset_unix_seconds as nat))]
            &&& other != limit && other != remaining && other != retry_after && other != reset ==> {
                &&& told.contains_key(other) <==> fields.contains_key(other)
                &&& told.contains_key(other) ==> told[other] == fields[other]
            }
        }),
{
    law_clients_are_told_of_their_limit(fields, headers, other);
}

/// A description of a throttled request says what its fields hold, and one that is put into a queue
/// in memory stands at its end.
pub proof fn law_descriptions(
    request: ThrottledRequest,
    rule_name: Seq<char>,
    ip: Seq<char>,
    method: Seq<char>,
    path: Seq<char>,
    now: u64,
    wait: u64,
    pre: InMemoryThrottledRequestQueue,
    queue_key: Seq<char>,
    post: InMemoryThrottledRequestQueue,
    r: Result<(), QueueError>,
)
    ensures
        request.says(rule_name, ip, method, path, now, wait) <==> {
            &&& request.rule_name@ == rule_name
            &&& request.ip_address@ == ip
            &&& request.method@ == method
            &&& request.path@ == path
            &&& request.queued_at_unix_seconds == now
            &&& request.retry_after_seconds == wait
        },
        InMemoryThrottledRequestQueue::may_enqueue(pre, queue_key, request, post, r) ==> r is Ok
            && post@ == pre@.push((queue_key, request)),
{
}

/// Errors in words: what failed, and the reason as it was given.
pub proof fn law_errors_in_words(
    config: ConfigError,
    store: StoreError,
    queue: QueueError,
    limiter: LimiterError,
)
    ensures
        config matches ConfigError::ReadFile { path, source } ==> config.text()
            == "failed to read config file "@ + path@ + ": "@ + source@,
        config matches ConfigError::ParseYaml(reason) ==> config.text()
            == "failed to parse yaml config: "@ + reason@,
        config matches ConfigError::Validation(reason) ==> config.text()
            == "config validation failed: "@ + reason@,
        store matches StoreError::Redis(reason) ==> store.text() == "redis store error: "@
            + reason@,
        store is LockPoisoned ==> store.text() == "in-memory store lock poisoned"@,
        queue matches QueueError::Redis(reason) ==> queue.text() == "redis queue error: "@
            + reason@,
        queue matches QueueError::Serialize(reason) ==> queue.text()
            == "failed to serialize queued request: "@ + reason@,
        limiter matches LimiterError::Store(error) ==> limiter.text() == "counter store error: "@
            + error.text(),
        limiter matches LimiterError::Queue(error) ==> limiter.text() == "queue error: "@
            + error.text(),
{
}

} // verus!
