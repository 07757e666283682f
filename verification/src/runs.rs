//! Runs of requests: what a store in memory, and a limiter that goes by one, answer to one request
//! after another at given readings of their clocks, and what holds of all of it.

use crate::config::{RateLimitAlgorithm, RateLimitBehavior, RateLimitConfig, RateLimitRule};
use crate::laws::{
    law_bucket_keys_tell_rules_apart, law_first_matching_rule_applies,
    law_refills_keep_up_with_time, law_reset_after_is_the_shortest_wait,
    law_retry_after_is_the_shortest_wait, law_window_keys_tell_rules_apart, law_windows_part_time,
    whole_millis, without_colon,
};
use crate::limiter::{
    bucket_verdict, counter_verdict, fixed_window_key, may_check, may_judge, may_settle, settled,
    take_verdict, to_be_queued, token_bucket_key, window_start, window_verdict, EnforcementResult,
    LimiterError, QueueDisposition,
};
use crate::queue::{
    InMemoryThrottledRequestQueue, QueueError, ThrottledRequest, ThrottledRequestQueue,
};
use crate::store::{
    bucket_of, can_count, can_take, count_outcome, count_reply, counted, exact_take,
    exact_take_outcome, open_windows, refill_periods, refills_to_fill, take_plan, BucketModel,
    CountModel, CounterState, InMemoryCounterStore, RateLimitStore, StoreError, StoreModel,
    TakeModel, TokenBucketState,
};
use crate::time::{is_unix_second, max_span, monus, Duration};
use vstd::prelude::*;

verus! {

/// What a store is asked at the time `at` of its clock: times are in nanoseconds.
pub enum StoreOp {
    /// To count a request under `key`, in windows of length `window`.
    Count { key: Seq<char>, window: nat, at: nat },
    /// For a token from the bucket under `key`.
    Take { key: Seq<char>, capacity: nat, refill_tokens: nat, interval: nat, at: nat },
}

impl StoreOp {
    /// When the store is asked.
    pub open spec fn time(self) -> nat {
        match self {
            StoreOp::Count { at, .. } => at,
            StoreOp::Take { at, .. } => at,
        }
    }

    /// Whether a request is counted under the key.
    pub open spec fn counts_under(self, name: Seq<char>) -> bool {
        self matches StoreOp::Count { key, .. } && key == name
    }

    /// Whether the bucket under the key is asked for a token.
    pub open spec fn takes_from(self, name: Seq<char>) -> bool {
        self matches StoreOp::Take { key, .. } && key == name
    }
}

/// What a store answers: nothing where a count or a time would leave the range in which it can be
/// kept.
pub enum StoreAnswer {
    Counted(Option<CountModel>),
    Taken(Option<TakeModel>),
}

/// A store after it was asked, and its answer.
pub open spec fn served(pre: StoreModel, op: StoreOp) -> (StoreModel, StoreAnswer) {
    match op {
        StoreOp::Count { key, window, at } => {
            let counter = counted(pre.windows, key, window, at);
            if can_count(pre.windows, key, window, at) {
                (
                    StoreModel {
                        windows: open_windows(pre.windows, at).insert(key, counter),
                        buckets: pre.buckets,
                    },
                    StoreAnswer::Counted(Some(count_reply(counter, at))),
                )
            } else {
                (pre, StoreAnswer::Counted(None))
            }
        },
        StoreOp::Take { key, capacity, refill_tokens, interval, at } => {
            let bucket = bucket_of(pre.buckets, key, capacity, at);
            let plan = take_plan(bucket, capacity, refill_tokens, interval, at);
            let step = exact_take(bucket, capacity, refill_tokens, interval, at);
            if can_take(bucket, capacity, refill_tokens, interval, at, interval * plan.0) && interval
                * plan.1 <= max_span() {
                (
                    StoreModel {
                        windows: pre.windows,
                        buckets: pre.buckets.insert(key, step.0),
                    },
                    StoreAnswer::Taken(Some(step.1)),
                )
            } else {
                (pre, StoreAnswer::Taken(None))
            }
        },
    }
}

/// Counting a request takes a store in memory where it says, with the answer that it says.
pub proof fn law_counting_is_served(
    pre: StoreModel,
    key: Seq<char>,
    window: nat,
    now: nat,
    post: StoreModel,
    r: Result<CounterState, StoreError>,
)
    requires
        count_outcome(pre, key, window, now, post, r),
    ensures
        served(pre, StoreOp::Count { key, window, at: now }) == (
            post,
            StoreAnswer::Counted(
                match r {
                    Ok(state) => Some(state@),
                    Err(_) => None,
                },
            ),
        ),
        r matches Err(error) ==> error == StoreError::OutOfRange,
{
}

/// Taking a token takes a store in memory where it says, with the answer that it says.
pub proof fn law_taking_is_served(
    pre: StoreModel,
    key: Seq<char>,
    capacity: nat,
    refill_tokens: nat,
    interval: nat,
    now: nat,
    post: StoreModel,
    r: Result<TokenBucketState, StoreError>,
)
    requires
        exact_take_outcome(pre, key, capacity, refill_tokens, interval, now, post, r),
    ensures
        served(pre, StoreOp::Take { key, capacity, refill_tokens, interval, at: now }) == (
            post,
            StoreAnswer::Taken(
                match r {
                    Ok(state) => Some(state@),
                    Err(_) => None,
                },
            ),
        ),
        r matches Err(error) ==> error == StoreError::OutOfRange,
{
}

/// A store after it was asked one thing after another.
pub open spec fn after_ops(pre: StoreModel, ops: Seq<StoreOp>) -> StoreModel
    decreases ops.len(),
{
    if ops.len() == 0 {
        pre
    } else {
        served(after_ops(pre, ops.drop_last()), ops.last()).0
    }
}

/// Whatever a store is asked in between, if the bucket under `key` is not asked for a token, its
/// next answer is the same as without it.
pub proof fn law_other_calls_leave_a_bucket_alone(
    pre: StoreModel,
    ops: Seq<StoreOp>,
    key: Seq<char>,
    capacity: nat,
    refill_tokens: nat,
    interval: nat,
    at: nat,
)
    requires
        forall|i: int| 0 <= i < ops.len() ==> !(#[trigger] ops[i]).takes_from(key),
    ensures
        bucket_of(after_ops(pre, ops).buckets, key, capacity, at) == bucket_of(
            pre.buckets,
            key,
            capacity,
            at,
        ),
        ({
            let op = StoreOp::Take { key, capacity, refill_tokens, interval, at };
            served(after_ops(pre, ops), op).1 == served(pre, op).1
        }),
    decreases ops.len(),
{
    if ops.len() > 0 {
        let earlier = ops.drop_last();
        assert forall|i: int| 0 <= i < earlier.len() implies !(#[trigger] earlier[i]).takes_from(
            key,
        ) by {
            assert(earlier[i] == ops[i]);
        }
        assert(ops.last() == ops[ops.len() - 1]);
        law_other_calls_leave_a_bucket_alone(
            pre,
            earlier,
            key,
            capacity,
            refill_tokens,
            interval,
            at,
        );
    }
}

/// Whether a store is asked one thing after another, the last of them not after `end`.
pub open spec fn ops_in_order(ops: Seq<StoreOp>, end: nat) -> bool {
    &&& forall|i: int, j: int|
        0 <= i <= j < ops.len() ==> (#[trigger] ops[i]).time() <= (#[trigger] ops[j]).time()
    &&& forall|i: int| 0 <= i < ops.len() ==> (#[trigger] ops[i]).time() <= end
}

/// Whatever a store is asked in between, if no request is counted under `key`, the next one that is
/// gets the same answer as without it.
pub proof fn law_other_calls_leave_a_counter_alone(
    pre: StoreModel,
    ops: Seq<StoreOp>,
    key: Seq<char>,
    window: nat,
    at: nat,
)
    requires
        ops_in_order(ops, at),
        forall|i: int| 0 <= i < ops.len() ==> !(#[trigger] ops[i]).counts_under(key),
    ensures
        ({
            let op = StoreOp::Count { key, window, at };
            served(after_ops(pre, ops), op).1 == served(pre, op).1
        }),
    decreases ops.len(),
{
    if ops.len() > 0 {
        let earlier = ops.drop_last();
        assert forall|i: int| 0 <= i < earlier.len() implies #[trigger] earlier[i] == ops[i] by {}
        assert(ops.last() == ops[ops.len() - 1]);
        law_other_calls_leave_a_counter_alone(pre, earlier, key, window, at);
    }
}

/// How often the bucket under `key` is asked for a token.
pub open spec fn asked(ops: Seq<StoreOp>, key: Seq<char>) -> nat
    decreases ops.len(),
{
    if ops.len() == 0 {
        0
    } else {
        asked(ops.drop_last(), key) + (if ops.last().takes_from(key) {
            1nat
        } else {
            0
        })
    }
}

/// Whether the bucket under `key` is asked for tokens with the same numbers each time, between
/// `start` and an interval after it, and always answers.
pub open spec fn burst(
    pre: StoreModel,
    ops: Seq<StoreOp>,
    key: Seq<char>,
    capacity: nat,
    refill_tokens: nat,
    interval: nat,
    start: nat,
) -> bool
    decreases ops.len(),
{
    ops.len() > 0 ==> {
        let earlier = ops.drop_last();
        let last = ops.last();
        &&& burst(pre, earlier, key, capacity, refill_tokens, interval, start)
        &&& last.takes_from(key) ==> {
            &&& last == (StoreOp::Take { key, capacity, refill_tokens, interval, at: last.time() })
            &&& start <= last.time() < start + interval
            &&& served(after_ops(pre, earlier), last).1 matches StoreAnswer::Taken(Some(_))
        }
    }
}

/// With an interval of whole milliseconds, no refill is due before an interval has passed.
proof fn lemma_no_refill_yet(bucket: BucketModel, interval: nat, now: nat)
    requires
        whole_millis(interval),
        now < bucket.last_refill + interval,
    ensures
        refill_periods(bucket, interval, now) == 0,
{
    let elapsed_ms = monus(now, bucket.last_refill) / 1_000_000;
    let interval_ms = interval / 1_000_000;
    assert(elapsed_ms < interval_ms);
    vstd::arithmetic::div_mod::lemma_basic_div(elapsed_ms as int, interval_ms as int);
}

/// What a burst leaves of a bucket that nobody asked for a token before.
proof fn lemma_burst(
    pre: StoreModel,
    ops: Seq<StoreOp>,
    key: Seq<char>,
    capacity: nat,
    refill_tokens: nat,
    interval: nat,
    start: nat,
)
    requires
        whole_millis(interval),
        !pre.buckets.contains_key(key),
        burst(pre, ops, key, capacity, refill_tokens, interval, start),
    ensures
        ({
            let buckets = after_ops(pre, ops).buckets;
            &&& buckets.contains_key(key) <==> asked(ops, key) > 0
            &&& buckets.contains_key(key) ==> {
                &&& buckets[key].tokens == monus(capacity, asked(ops, key))
                &&& start <= buckets[key].last_refill < start + interval
            }
        }),
    decreases ops.len(),
{
    if ops.len() > 0 {
        let earlier = ops.drop_last();
        let last = ops.last();
        lemma_burst(pre, earlier, key, capacity, refill_tokens, interval, start);
        if last.takes_from(key) {
            let bucket = bucket_of(after_ops(pre, earlier).buckets, key, capacity, last.time());
            lemma_no_refill_yet(bucket, interval, last.time());
        }
    }
}

/// Of the requests that ask a new bucket for a token within one interval, whatever else the store is
/// asked in between, as many as the bucket holds get one and no more, and each is told what is left:
/// the one that asks at `at` comes after those among `ops`.
pub proof fn law_new_bucket_serves_its_capacity(
    pre: StoreModel,
    ops: Seq<StoreOp>,
    key: Seq<char>,
    capacity: nat,
    refill_tokens: nat,
    interval: nat,
    start: nat,
    at: nat,
)
    requires
        whole_millis(interval),
        !pre.buckets.contains_key(key),
        burst(pre, ops, key, capacity, refill_tokens, interval, start),
        start <= at < start + interval,
    ensures
        served(
            after_ops(pre, ops),
            StoreOp::Take { key, capacity, refill_tokens, interval, at },
        ).1 matches StoreAnswer::Taken(Some(reply)) ==> {
            &&& reply.allowed <==> asked(ops, key) < capacity
            &&& reply.tokens_remaining == monus(capacity, asked(ops, key) + 1)
        },
{
    lemma_burst(pre, ops, key, capacity, refill_tokens, interval, start);
    lemma_no_refill_yet(
        bucket_of(after_ops(pre, ops).buckets, key, capacity, at),
        interval,
        at,
    );
}

/// Whether the bucket under `key`, if there is one, holds no more than its capacity and was not last
/// refilled after `now`.
pub open spec fn sound_bucket(
    store: StoreModel,
    key: Seq<char>,
    capacity: nat,
    now: nat,
) -> bool {
    store.buckets.contains_key(key) ==> {
        &&& store.buckets[key].tokens <= capacity
        &&& store.buckets[key].last_refill <= now
    }
}

/// A bucket that is asked for tokens with the same numbers each time holds no more than its capacity
/// and is never refilled ahead of time, whatever else the store is asked.
pub proof fn law_buckets_stay_sound(
    pre: StoreModel,
    ops: Seq<StoreOp>,
    key: Seq<char>,
    capacity: nat,
    refill_tokens: nat,
    interval: nat,
    start: nat,
    end: nat,
)
    requires
        whole_millis(interval),
        sound_bucket(pre, key, capacity, start),
        start <= end,
        ops_in_order(ops, end),
        forall|i: int|
            0 <= i < ops.len() ==> {
                &&& start <= (#[trigger] ops[i]).time()
                &&& ops[i].takes_from(key) ==> ops[i] == (StoreOp::Take {
                    key,
                    capacity,
                    refill_tokens,
                    interval,
                    at: ops[i].time(),
                })
            },
    ensures
        sound_bucket(after_ops(pre, ops), key, capacity, end),
    decreases ops.len(),
{
    if ops.len() > 0 {
        let earlier = ops.drop_last();
        let last = ops.last();
        assert forall|i: int| 0 <= i < earlier.len() implies #[trigger] earlier[i] == ops[i] by {}
        assert(last == ops[ops.len() - 1]);
        law_buckets_stay_sound(
            pre,
            earlier,
            key,
            capacity,
            refill_tokens,
            interval,
            start,
            last.time(),
        );
        if last.takes_from(key) {
            let bucket = bucket_of(after_ops(pre, earlier).buckets, key, capacity, last.time());
            law_refills_keep_up_with_time(bucket, capacity, refill_tokens, interval, last.time());
        }
    }
}

/// With an interval of a second at least, the refills that are due at any moment that a clock can
/// show can be counted.
proof fn lemma_refills_can_be_counted(bucket: BucketModel, interval: nat, now: nat)
    requires
        interval >= 1_000_000_000,
        now <= max_span(),
    ensures
        refill_periods(bucket, interval, now) <= u64::MAX,
{
    let elapsed_ms = (monus(now, bucket.last_refill) / 1_000_000) as int;
    let interval_ms = (interval / 1_000_000) as int;
    vstd::arithmetic::div_mod::lemma_div_is_ordered_by_denominator(elapsed_ms, 1000, interval_ms);
}

/// What a request is told of the waits until there is a token and until the bucket is full is exact,
/// where intervals are in whole seconds. After a request at `now`, whatever the store is asked in
/// between but for a token of that bucket, the next request for one, at `later`, gets it from the
/// one moment on and not earlier, and finds the bucket full from the other on and not earlier.
pub proof fn law_next_request_goes_by_what_was_told(
    pre: StoreModel,
    key: Seq<char>,
    capacity: nat,
    refill_tokens: nat,
    interval: nat,
    now: nat,
    told: TakeModel,
    ops: Seq<StoreOp>,
    later: nat,
    next: TakeModel,
)
    requires
        capacity > 0,
        refill_tokens > 0,
        interval > 0,
        interval % 1_000_000_000 == 0,
        sound_bucket(pre, key, capacity, now),
        now <= later <= max_span(),
        forall|i: int| 0 <= i < ops.len() ==> !(#[trigger] ops[i]).takes_from(key),
        ({
            let (mid, answer) = served(
                pre,
                StoreOp::Take { key, capacity, refill_tokens, interval, at: now },
            );
            let last = served(
                after_ops(mid, ops),
                StoreOp::Take { key, capacity, refill_tokens, interval, at: later },
            );
            &&& answer == StoreAnswer::Taken(Some(told))
            &&& last.1 == StoreAnswer::Taken(Some(next))
        }),
    ensures
        told.retry_after == 0 <==> told.allowed,
        !told.allowed ==> {
            &&& told.tokens_remaining == 0
            &&& 0 < told.retry_after <= interval
            &&& told.retry_after <= told.reset_after
            &&& next.allowed <==> now + told.retry_after <= later
        },
        told.reset_after > 0,
        next.allowed && next.tokens_remaining == capacity - 1 <==> now + told.reset_after <= later,
{
    let bucket = bucket_of(pre.buckets, key, capacity, now);
    let mid = served(pre, StoreOp::Take { key, capacity, refill_tokens, interval, at: now }).0;
    let after = exact_take(bucket, capacity, refill_tokens, interval, now).0;
    assert(bucket_of(mid.buckets, key, capacity, later) == after);
    law_other_calls_leave_a_bucket_alone(
        mid,
        ops,
        key,
        capacity,
        refill_tokens,
        interval,
        later,
    );
    lemma_refills_can_be_counted(after, interval, later);
    law_retry_after_is_the_shortest_wait(bucket, capacity, refill_tokens, interval, now, later);
    law_reset_after_is_the_shortest_wait(bucket, capacity, refill_tokens, interval, now, later);
}

/// A request that a limiter holds against its limit: who makes it and what it is, and what the
/// clocks show meanwhile. The system clock shows `second` when its counter is looked up and `told`
/// when the client is told of its limit, the store's clock shows `at`.
pub struct Check {
    pub ip: Seq<char>,
    pub method: Seq<char>,
    pub path: Seq<char>,
    pub second: u64,
    pub at: nat,
    pub told: u64,
}

/// A store that holds nothing.
pub open spec fn empty_store() -> StoreModel {
    StoreModel { windows: Map::empty(), buckets: Map::empty() }
}

/// What the rule asks the store for the request.
pub open spec fn op_for(rule: RateLimitRule, check: Check) -> StoreOp {
    match rule.algorithm {
        RateLimitAlgorithm::FixedWindow { window, .. } => StoreOp::Count {
            key: fixed_window_key(rule.name@, check.ip, window@, check.second as nat),
            window: window@,
            at: check.at,
        },
        RateLimitAlgorithm::TokenBucket { capacity, refill_tokens, refill_interval } => {
            StoreOp::Take {
                key: token_bucket_key(rule.name@, check.ip),
                capacity: capacity as nat,
                refill_tokens: refill_tokens as nat,
                interval: refill_interval@,
                at: check.at,
            }
        },
    }
}

/// What becomes of a request under the rule, at `told`, that the store gave the answer.
pub open spec fn judged(rule: RateLimitRule, answer: StoreAnswer, told: u64) -> Result<
    EnforcementResult,
    LimiterError,
> {
    match (rule.algorithm, answer) {
        (
            RateLimitAlgorithm::FixedWindow { requests_per_window, .. },
            StoreAnswer::Counted(Some(counter)),
        ) => counter_verdict(rule.name, requests_per_window, counter, told),
        (
            RateLimitAlgorithm::TokenBucket { capacity, .. },
            StoreAnswer::Taken(Some(bucket)),
        ) => take_verdict(rule.name, capacity, bucket, told),
        _ => Err(LimiterError::Store(StoreError::OutOfRange)),
    }
}

/// What becomes of a request in the end where queues take every description.
pub open spec fn queued_where_due(
    rule: RateLimitRule,
    verdict: Result<EnforcementResult, LimiterError>,
) -> Result<EnforcementResult, LimiterError> {
    settled(
        verdict,
        match to_be_queued(rule, verdict) {
            Some(_) => Some(Ok(())),
            None => None,
        },
    )
}

/// A store in memory after a request was held against its limit, and what becomes of the request.
pub open spec fn checked(config: RateLimitConfig, pre: StoreModel, check: Check) -> (
    StoreModel,
    Result<EnforcementResult, LimiterError>,
) {
    match config.rule_for(check.method, check.path) {
        None => (pre, Ok(EnforcementResult::NotConfigured)),
        Some(rule) => {
            let (post, answer) = served(pre, op_for(rule, check));
            (post, queued_where_due(rule, judged(rule, answer, check.told)))
        },
    }
}

/// A limiter in memory does with every request what is said of it, at some readings of its clocks.
pub proof fn law_limiters_in_memory_check(
    config: RateLimitConfig,
    ip: Seq<char>,
    method: Seq<char>,
    path: Seq<char>,
    store: InMemoryCounterStore,
    store_after: InMemoryCounterStore,
    queue: InMemoryThrottledRequestQueue,
    queue_after: InMemoryThrottledRequestQueue,
    r: Result<EnforcementResult, LimiterError>,
)
    requires
        may_check(config, ip, method, path, store, store_after, queue, queue_after, r),
    ensures
        exists|check: Check|
            {
                &&& check.ip == ip
                &&& check.method == method
                &&& check.path == path
                &&& #[trigger] checked(config, store@, check) == (store_after@, r)
                &&& config.rule_for(method, path) is Some ==> {
                    &&& is_unix_second(check.second)
                    &&& is_unix_second(check.told)
                    &&& store.time_source().shows(check.at)
                    &&& check.at <= max_span()
                }
            },
{
    match config.rule_for(method, path) {
        None => {
            let check = Check { ip, method, path, second: 0, at: 0, told: 0 };
            assert(checked(config, store@, check) == (store_after@, r));
        },
        Some(rule) => {
            let verdict = choose|verdict: Result<EnforcementResult, LimiterError>|
                {
                    &&& #[trigger] may_judge(rule, ip, store, store_after, verdict)
                    &&& may_settle(
                        rule,
                        config.queue_key@,
                        ip,
                        method,
                        path,
                        verdict,
                        queue,
                        queue_after,
                        r,
                    )
                };
            lemma_settled_in_memory(
                rule,
                config.queue_key@,
                ip,
                method,
                path,
                verdict,
                queue,
                queue_after,
                r,
            );
            let check = lemma_judged_in_memory(rule, ip, method, path, store, store_after, verdict);
            assert(checked(config, store@, check) == (store_after@, r));
        },
    }
}

/// Queues in memory take every description that is due.
proof fn lemma_settled_in_memory(
    rule: RateLimitRule,
    queue_key: Seq<char>,
    ip: Seq<char>,
    method: Seq<char>,
    path: Seq<char>,
    verdict: Result<EnforcementResult, LimiterError>,
    pre: InMemoryThrottledRequestQueue,
    post: InMemoryThrottledRequestQueue,
    r: Result<EnforcementResult, LimiterError>,
)
    requires
        may_settle(rule, queue_key, ip, method, path, verdict, pre, post, r),
    ensures
        r == queued_where_due(rule, verdict),
{
    if to_be_queued(rule, verdict) is Some {
        let (request, now, reply) = choose|
            request: ThrottledRequest,
            now: u64,
            reply: Result<(), QueueError>,
        |
            {
                &&& is_unix_second(now)
                &&& #[trigger] request.says(
                    rule.name@,
                    ip,
                    method,
                    path,
                    now,
                    to_be_queued(rule, verdict)->0,
                )
                &&& #[trigger] InMemoryThrottledRequestQueue::may_enqueue(
                    pre,
                    queue_key,
                    request,
                    post,
                    reply,
                )
                &&& r == settled(verdict, Some(reply))
            };
        assert(reply is Ok);
        assert(r == settled(verdict, Some(Ok(()))));
    }
}

/// What a store in memory answers to a request, at some readings of the clocks.
proof fn lemma_judged_in_memory(
    rule: RateLimitRule,
    ip: Seq<char>,
    method: Seq<char>,
    path: Seq<char>,
    pre: InMemoryCounterStore,
    post: InMemoryCounterStore,
    verdict: Result<EnforcementResult, LimiterError>,
) -> (check: Check)
    requires
        may_judge(rule, ip, pre, post, verdict),
    ensures
        check.ip == ip,
        check.method == method,
        check.path == path,
        is_unix_second(check.second),
        is_unix_second(check.told),
        pre.time_source().shows(check.at),
        check.at <= max_span(),
        ({
            let (store, answer) = served(pre@, op_for(rule, check));
            &&& store == post@
            &&& judged(rule, answer, check.told) == verdict
        }),
{
    match rule.algorithm {
        RateLimitAlgorithm::FixedWindow { requests_per_window, window } => {
            let (second, reply, told) = choose|
                second: u64,
                reply: Result<CounterState, StoreError>,
                told: u64,
            |
                {
                    &&& is_unix_second(second)
                    &&& is_unix_second(told)
                    &&& #[trigger] InMemoryCounterStore::may_count(
                        pre,
                        fixed_window_key(rule.name@, ip, window@, second as nat),
                        window,
                        post,
                        reply,
                    )
                    &&& verdict == #[trigger] window_verdict(
                        rule.name,
                        requests_per_window,
                        reply,
                        told,
                    )
                };
            let key = fixed_window_key(rule.name@, ip, window@, second as nat);
            let at = choose|at: nat|
                {
                    &&& pre.time_source().shows(at)
                    &&& at <= max_span()
                    &&& #[trigger] count_outcome(pre@, key, window@, at, post@, reply)
                };
            law_counting_is_served(pre@, key, window@, at, post@, reply);
            Check { ip, method, path, second, at, told }
        },
        RateLimitAlgorithm::TokenBucket { capacity, refill_tokens, refill_interval } => {
            let (reply, told) = choose|reply: Result<TokenBucketState, StoreError>, told: u64|
                {
                    &&& is_unix_second(told)
                    &&& #[trigger] InMemoryCounterStore::may_take(
                        pre,
                        token_bucket_key(rule.name@, ip),
                        capacity,
                        refill_tokens,
                        refill_interval,
                        post,
                        reply,
                    )
                    &&& verdict == #[trigger] bucket_verdict(rule.name, capacity, reply, told)
                };
            let key = token_bucket_key(rule.name@, ip);
            let at = choose|at: nat|
                {
                    &&& pre.time_source().shows(at)
                    &&& at <= max_span()
                    &&& #[trigger] exact_take_outcome(
                        pre@,
                        key,
                        capacity as nat,
                        refill_tokens as nat,
                        refill_interval@,
                        at,
                        post@,
                        reply,
                    )
                };
            law_taking_is_served(
                pre@,
                key,
                capacity as nat,
                refill_tokens as nat,
                refill_interval@,
                at,
                post@,
                reply,
            );
            Check { ip, method, path, second: told, at, told }
        },
    }
}

/// A store in memory after one request after another was held against its limit.
pub open spec fn after_checks(
    config: RateLimitConfig,
    pre: StoreModel,
    checks: Seq<Check>,
) -> StoreModel
    decreases checks.len(),
{
    if checks.len() == 0 {
        pre
    } else {
        checked(config, after_checks(config, pre, checks.drop_last()), checks.last()).0
    }
}

/// What becomes of the requests of the client, one after another, in a run of requests.
pub open spec fn results_for(
    config: RateLimitConfig,
    pre: StoreModel,
    checks: Seq<Check>,
    ip: Seq<char>,
) -> Seq<Result<EnforcementResult, LimiterError>>
    decreases checks.len(),
{
    if checks.len() == 0 {
        Seq::empty()
    } else {
        let earlier = checks.drop_last();
        let results = results_for(config, pre, earlier, ip);
        if checks.last().ip == ip {
            results.push(checked(config, after_checks(config, pre, earlier), checks.last()).1)
        } else {
            results
        }
    }
}

/// The run without the requests of the client.
pub open spec fn without(checks: Seq<Check>, ip: Seq<char>) -> Seq<Check>
    decreases checks.len(),
{
    if checks.len() == 0 {
        Seq::empty()
    } else {
        let rest = without(checks.drop_last(), ip);
        if checks.last().ip == ip {
            rest
        } else {
            rest.push(checks.last())
        }
    }
}

/// Whether the requests follow one another by the store's clock.
pub open spec fn checks_in_order(checks: Seq<Check>) -> bool {
    forall|i: int, j: int|
        0 <= i <= j < checks.len() ==> (#[trigger] checks[i]).at <= (#[trigger] checks[j]).at
}

/// Whether no rule has a colon in its name.
pub open spec fn names_without_colon(config: RateLimitConfig) -> bool {
    forall|i: int|
        0 <= i < config.rules@.len() ==> without_colon((#[trigger] config.rules@[i]).name@)
}

/// Whether this is the key of a counter of the client.
spec fn counter_of(key: Seq<char>, ip: Seq<char>) -> bool {
    exists|name: Seq<char>, window: nat, second: nat|
        without_colon(name) && key == #[trigger] fixed_window_key(name, ip, window, second)
}

/// Whether this is the key of a bucket of the client.
spec fn bucket_key_of(key: Seq<char>, ip: Seq<char>) -> bool {
    exists|name: Seq<char>| without_colon(name) && key == #[trigger] token_bucket_key(name, ip)
}

/// Whether two stores have the same under `key`, from the moment `from` on, unless it is a key of
/// the client.
spec fn same_under(a: StoreModel, b: StoreModel, ip: Seq<char>, from: nat, key: Seq<char>) -> bool {
    &&& !counter_of(key, ip) ==> {
        &&& open_windows(a.windows, from).contains_key(key) <==> open_windows(
            b.windows,
            from,
        ).contains_key(key)
        &&& open_windows(a.windows, from).contains_key(key) ==> a.windows[key] == b.windows[key]
    }
    &&& !bucket_key_of(key, ip) ==> {
        &&& a.buckets.contains_key(key) <==> b.buckets.contains_key(key)
        &&& a.buckets.contains_key(key) ==> a.buckets[key] == b.buckets[key]
    }
}

/// Whether two stores have the same, from the moment `from` on, but for the keys of the client.
spec fn same_but_for(a: StoreModel, b: StoreModel, ip: Seq<char>, from: nat) -> bool {
    forall|key: Seq<char>| #[trigger] same_under(a, b, ip, from, key)
}

/// Requests of the client change nothing but what is under its keys.
proof fn lemma_own_keys_only(a: StoreModel, b: StoreModel, ip: Seq<char>, from: nat, op: StoreOp)
    requires
        same_but_for(a, b, ip, from),
        from <= op.time(),
        match op {
            StoreOp::Count { key, .. } => counter_of(key, ip),
            StoreOp::Take { key, .. } => bucket_key_of(key, ip),
        },
    ensures
        same_but_for(served(a, op).0, b, ip, op.time()),
{
    assert forall|key: Seq<char>| #[trigger] same_under(
        served(a, op).0,
        b,
        ip,
        op.time(),
        key,
    ) by {
        assert(same_under(a, b, ip, from, key));
    }
}

/// Stores that have the same but for the keys of the client answer the requests of others alike.
proof fn lemma_others_are_answered_alike(
    a: StoreModel,
    b: StoreModel,
    ip: Seq<char>,
    from: nat,
    op: StoreOp,
)
    requires
        same_but_for(a, b, ip, from),
        from <= op.time(),
        match op {
            StoreOp::Count { key, .. } => !counter_of(key, ip),
            StoreOp::Take { key, .. } => !bucket_key_of(key, ip),
        },
    ensures
        served(a, op).1 == served(b, op).1,
        same_but_for(served(a, op).0, served(b, op).0, ip, op.time()),
{
    match op {
        StoreOp::Count { key, .. } => {
            assert(same_under(a, b, ip, from, key));
        },
        StoreOp::Take { key, .. } => {
            assert(same_under(a, b, ip, from, key));
        },
    }
    assert forall|key: Seq<char>| #[trigger] same_under(
        served(a, op).0,
        served(b, op).0,
        ip,
        op.time(),
        key,
    ) by {
        assert(same_under(a, b, ip, from, key));
    }
}

/// Two runs that differ in the requests of the client alone.
proof fn lemma_runs_without(
    config: RateLimitConfig,
    pre: StoreModel,
    checks: Seq<Check>,
    ip: Seq<char>,
    other: Seq<char>,
)
    requires
        names_without_colon(config),
        checks_in_order(checks),
        ip != other,
    ensures
        same_but_for(
            after_checks(config, pre, checks),
            after_checks(config, pre, without(checks, other)),
            other,
            if checks.len() == 0 {
                0
            } else {
                checks.last().at
            },
        ),
        results_for(config, pre, checks, ip) == results_for(
            config,
            pre,
            without(checks, other),
            ip,
        ),
    decreases checks.len(),
{
    if checks.len() > 0 {
        let earlier = checks.drop_last();
        let last = checks.last();
        let from = if earlier.len() == 0 {
            0
        } else {
            earlier.last().at
        };
        assert forall|i: int| 0 <= i < earlier.len() implies #[trigger] earlier[i] == checks[i] by {}
        assert(last == checks[checks.len() - 1]);
        assert(earlier.len() > 0 ==> earlier.last() == checks[checks.len() - 2]);
        lemma_runs_without(config, pre, earlier, ip, other);
        let a = after_checks(config, pre, earlier);
        let b = after_checks(config, pre, without(earlier, other));
        let rest = without(earlier, other);
        if last.ip != other {
            assert(without(checks, other) == rest.push(last));
            assert(rest.push(last).drop_last() =~= rest);
        }
        match config.rule_for(last.method, last.path) {
            None => {
                assert forall|key: Seq<char>| #[trigger] same_under(a, b, other, last.at, key) by {
                    assert(same_under(a, b, other, from, key));
                }
            },
            Some(rule) => {
                law_first_matching_rule_applies(config.rules@, last.method, last.path, 0);
                assert(without_colon(rule.name@));
                let op = op_for(rule, last);
                if last.ip == other {
                    lemma_own_keys_only(a, b, other, from, op);
                } else {
                    lemma_keys_of_others(rule, last, other);
                    lemma_others_are_answered_alike(a, b, other, from, op);
                }
            },
        }
    }
}

/// What is asked for one client is not under the keys of another.
proof fn lemma_keys_of_others(rule: RateLimitRule, check: Check, other: Seq<char>)
    requires
        without_colon(rule.name@),
        check.ip != other,
    ensures
        match op_for(rule, check) {
            StoreOp::Count { key, .. } => !counter_of(key, other),
            StoreOp::Take { key, .. } => !bucket_key_of(key, other),
        },
{
    match op_for(rule, check) {
        StoreOp::Count { key, window, .. } => {
            if counter_of(key, other) {
                let (name, length, second) = choose|name: Seq<char>, length: nat, second: nat|
                    without_colon(name) && key == #[trigger] fixed_window_key(
                        name,
                        other,
                        length,
                        second,
                    );
                law_window_keys_tell_rules_apart(
                    rule.name@,
                    check.ip,
                    window,
                    check.second as nat,
                    name,
                    other,
                    length,
                    second,
                );
            }
        },
        StoreOp::Take { key, .. } => {
            if bucket_key_of(key, other) {
                let name = choose|name: Seq<char>|
                    without_colon(name) && key == #[trigger] token_bucket_key(name, other);
                law_bucket_keys_tell_rules_apart(rule.name@, check.ip, name, other);
            }
        },
    }
}

/// Limits are enforced per client: what becomes of the requests of one client in a run of requests
/// is what becomes of them in the same run without those of another, whatever rules apply to them
/// and whatever the store held before.
pub proof fn law_clients_do_not_affect_each_other(
    config: RateLimitConfig,
    pre: StoreModel,
    checks: Seq<Check>,
    ip: Seq<char>,
    other: Seq<char>,
)
    requires
        names_without_colon(config),
        checks_in_order(checks),
        ip != other,
    ensures
        results_for(config, pre, checks, ip) == results_for(
            config,
            pre,
            without(checks, other),
            ip,
        ),
{
    lemma_runs_without(config, pre, checks, ip, other);
}

/// Whether a request under the rule was within its limit, which is told as `limit`, and so much of
/// it remains.
pub open spec fn passes(
    r: Result<EnforcementResult, LimiterError>,
    rule: RateLimitRule,
    limit: u64,
    remaining: int,
) -> bool {
    &&& r matches Ok(EnforcementResult::Allowed(allowed))
    &&& allowed.rule_name == rule.name
    &&& allowed.headers.limit == limit
    &&& allowed.headers.remaining == remaining
    &&& allowed.headers.retry_after_seconds == 0
}

/// Whether a request under the rule was over its limit, which is told as `limit`, nothing of it
/// remains, and the request is queued if the rule says so.
pub open spec fn is_refused(
    r: Result<EnforcementResult, LimiterError>,
    rule: RateLimitRule,
    limit: u64,
) -> bool {
    &&& r matches Ok(EnforcementResult::Throttled(throttled))
    &&& throttled.rule_name == rule.name
    &&& throttled.headers.limit == limit
    &&& throttled.headers.remaining == 0
    &&& throttled.queue_disposition == match rule.behavior {
        RateLimitBehavior::Block => QueueDisposition::NotQueued,
        RateLimitBehavior::Queue => QueueDisposition::Queued,
    }
}

/// Whether the first requests of the client, as many as the limit says, are within it, each leaves
/// one fewer, and all others are over it.
pub open spec fn first_ones_pass(
    results: Seq<Result<EnforcementResult, LimiterError>>,
    rule: RateLimitRule,
    limit: u64,
) -> bool {
    forall|i: int|
        0 <= i < results.len() ==> if i < limit {
            passes(#[trigger] results[i], rule, limit, limit - (i + 1))
        } else {
            is_refused(results[i], rule, limit)
        }
}

/// Whether a fixed-window rule, with windows of length `window`, applies to the request, and the
/// request falls into the window that is open at `second`. The system clock showed `epoch` when the
/// store's clock started, in nanoseconds, and both run alike. The end of a window that it opens can
/// be kept and told.
pub open spec fn in_window(
    config: RateLimitConfig,
    rule: RateLimitRule,
    window: nat,
    second: nat,
    epoch: nat,
    check: Check,
) -> bool {
    &&& config.rule_for(check.method, check.path) == Some(rule)
    &&& check.second == (epoch + check.at) / 1_000_000_000
    &&& window_start(window, check.second as nat) == window_start(window, second)
    &&& check.at + window <= max_span()
    &&& check.told + window / 1_000_000_000 <= u64::MAX
}

/// The counter of a client whose requests all fall into one window.
proof fn lemma_window_in_a_run(
    config: RateLimitConfig,
    checks: Seq<Check>,
    ip: Seq<char>,
    rule: RateLimitRule,
    limit: u64,
    length: Duration,
    second: nat,
    epoch: nat,
)
    requires
        names_without_colon(config),
        without_colon(rule.name@),
        checks_in_order(checks),
        checks.len() <= u64::MAX,
        rule.algorithm == (RateLimitAlgorithm::FixedWindow {
            requests_per_window: limit,
            window: length,
        }),
        length@ >= 1_000_000_000,
        forall|i: int|
            0 <= i < checks.len() && (#[trigger] checks[i]).ip == ip ==> in_window(
                config,
                rule,
                length@,
                second,
                epoch,
                checks[i],
            ),
    ensures
        ({
            let windows = after_checks(config, empty_store(), checks).windows;
            let key = fixed_window_key(rule.name@, ip, length@, second);
            let results = results_for(config, empty_store(), checks, ip);
            let end = (window_start(length@, second) + length@ / 1_000_000_000) * 1_000_000_000
                - epoch;
            &&& results.len() <= checks.len()
            &&& windows.contains_key(key) ==> {
                &&& results.len() > 0
                &&& windows[key].count == results.len()
                &&& end <= windows[key].expires_at <= checks.last().at + length@
            }
            &&& !windows.contains_key(key) && results.len() > 0 ==> checks.last().at >= end
            &&& first_ones_pass(results, rule, limit)
        }),
    decreases checks.len(),
{
    if checks.len() > 0 {
        let earlier = checks.drop_last();
        let last = checks.last();
        let window = length@;
        let key = fixed_window_key(rule.name@, ip, window, second);
        let end = (window_start(window, second) + window / 1_000_000_000) * 1_000_000_000 - epoch;
        assert forall|i: int| 0 <= i < earlier.len() implies #[trigger] earlier[i] == checks[i] by {}
        assert(last == checks[checks.len() - 1]);
        assert(earlier.len() > 0 ==> earlier.last() == checks[checks.len() - 2]);
        lemma_window_in_a_run(config, earlier, ip, rule, limit, length, second, epoch);
        let before = after_checks(config, empty_store(), earlier);
        let results = results_for(config, empty_store(), earlier, ip);
        if last.ip == ip {
            law_windows_part_time(window, second, last.second as nat);
            assert(last.at < end <= last.at + window);
            let counter = counted(before.windows, key, window, last.at);
            assert(op_for(rule, last) == (StoreOp::Count { key, window, at: last.at }));
            assert(counter.count == results.len() + 1);
            assert(last.at < counter.expires_at <= last.at + window);
            assert(count_reply(counter, last.at).ttl / 1_000_000_000 <= window / 1_000_000_000) by {
                vstd::arithmetic::div_mod::lemma_div_is_ordered(
                    count_reply(counter, last.at).ttl as int,
                    window as int,
                    1_000_000_000,
                );
            }
        } else if config.rule_for(last.method, last.path) is Some {
            let applied = config.rule_for(last.method, last.path)->0;
            law_first_matching_rule_applies(config.rules@, last.method, last.path, 0);
            lemma_keys_of_others(applied, last, ip);
            assert(counter_of(key, ip));
        }
    }
}

/// A client is held to its limit: whatever others ask, of its requests that fall into one window of
/// a fixed-window rule, as many as the rule says are within the limit, each is told that one fewer
/// remains, and all others are over the limit. The windows are a second long at least and the store
/// was empty at the start.
pub proof fn law_client_is_held_to_its_limit_in_a_run(
    config: RateLimitConfig,
    checks: Seq<Check>,
    ip: Seq<char>,
    rule: RateLimitRule,
    limit: u64,
    length: Duration,
    second: nat,
    epoch: nat,
)
    requires
        names_without_colon(config),
        checks_in_order(checks),
        checks.len() <= u64::MAX,
        rule.algorithm == (RateLimitAlgorithm::FixedWindow {
            requests_per_window: limit,
            window: length,
        }),
        length@ >= 1_000_000_000,
        forall|i: int|
            0 <= i < checks.len() && (#[trigger] checks[i]).ip == ip ==> in_window(
                config,
                rule,
                length@,
                second,
                epoch,
                checks[i],
            ),
    ensures
        first_ones_pass(results_for(config, empty_store(), checks, ip), rule, limit),
{
    let results = results_for(config, empty_store(), checks, ip);
    if results.len() > 0 {
        let i = lemma_some_check(config, empty_store(), checks, ip);
        assert(in_window(config, rule, length@, second, epoch, checks[i]));
        law_first_matching_rule_applies(config.rules@, checks[i].method, checks[i].path, 0);
        lemma_window_in_a_run(config, checks, ip, rule, limit, length, second, epoch);
    }
}

/// A client of whose requests something becomes makes one.
proof fn lemma_some_check(
    config: RateLimitConfig,
    pre: StoreModel,
    checks: Seq<Check>,
    ip: Seq<char>,
) -> (i: int)
    requires
        results_for(config, pre, checks, ip).len() > 0,
    ensures
        0 <= i < checks.len(),
        checks[i].ip == ip,
    decreases checks.len(),
{
    if checks.last().ip == ip {
        checks.len() - 1
    } else {
        lemma_some_check(config, pre, checks.drop_last(), ip)
    }
}

/// Whether a token-bucket rule, with a bucket of that capacity and refills at that interval, applies
/// to the request, and the request is made between `start` and an interval after it. The time at
/// which the bucket is full can be told.
pub open spec fn in_interval(
    config: RateLimitConfig,
    rule: RateLimitRule,
    capacity: u64,
    interval: nat,
    start: nat,
    check: Check,
) -> bool {
    &&& config.rule_for(check.method, check.path) == Some(rule)
    &&& start <= check.at < start + interval
    &&& check.told + interval * capacity as nat / 1_000_000_000 <= u64::MAX
}

/// The refills that fill a bucket are no more than the tokens that it holds, and take no longer.
proof fn lemma_time_to_fill(tokens: nat, capacity: nat, refill_tokens: nat, interval: nat)
    requires
        tokens < capacity,
        refill_tokens > 0,
    ensures
        interval * refills_to_fill(tokens, capacity, refill_tokens) <= interval * capacity,
{
    let missing = capacity - tokens;
    let steps = refills_to_fill(tokens, capacity, refill_tokens);
    assert(0 <= (missing + refill_tokens - 1) / (refill_tokens as int) <= missing)
        by (nonlinear_arith)
        requires
            missing > 0,
            refill_tokens > 0,
    ;
    assert(interval * steps <= interval * capacity) by (nonlinear_arith)
        requires
            steps <= capacity,
    ;
}

/// The bucket of a client whose requests are all made within one interval.
proof fn lemma_bucket_in_a_run(
    config: RateLimitConfig,
    checks: Seq<Check>,
    ip: Seq<char>,
    rule: RateLimitRule,
    capacity: u64,
    refill_tokens: u64,
    interval: Duration,
    start: nat,
)
    requires
        names_without_colon(config),
        without_colon(rule.name@),
        rule.algorithm == (RateLimitAlgorithm::TokenBucket {
            capacity,
            refill_tokens,
            refill_interval: interval,
        }),
        capacity > 0,
        refill_tokens > 0,
        whole_millis(interval@),
        forall|i: int|
            0 <= i < checks.len() && (#[trigger] checks[i]).ip == ip ==> in_interval(
                config,
                rule,
                capacity,
                interval@,
                start,
                checks[i],
            ),
    ensures
        ({
            let buckets = after_checks(config, empty_store(), checks).buckets;
            let key = token_bucket_key(rule.name@, ip);
            let results = results_for(config, empty_store(), checks, ip);
            &&& buckets.contains_key(key) <==> results.len() > 0
            &&& buckets.contains_key(key) ==> {
                &&& buckets[key].tokens == monus(capacity as nat, results.len())
                &&& start <= buckets[key].last_refill < start + interval@
            }
            &&& first_ones_pass(results, rule, capacity)
        }),
    decreases checks.len(),
{
    if checks.len() > 0 {
        let earlier = checks.drop_last();
        let last = checks.last();
        let length = interval@;
        let key = token_bucket_key(rule.name@, ip);
        assert forall|i: int| 0 <= i < earlier.len() implies #[trigger] earlier[i] == checks[i] by {}
        assert(last == checks[checks.len() - 1]);
        lemma_bucket_in_a_run(
            config,
            earlier,
            ip,
            rule,
            capacity,
            refill_tokens,
            interval,
            start,
        );
        let before = after_checks(config, empty_store(), earlier);
        if last.ip == ip {
            let bucket = bucket_of(before.buckets, key, capacity as nat, last.at);
            lemma_no_refill_yet(bucket, length, last.at);
            assert(0 * refill_tokens == 0) by (nonlinear_arith);
            let tokens = monus(bucket.tokens, 1);
            lemma_time_to_fill(tokens, capacity as nat, refill_tokens as nat, length);
            let (after, reply) = exact_take(
                bucket,
                capacity as nat,
                refill_tokens as nat,
                length,
                last.at,
            );
            assert(reply.reset_after <= length * capacity as nat);
            vstd::arithmetic::div_mod::lemma_div_is_ordered(
                reply.reset_after as int,
                (length * capacity as nat) as int,
                1_000_000_000,
            );
        } else if config.rule_for(last.method, last.path) is Some {
            let applied = config.rule_for(last.method, last.path)->0;
            law_first_matching_rule_applies(config.rules@, last.method, last.path, 0);
            lemma_keys_of_others(applied, last, ip);
            assert(bucket_key_of(key, ip));
        }
    }
}

/// A client gets its burst and no more: whatever others ask, of its requests that are made within
/// one interval of a token-bucket rule, as many as the bucket holds tokens are within the limit,
/// each is told that one fewer remains, and all others are over the limit. The interval is in whole
/// milliseconds and the store was empty at the start.
pub proof fn law_client_gets_its_burst_in_a_run(
    config: RateLimitConfig,
    checks: Seq<Check>,
    ip: Seq<char>,
    rule: RateLimitRule,
    capacity: u64,
    refill_tokens: u64,
    interval: Duration,
    start: nat,
)
    requires
        names_without_colon(config),
        rule.algorithm == (RateLimitAlgorithm::TokenBucket {
            capacity,
            refill_tokens,
            refill_interval: interval,
        }),
        capacity > 0,
        refill_tokens > 0,
        whole_millis(interval@),
        forall|i: int|
            0 <= i < checks.len() && (#[trigger] checks[i]).ip == ip ==> in_interval(
                config,
                rule,
                capacity,
                interval@,
                start,
                checks[i],
            ),
    ensures
        first_ones_pass(results_for(config, empty_store(), checks, ip), rule, capacity),
{
    let results = results_for(config, empty_store(), checks, ip);
    if results.len() > 0 {
        let i = lemma_some_check(config, empty_store(), checks, ip);
        assert(in_interval(config, rule, capacity, interval@, start, checks[i]));
        law_first_matching_rule_applies(config.rules@, checks[i].method, checks[i].path, 0);
        lemma_bucket_in_a_run(
            config,
            checks,
            ip,
            rule,
            capacity,
            refill_tokens,
            interval,
            start,
        );
    }
}

} // verus!
