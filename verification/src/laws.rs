//! What holds of the limiter as a whole.

use crate::config::{first_match, RateLimitBehavior, RateLimitConfig, RateLimitRule};
use crate::limiter::{
    bucket_verdict, fixed_window_key, may_settle, settled, to_be_queued, token_bucket_key,
    window_start, window_verdict, EnforcementResult, LimiterError, QueueDisposition,
    RateLimitHeaders,
};
use crate::middleware::{
    with_rate_limit, Action, HEADER_LIMIT, HEADER_REMAINING, HEADER_RESET, HEADER_RETRY_AFTER,
};
use crate::queue::{
    InMemoryThrottledRequestQueue, QueueError, ThrottledRequest, ThrottledRequestQueue,
};
use crate::store::{
    bucket_of, can_count, count_outcome, count_reply, counted, exact_take, exact_take_outcome,
    open_windows, refill_periods, refilled_tokens, refills_to_fill, take_outcome, take_plan,
    take_token, BucketModel, CounterState, StoreError, StoreModel, TokenBucketState, WindowModel,
};
use crate::text::{decimal, lemma_decimal_digits, lemma_decimal_injective};
use crate::time::{at_least, is_unix_second, low_u64, monus};
use vstd::arithmetic::div_mod::{
    lemma_div_is_ordered, lemma_div_multiples_vanish, lemma_fundamental_div_mod, lemma_mod_bound,
    lemma_mod_multiples_basic,
};
use vstd::arithmetic::mul::{
    lemma_mul_inequality, lemma_mul_is_commutative, lemma_mul_is_distributive_add,
};
use vstd::prelude::*;
use vstd::utf8::encode_utf8;

verus! {

/// Whether no colon stands in a text.
pub open spec fn without_colon(s: Seq<char>) -> bool {
    forall|i: int| 0 <= i < s.len() ==> #[trigger] s[i] != ':'
}

/// The colon that parts the pieces of a key.
proof fn lemma_colon()
    ensures
        ":"@ == seq![':'],
{
    reveal_strlit(":");
    assert(":"@ =~= seq![':']);
}

/// Under one rule, different clients have different buckets.
pub proof fn law_bucket_keys_tell_clients_apart(name: Seq<char>, ip: Seq<char>, other: Seq<char>)
    requires
        token_bucket_key(name, ip) == token_bucket_key(name, other),
    ensures
        ip == other,
{
    let prefix = "rl:"@ + name + ":"@;
    assert((prefix + ip).skip(prefix.len() as int) =~= ip);
    assert((prefix + other).skip(prefix.len() as int) =~= other);
}

/// Under one rule, different clients, and different windows of one client, have different
/// counters.
pub proof fn law_window_keys_tell_clients_and_windows_apart(
    name: Seq<char>,
    ip: Seq<char>,
    other: Seq<char>,
    window: nat,
    now: nat,
    later: nat,
)
    requires
        fixed_window_key(name, ip, window, now) == fixed_window_key(name, other, window, later),
    ensures
        ip == other,
        window_start(window, now) == window_start(window, later),
{
    let prefix = "rl:"@ + name + ":"@;
    let rest = ip + ":"@ + decimal(window_start(window, now));
    let other_rest = other + ":"@ + decimal(window_start(window, later));
    assert(fixed_window_key(name, ip, window, now) =~= prefix + rest);
    assert(fixed_window_key(name, other, window, later) =~= prefix + other_rest);
    assert((prefix + rest).skip(prefix.len() as int) =~= rest);
    assert((prefix + other_rest).skip(prefix.len() as int) =~= other_rest);
    lemma_last_colon(ip, window_start(window, now), other, window_start(window, later));
}

/// The last colon parts a text that ends in a numeral in one way only.
proof fn lemma_last_colon(a: Seq<char>, m: nat, b: Seq<char>, n: nat)
    requires
        a + ":"@ + decimal(m) == b + ":"@ + decimal(n),
    ensures
        a == b,
        m == n,
{
    let left = a + ":"@ + decimal(m);
    let right = b + ":"@ + decimal(n);
    lemma_colon();
    lemma_decimal_digits(m);
    lemma_decimal_digits(n);
    assert(left.len() == a.len() + 1 + decimal(m).len());
    assert(right.len() == b.len() + 1 + decimal(n).len());
    assert(left[a.len() as int] == ':');
    assert(right[b.len() as int] == ':');
    if a.len() < b.len() {
        assert(left[b.len() as int] == decimal(m)[b.len() - a.len() - 1]);
    }
    if b.len() < a.len() {
        assert(right[a.len() as int] == decimal(n)[a.len() - b.len() - 1]);
    }
    assert(left.take(a.len() as int) =~= a);
    assert(right.take(a.len() as int) =~= b);
    assert(left.skip((a.len() + 1) as int) =~= decimal(m));
    assert(right.skip((a.len() + 1) as int) =~= decimal(n));
    lemma_decimal_injective(m, n);
}

/// Rules without a colon in their names have buckets of their own.
pub proof fn law_bucket_keys_tell_rules_apart(
    name: Seq<char>,
    ip: Seq<char>,
    other_name: Seq<char>,
    other_ip: Seq<char>,
)
    requires
        without_colon(name),
        without_colon(other_name),
        token_bucket_key(name, ip) == token_bucket_key(other_name, other_ip),
    ensures
        name == other_name,
        ip == other_ip,
{
    let prefix = "rl:"@;
    let rest = name + ":"@ + ip;
    let other_rest = other_name + ":"@ + other_ip;
    lemma_colon();
    assert(token_bucket_key(name, ip) =~= prefix + rest);
    assert(token_bucket_key(other_name, other_ip) =~= prefix + other_rest);
    assert((prefix + rest).skip(prefix.len() as int) =~= rest);
    assert((prefix + other_rest).skip(prefix.len() as int) =~= other_rest);
    lemma_first_colon(name, ip, other_name, other_ip);
}

/// Rules without a colon in their names have counters of their own, and under them different
/// clients and different windows have.
pub proof fn law_window_keys_tell_rules_apart(
    name: Seq<char>,
    ip: Seq<char>,
    window: nat,
    now: nat,
    other_name: Seq<char>,
    other_ip: Seq<char>,
    other_window: nat,
    later: nat,
)
    requires
        without_colon(name),
        without_colon(other_name),
        fixed_window_key(name, ip, window, now) == fixed_window_key(
            other_name,
            other_ip,
            other_window,
            later,
        ),
    ensures
        name == other_name,
        ip == other_ip,
        window_start(window, now) == window_start(other_window, later),
{
    let prefix = "rl:"@;
    let tail = ip + ":"@ + decimal(window_start(window, now));
    let other_tail = other_ip + ":"@ + decimal(window_start(other_window, later));
    let rest = name + ":"@ + tail;
    let other_rest = other_name + ":"@ + other_tail;
    lemma_colon();
    assert(fixed_window_key(name, ip, window, now) =~= prefix + rest);
    assert(fixed_window_key(other_name, other_ip, other_window, later) =~= prefix + other_rest);
    assert((prefix + rest).skip(prefix.len() as int) =~= rest);
    assert((prefix + other_rest).skip(prefix.len() as int) =~= other_rest);
    lemma_first_colon(name, tail, other_name, other_tail);
    lemma_last_colon(ip, window_start(window, now), other_ip, window_start(other_window, later));
}

/// The first colon parts a text in one way only.
proof fn lemma_first_colon(a: Seq<char>, b: Seq<char>, c: Seq<char>, d: Seq<char>)
    requires
        without_colon(a),
        without_colon(c),
        a + ":"@ + b == c + ":"@ + d,
    ensures
        a == c,
        b == d,
{
    lemma_colon();
    let left = a + ":"@ + b;
    let right = c + ":"@ + d;
    assert(left[a.len() as int] == ':');
    assert(right[c.len() as int] == ':');
    if a.len() < c.len() {
        assert(right[a.len() as int] == c[a.len() as int]);
    }
    if c.len() < a.len() {
        assert(left[c.len() as int] == a[c.len() as int]);
    }
    assert(left.take(a.len() as int) =~= a);
    assert(right.take(a.len() as int) =~= c);
    assert(left.skip((a.len() + 1) as int) =~= b);
    assert(right.skip((a.len() + 1) as int) =~= d);
}

/// A moment lies in the window that is said to be open at it, and moments of one window have the
/// same counter.
pub proof fn law_windows_part_time(window: nat, now: nat, later: nat)
    ensures
        ({
            let length = at_least(window / 1_000_000_000, 1);
            &&& window_start(window, now) <= now < window_start(window, now) + length
            &&& window_start(window, now) % length == 0
            &&& window_start(window, now) <= later < window_start(window, now) + length
                <==> window_start(window, later) == window_start(window, now)
        }),
{
    let length = at_least(window / 1_000_000_000, 1) as int;
    lemma_fundamental_div_mod(now as int, length);
    lemma_fundamental_div_mod(later as int, length);
    lemma_mod_bound(now as int, length);
    lemma_mod_bound(later as int, length);
    lemma_mul_is_commutative(length, now as int / length);
    lemma_mul_is_commutative(length, later as int / length);
    lemma_mod_multiples_basic(now as int / length, length);
    let a = now as int / length;
    let b = later as int / length;
    if window_start(window, now) <= later < window_start(window, now) + length {
        if a < b {
            lemma_mul_inequality(a + 1, b, length);
            lemma_mul_is_distributive_add(length, a, 1);
            lemma_mul_is_commutative(length, a + 1);
        }
        if b < a {
            lemma_mul_inequality(b + 1, a, length);
            lemma_mul_is_distributive_add(length, b, 1);
            lemma_mul_is_commutative(length, b + 1);
        }
    }
}

/// A request that is counted under `key`, in windows of length `window`, at the time `at`.
pub struct Arrival {
    pub key: Seq<char>,
    pub window: nat,
    pub at: nat,
}

/// The counters after the requests were counted, one after another.
pub open spec fn counting(
    windows: Map<Seq<char>, WindowModel>,
    arrivals: Seq<Arrival>,
) -> Map<Seq<char>, WindowModel>
    decreases arrivals.len(),
{
    if arrivals.len() == 0 {
        windows
    } else {
        let before = counting(windows, arrivals.drop_last());
        let last = arrivals.last();
        open_windows(before, last.at).insert(
            last.key,
            counted(before, last.key, last.window, last.at),
        )
    }
}

/// How many of the requests are under `key`.
pub open spec fn arrivals_under(arrivals: Seq<Arrival>, key: Seq<char>) -> nat
    decreases arrivals.len(),
{
    if arrivals.len() == 0 {
        0
    } else {
        arrivals_under(arrivals.drop_last(), key) + (if arrivals.last().key == key {
            1nat
        } else {
            0
        })
    }
}

/// How many of the requests under `key` are within the limit when they are counted.
pub open spec fn admitted_under(
    windows: Map<Seq<char>, WindowModel>,
    arrivals: Seq<Arrival>,
    key: Seq<char>,
    limit: nat,
) -> nat
    decreases arrivals.len(),
{
    if arrivals.len() == 0 {
        0
    } else {
        let last = arrivals.last();
        let before = counting(windows, arrivals.drop_last());
        admitted_under(windows, arrivals.drop_last(), key, limit) + (if last.key == key && counted(
            before,
            last.key,
            last.window,
            last.at,
        ).count <= limit {
            1nat
        } else {
            0
        })
    }
}

/// Whether the requests begin with one that opens a window and all fall before that window's end.
pub open spec fn within_one_window(
    windows: Map<Seq<char>, WindowModel>,
    arrivals: Seq<Arrival>,
) -> bool {
    &&& arrivals.len() > 0
    &&& !open_windows(windows, arrivals[0].at).contains_key(arrivals[0].key)
    &&& forall|i: int|
        0 <= i < arrivals.len() ==> (#[trigger] arrivals[i]).at < arrivals[0].at
            + arrivals[0].window
}

/// Requests within one window are so without the last of them, unless it is the first too.
proof fn lemma_within_one_window(windows: Map<Seq<char>, WindowModel>, arrivals: Seq<Arrival>)
    requires
        within_one_window(windows, arrivals),
    ensures
        arrivals.len() > 1 ==> within_one_window(windows, arrivals.drop_last()),
        arrivals.len() > 1 ==> arrivals.drop_last()[0] == arrivals[0],
        arrivals.last().at < arrivals[0].at + arrivals[0].window,
{
    assert(arrivals.last() == arrivals[arrivals.len() - 1]);
    assert forall|i: int| 0 <= i < arrivals.len() - 1 implies (#[trigger] arrivals.drop_last()[i]).at
        < arrivals[0].at + arrivals[0].window by {
        assert(arrivals.drop_last()[i] == arrivals[i]);
    }
}

/// The requests of one window are counted one by one, whatever requests under other keys fall
/// between them.
pub proof fn law_window_counts_its_requests(
    windows: Map<Seq<char>, WindowModel>,
    arrivals: Seq<Arrival>,
)
    requires
        within_one_window(windows, arrivals),
    ensures
        counting(windows, arrivals).contains_key(arrivals[0].key),
        counting(windows, arrivals)[arrivals[0].key] == (WindowModel {
            count: arrivals_under(arrivals, arrivals[0].key),
            expires_at: arrivals[0].at + arrivals[0].window,
        }),
    decreases arrivals.len(),
{
    lemma_within_one_window(windows, arrivals);
    let earlier = arrivals.drop_last();
    if earlier.len() > 0 {
        law_window_counts_its_requests(windows, earlier);
    } else {
        assert(counting(windows, earlier) == windows);
        assert(arrivals_under(earlier, arrivals[0].key) == 0);
    }
}

/// A window lets through as many requests as its limit says and no more.
pub proof fn law_window_admits_up_to_its_limit(
    windows: Map<Seq<char>, WindowModel>,
    arrivals: Seq<Arrival>,
    limit: nat,
)
    requires
        within_one_window(windows, arrivals),
    ensures
        ({
            let key = arrivals[0].key;
            let asked = arrivals_under(arrivals, key);
            admitted_under(windows, arrivals, key, limit) == (if asked <= limit {
                asked
            } else {
                limit
            })
        }),
    decreases arrivals.len(),
{
    lemma_within_one_window(windows, arrivals);
    let earlier = arrivals.drop_last();
    if earlier.len() > 0 {
        law_window_counts_its_requests(windows, earlier);
        law_window_admits_up_to_its_limit(windows, earlier, limit);
    } else {
        assert(counting(windows, earlier) == windows);
        assert(arrivals_under(earlier, arrivals[0].key) == 0);
        assert(admitted_under(windows, earlier, arrivals[0].key, limit) == 0);
    }
}

/// Whether the requests follow one another.
pub open spec fn arrive_in_order(arrivals: Seq<Arrival>) -> bool {
    forall|i: int, j: int|
        0 <= i <= j < arrivals.len() ==> (#[trigger] arrivals[i]).at <= (#[trigger] arrivals[j]).at
}

/// Whether all requests under `key` are counted before the moment `end`, in windows that last at
/// least until then.
spec fn counted_before(arrivals: Seq<Arrival>, key: Seq<char>, end: int) -> bool {
    forall|i: int|
        0 <= i < arrivals.len() && arrivals[i].key == key ==> (#[trigger] arrivals[i]).at < end
            <= arrivals[i].at + arrivals[i].window
}

/// The counter under a key counts all requests under it, and is dropped only once there are no
/// more of them.
proof fn lemma_one_counter_counts_them_all(
    arrivals: Seq<Arrival>,
    key: Seq<char>,
    end: int,
    limit: nat,
)
    requires
        arrive_in_order(arrivals),
        counted_before(arrivals, key, end),
    ensures
        ({
            let none = Map::<Seq<char>, WindowModel>::empty();
            let after = counting(none, arrivals);
            let asked = arrivals_under(arrivals, key);
            &&& after.contains_key(key) ==> asked > 0 && after[key].count == asked
                && after[key].expires_at >= end
            &&& !after.contains_key(key) && asked > 0 ==> arrivals.last().at >= end
            &&& admitted_under(none, arrivals, key, limit) == (if asked <= limit {
                asked
            } else {
                limit
            })
        }),
    decreases arrivals.len(),
{
    if arrivals.len() > 0 {
        let earlier = arrivals.drop_last();
        assert(arrivals.last() == arrivals[arrivals.len() - 1]);
        assert forall|i: int| 0 <= i < earlier.len() implies #[trigger] earlier[i] == arrivals[i] by {}
        lemma_one_counter_counts_them_all(earlier, key, end, limit);
        if earlier.len() > 0 {
            assert(earlier.last() == arrivals[arrivals.len() - 2]);
        }
    }
}

/// In each window of time a client gets as many requests through as the rule says and no more,
/// whatever other clients and other rules have counted. The store was empty at the moment `epoch`
/// of Unix time and its clock started then, both in nanoseconds; a request is counted under the
/// key of the moment at which it is counted.
pub proof fn law_client_is_held_to_its_limit(
    name: Seq<char>,
    ip: Seq<char>,
    window: nat,
    limit: nat,
    second: nat,
    epoch: nat,
    arrivals: Seq<Arrival>,
)
    requires
        window >= 1_000_000_000,
        arrive_in_order(arrivals),
        forall|i: int|
            0 <= i < arrivals.len() && arrivals[i].key == fixed_window_key(name, ip, window, second)
                ==> (#[trigger] arrivals[i]).window == window && arrivals[i].key
                == fixed_window_key(name, ip, window, (epoch + arrivals[i].at) / 1_000_000_000),
    ensures
        ({
            let key = fixed_window_key(name, ip, window, second);
            let none = Map::<Seq<char>, WindowModel>::empty();
            let asked = arrivals_under(arrivals, key);
            admitted_under(none, arrivals, key, limit) == (if asked <= limit {
                asked
            } else {
                limit
            })
        }),
{
    let key = fixed_window_key(name, ip, window, second);
    let length = window / 1_000_000_000;
    let end = (window_start(window, second) + length) * 1_000_000_000 - epoch;
    assert forall|i: int| 0 <= i < arrivals.len() && arrivals[i].key == key implies (
    #[trigger] arrivals[i]).at < end <= arrivals[i].at + arrivals[i].window by {
        let moment = (epoch + arrivals[i].at) / 1_000_000_000;
        law_window_keys_tell_clients_and_windows_apart(name, ip, ip, window, second, moment);
        law_windows_part_time(window, second, moment);
    }
    lemma_one_counter_counts_them_all(arrivals, key, end, limit);
}

/// Once the time that a counted request was told has passed, the next request opens a new window.
pub proof fn law_window_closes_after_its_ttl(
    windows: Map<Seq<char>, WindowModel>,
    key: Seq<char>,
    window: nat,
    now: nat,
    later: nat,
)
    requires
        now + count_reply(counted(windows, key, window, now), now).ttl <= later,
    ensures
        counted(
            open_windows(windows, now).insert(key, counted(windows, key, window, now)),
            key,
            window,
            later,
        ) == (WindowModel { count: 1, expires_at: later + window }),
{
}

/// Counting a request under one key changes nothing for requests under another, then or later, nor
/// for any bucket.
pub proof fn law_counting_leaves_other_keys_alone(
    pre: StoreModel,
    key: Seq<char>,
    window: nat,
    now: nat,
    post: StoreModel,
    r: Result<CounterState, StoreError>,
    other: Seq<char>,
    other_window: nat,
    later: nat,
)
    requires
        count_outcome(pre, key, window, now, post, r),
        other != key,
        now <= later,
    ensures
        counted(post.windows, other, other_window, later) == counted(
            pre.windows,
            other,
            other_window,
            later,
        ),
        can_count(post.windows, other, other_window, later) == can_count(
            pre.windows,
            other,
            other_window,
            later,
        ),
        post.buckets == pre.buckets,
{
}

/// Taking a token from one bucket changes no other bucket, nor any counter, whether every refill is
/// one interval long or the refills are taken to be as long as `advance` and `to_full` say.
pub proof fn law_taking_leaves_other_keys_alone(
    pre: StoreModel,
    key: Seq<char>,
    capacity: nat,
    refill_tokens: nat,
    interval: nat,
    now: nat,
    advance: nat,
    to_full: nat,
    post: StoreModel,
    r: Result<TokenBucketState, StoreError>,
    other: Seq<char>,
    other_capacity: nat,
    later: nat,
)
    requires
        exact_take_outcome(pre, key, capacity, refill_tokens, interval, now, post, r)
            || take_outcome(
            pre,
            key,
            capacity,
            refill_tokens,
            interval,
            now,
            advance,
            to_full,
            post,
            r,
        ),
        other != key,
    ensures
        bucket_of(post.buckets, other, other_capacity, later) == bucket_of(
            pre.buckets,
            other,
            other_capacity,
            later,
        ),
        post.windows == pre.windows,
{
}

/// Under a fixed-window rule, the requests of one client do not count against another.
pub proof fn law_clients_have_counters_of_their_own(
    name: Seq<char>,
    ip: Seq<char>,
    window: nat,
    unix_now: nat,
    pre: StoreModel,
    now: nat,
    post: StoreModel,
    r: Result<CounterState, StoreError>,
    other: Seq<char>,
    unix_later: nat,
    later: nat,
)
    requires
        count_outcome(pre, fixed_window_key(name, ip, window, unix_now), window, now, post, r),
        other != ip,
        now <= later,
    ensures
        ({
            let key = fixed_window_key(name, other, window, unix_later);
            counted(post.windows, key, window, later) == counted(pre.windows, key, window, later)
        }),
{
    let key = fixed_window_key(name, ip, window, unix_now);
    let other_key = fixed_window_key(name, other, window, unix_later);
    if key == other_key {
        law_window_keys_tell_clients_and_windows_apart(
            name,
            ip,
            other,
            window,
            unix_now,
            unix_later,
        );
    }
    law_counting_leaves_other_keys_alone(pre, key, window, now, post, r, other_key, window, later);
}

/// Under a token-bucket rule, the requests of one client take no token from another.
pub proof fn law_clients_have_buckets_of_their_own(
    name: Seq<char>,
    ip: Seq<char>,
    capacity: nat,
    refill_tokens: nat,
    interval: nat,
    pre: StoreModel,
    now: nat,
    post: StoreModel,
    r: Result<TokenBucketState, StoreError>,
    other: Seq<char>,
    later: nat,
)
    requires
        exact_take_outcome(
            pre,
            token_bucket_key(name, ip),
            capacity,
            refill_tokens,
            interval,
            now,
            post,
            r,
        ),
        other != ip,
    ensures
        bucket_of(post.buckets, token_bucket_key(name, other), capacity, later) == bucket_of(
            pre.buckets,
            token_bucket_key(name, other),
            capacity,
            later,
        ),
{
    let key = token_bucket_key(name, ip);
    let other_key = token_bucket_key(name, other);
    if key == other_key {
        law_bucket_keys_tell_clients_apart(name, ip, other);
    }
}

/// Whether an interval is a whole number of milliseconds, and not none.
pub open spec fn whole_millis(interval: nat) -> bool {
    interval > 0 && interval % 1_000_000 == 0
}

/// With an interval of whole milliseconds, the refills that are due fill the time since the last
/// refill up to less than an interval.
proof fn lemma_due_refills(bucket: BucketModel, interval: nat, now: nat)
    requires
        whole_millis(interval),
        bucket.last_refill <= now,
    ensures
        ({
            let due = interval * refill_periods(bucket, interval, now);
            bucket.last_refill + due <= now < bucket.last_refill + due + interval
        }),
{
    let elapsed = (now - bucket.last_refill) as nat;
    let elapsed_ms = (elapsed / 1_000_000) as int;
    let interval_ms = (interval / 1_000_000) as int;
    let periods = elapsed_ms / interval_ms;
    assert(interval_ms >= 1 && interval == interval_ms * 1_000_000);
    lemma_fundamental_div_mod(elapsed_ms, interval_ms);
    assert(0 <= elapsed_ms % interval_ms < interval_ms) by {
        lemma_mod_bound(elapsed_ms, interval_ms);
    }
    assert(interval * periods == 1_000_000 * (interval_ms * periods)) by (nonlinear_arith)
        requires
            interval == interval_ms * 1_000_000,
    ;
    assert(refill_periods(bucket, interval, now) == periods);
}

/// A bucket never holds more tokens than its capacity, however long its refills are taken to be.
pub proof fn law_bucket_never_overflows(
    bucket: BucketModel,
    capacity: nat,
    refill_tokens: nat,
    interval: nat,
    now: nat,
    advance: nat,
    to_full: nat,
)
    requires
        bucket.tokens <= capacity,
    ensures
        ({
            let (after, reply) = take_token(
                bucket,
                capacity,
                refill_tokens,
                interval,
                now,
                advance,
                to_full,
            );
            after.tokens <= capacity && reply.tokens_remaining <= capacity
        }),
{
}

/// A request gets a token exactly where there is one, which is then gone; a request that gets one
/// need not wait, and one that gets none leaves none. This is so however long the refills are taken
/// to be.
pub proof fn law_token_for_each_admitted_request(
    bucket: BucketModel,
    capacity: nat,
    refill_tokens: nat,
    interval: nat,
    now: nat,
    advance: nat,
    to_full: nat,
)
    ensures
        ({
            let available = refilled_tokens(
                bucket,
                capacity,
                refill_tokens,
                refill_periods(bucket, interval, now),
            );
            let (after, reply) = take_token(
                bucket,
                capacity,
                refill_tokens,
                interval,
                now,
                advance,
                to_full,
            );
            &&& reply.allowed <==> available > 0
            &&& reply.tokens_remaining == after.tokens
            &&& reply.allowed ==> after.tokens + 1 == available && reply.retry_after == 0
            &&& !reply.allowed ==> after.tokens == 0
        }),
{
}

/// The bucket after requests asked it for a token at each of the times, one after another.
pub open spec fn taking(
    bucket: BucketModel,
    capacity: nat,
    refill_tokens: nat,
    interval: nat,
    times: Seq<nat>,
) -> BucketModel
    decreases times.len(),
{
    if times.len() == 0 {
        bucket
    } else {
        let before = taking(bucket, capacity, refill_tokens, interval, times.drop_last());
        exact_take(before, capacity, refill_tokens, interval, times.last()).0
    }
}

/// How many of the requests at the times get a token.
pub open spec fn admitted(
    bucket: BucketModel,
    capacity: nat,
    refill_tokens: nat,
    interval: nat,
    times: Seq<nat>,
) -> nat
    decreases times.len(),
{
    if times.len() == 0 {
        0
    } else {
        let before = taking(bucket, capacity, refill_tokens, interval, times.drop_last());
        admitted(bucket, capacity, refill_tokens, interval, times.drop_last()) + (if exact_take(
            before,
            capacity,
            refill_tokens,
            interval,
            times.last(),
        ).1.allowed {
            1nat
        } else {
            0
        })
    }
}

/// How often the bucket is refilled for the requests at the times.
pub open spec fn refills(
    bucket: BucketModel,
    capacity: nat,
    refill_tokens: nat,
    interval: nat,
    times: Seq<nat>,
) -> nat
    decreases times.len(),
{
    if times.len() == 0 {
        0
    } else {
        let before = taking(bucket, capacity, refill_tokens, interval, times.drop_last());
        refills(bucket, capacity, refill_tokens, interval, times.drop_last()) + refill_periods(
            before,
            interval,
            times.last(),
        )
    }
}

/// Whether the times follow one another, from `start` on.
pub open spec fn in_order(start: nat, times: Seq<nat>) -> bool {
    &&& forall|i: int| 0 <= i < times.len() ==> start <= #[trigger] times[i]
    &&& forall|i: int, j: int| 0 <= i <= j < times.len() ==> times[i] <= times[j]
}

/// The tokens that were handed out and those that are left are no more than those that were there
/// and those that the refills brought, and the refills fit into the time that has passed.
proof fn lemma_tokens_are_accounted_for(
    bucket: BucketModel,
    capacity: nat,
    refill_tokens: nat,
    interval: nat,
    times: Seq<nat>,
)
    requires
        whole_millis(interval),
        in_order(bucket.last_refill, times),
    ensures
        ({
            let after = taking(bucket, capacity, refill_tokens, interval, times);
            let made = refills(bucket, capacity, refill_tokens, interval, times);
            &&& after.last_refill == bucket.last_refill + interval * made
            &&& times.len() > 0 ==> after.last_refill <= times.last()
            &&& admitted(bucket, capacity, refill_tokens, interval, times) + after.tokens
                <= bucket.tokens + refill_tokens * made
        }),
    decreases times.len(),
{
    if times.len() == 0 {
        assert(interval * 0 == 0 && refill_tokens * 0 == 0) by (nonlinear_arith);
    } else {
        let earlier = times.drop_last();
        let now = times.last();
        assert forall|i: int| 0 <= i < earlier.len() implies bucket.last_refill
            <= #[trigger] earlier[i] by {
            assert(earlier[i] == times[i]);
        }
        assert forall|i: int, j: int| 0 <= i <= j < earlier.len() implies earlier[i]
            <= earlier[j] by {
            assert(earlier[i] == times[i] && earlier[j] == times[j]);
        }
        lemma_tokens_are_accounted_for(bucket, capacity, refill_tokens, interval, earlier);
        let before = taking(bucket, capacity, refill_tokens, interval, earlier);
        let made = refills(bucket, capacity, refill_tokens, interval, earlier);
        assert(now == times[times.len() - 1]);
        assert(before.last_refill <= now) by {
            if earlier.len() > 0 {
                assert(earlier.last() == times[times.len() - 2]);
            } else {
                assert(before == bucket);
            }
        }
        lemma_due_refills(before, interval, now);
        let due = refill_periods(before, interval, now);
        assert(interval * (made + due) == interval * made + interval * due) by (nonlinear_arith);
        assert(refill_tokens * (made + due) == refill_tokens * made + refill_tokens * due)
            by (nonlinear_arith);
        assert(low_u64(due) <= due);
        assert(low_u64(due) * refill_tokens <= refill_tokens * due) by (nonlinear_arith)
            requires
                low_u64(due) <= due,
        ;
        assert(due == 0 ==> interval * due == 0) by (nonlinear_arith);
    }
}

/// Over any stretch of time a bucket hands out no more tokens than it held at the start and its
/// refills brought since: a burst is served, and the rate is kept in the long run.
pub proof fn law_bucket_keeps_its_rate(
    bucket: BucketModel,
    capacity: nat,
    refill_tokens: nat,
    interval: nat,
    times: Seq<nat>,
)
    requires
        whole_millis(interval),
        times.len() > 0,
        in_order(bucket.last_refill, times),
    ensures
        admitted(bucket, capacity, refill_tokens, interval, times) <= bucket.tokens + refill_tokens
            * ((times.last() - bucket.last_refill) as nat / interval),
{
    lemma_tokens_are_accounted_for(bucket, capacity, refill_tokens, interval, times);
    let made = refills(bucket, capacity, refill_tokens, interval, times);
    let elapsed = times.last() - bucket.last_refill;
    assert(made <= elapsed / interval as int) by {
        lemma_mul_is_commutative(made as int, interval as int);
        lemma_div_multiples_vanish(made as int, interval as int);
        lemma_div_is_ordered((interval * made) as int, elapsed, interval as int);
    }
    lemma_mul_inequality(made as int, elapsed / interval as int, refill_tokens as int);
    lemma_mul_is_commutative(made as int, refill_tokens as int);
    lemma_mul_is_commutative(elapsed / interval as int, refill_tokens as int);
}

/// As many requests get a token before the next refill as the bucket holds tokens, and no more.
pub proof fn law_bucket_serves_a_burst(
    bucket: BucketModel,
    capacity: nat,
    refill_tokens: nat,
    interval: nat,
    times: Seq<nat>,
)
    requires
        forall|i: int|
            0 <= i < times.len() ==> refill_periods(bucket, interval, #[trigger] times[i]) == 0,
    ensures
        taking(bucket, capacity, refill_tokens, interval, times) == (BucketModel {
            tokens: monus(bucket.tokens, times.len()),
            last_refill: bucket.last_refill,
        }),
        admitted(bucket, capacity, refill_tokens, interval, times) == (if times.len()
            <= bucket.tokens {
            times.len()
        } else {
            bucket.tokens
        }),
    decreases times.len(),
{
    if times.len() > 0 {
        let earlier = times.drop_last();
        assert forall|i: int| 0 <= i < earlier.len() implies refill_periods(
            bucket,
            interval,
            #[trigger] earlier[i],
        ) == 0 by {
            assert(earlier[i] == times[i]);
        }
        assert(times.last() == times[times.len() - 1]);
        law_bucket_serves_a_burst(bucket, capacity, refill_tokens, interval, earlier);
        let before = taking(bucket, capacity, refill_tokens, interval, earlier);
        assert(refill_periods(before, interval, times.last()) == refill_periods(
            bucket,
            interval,
            times.last(),
        ));
    }
}

/// With an interval of whole milliseconds, a bucket is refilled up to less than an interval ago and
/// never ahead of time.
pub proof fn law_refills_keep_up_with_time(
    bucket: BucketModel,
    capacity: nat,
    refill_tokens: nat,
    interval: nat,
    now: nat,
)
    requires
        whole_millis(interval),
        bucket.last_refill <= now,
    ensures
        ({
            let after = exact_take(bucket, capacity, refill_tokens, interval, now).0;
            after.last_refill <= now < after.last_refill + interval
        }),
{
    lemma_due_refills(bucket, interval, now);
    let due = refill_periods(bucket, interval, now);
    assert(due == 0 ==> interval * due == 0) by (nonlinear_arith);
}

/// A request that got no token is told the shortest wait: unless others come before it, it gets one
/// from that moment on and not earlier. The wait is not none, no longer than an interval, and no
/// longer than it is until the bucket is full. A request that got a token need not wait.
pub proof fn law_retry_after_is_the_shortest_wait(
    bucket: BucketModel,
    capacity: nat,
    refill_tokens: nat,
    interval: nat,
    now: nat,
    later: nat,
)
    requires
        whole_millis(interval),
        capacity > 0,
        refill_tokens > 0,
        bucket.last_refill <= now <= later,
        refill_periods(
            exact_take(bucket, capacity, refill_tokens, interval, now).0,
            interval,
            later,
        ) <= u64::MAX,
    ensures
        ({
            let (after, reply) = exact_take(bucket, capacity, refill_tokens, interval, now);
            let next = exact_take(after, capacity, refill_tokens, interval, later).1;
            &&& reply.retry_after == 0 <==> reply.allowed
            &&& !reply.allowed ==> {
                &&& reply.tokens_remaining == 0
                &&& 0 < reply.retry_after <= interval
                &&& reply.retry_after <= reply.reset_after
                &&& next.allowed <==> now + reply.retry_after <= later
            }
        }),
{
    let (after, reply) = exact_take(bucket, capacity, refill_tokens, interval, now);
    law_refills_keep_up_with_time(bucket, capacity, refill_tokens, interval, now);
    lemma_due_refills(after, interval, later);
    let due = refill_periods(after, interval, later);
    let steps = refills_to_fill(after.tokens, capacity, refill_tokens);
    assert(steps == take_plan(bucket, capacity, refill_tokens, interval, now).1);
    if !reply.allowed {
        assert(after.tokens == 0);
        lemma_refills_to_fill(after.tokens, capacity, refill_tokens);
        assert(interval * steps >= interval) by (nonlinear_arith)
            requires
                steps >= 1,
        ;
        assert(due == 0 ==> interval * due == 0) by (nonlinear_arith);
        assert(due >= 1 ==> interval * due >= interval) by (nonlinear_arith);
        assert(due > 0 <==> now + reply.retry_after <= later);
        assert(due > 0 ==> low_u64(due) * refill_tokens > 0) by (nonlinear_arith)
            requires
                due > 0 ==> low_u64(due) > 0,
                refill_tokens > 0,
        ;
    }
}

/// The refills that fill a bucket bring what is missing, and one fewer would not.
proof fn lemma_refills_to_fill(tokens: nat, capacity: nat, refill_tokens: nat)
    requires
        tokens < capacity,
        refill_tokens > 0,
    ensures
        ({
            let steps = refills_to_fill(tokens, capacity, refill_tokens);
            &&& steps >= 1
            &&& refill_tokens * (steps - 1) < capacity - tokens <= refill_tokens * steps
        }),
{
    let missing = capacity - tokens;
    let steps = refills_to_fill(tokens, capacity, refill_tokens);
    lemma_fundamental_div_mod(missing + refill_tokens - 1, refill_tokens as int);
    lemma_mod_bound(missing + refill_tokens - 1, refill_tokens as int);
    assert(missing + refill_tokens - 1 >= 0 ==> (missing + refill_tokens - 1) / (
    refill_tokens as int) >= 0) by (nonlinear_arith)
        requires
            refill_tokens > 0,
    ;
    assert(refill_tokens * (steps - 1) == refill_tokens * steps - refill_tokens)
        by (nonlinear_arith);
    assert(steps == 0 ==> refill_tokens * steps == 0) by (nonlinear_arith);
}

/// A request is told the shortest wait until the bucket is full: unless others ask it for a token
/// in between, it is full from that moment on and not earlier, and one that then asks leaves it one
/// token short of that. The wait is not none.
pub proof fn law_reset_after_is_the_shortest_wait(
    bucket: BucketModel,
    capacity: nat,
    refill_tokens: nat,
    interval: nat,
    now: nat,
    later: nat,
)
    requires
        whole_millis(interval),
        capacity > 0,
        refill_tokens > 0,
        bucket.tokens <= capacity,
        bucket.last_refill <= now <= later,
        refill_periods(
            exact_take(bucket, capacity, refill_tokens, interval, now).0,
            interval,
            later,
        ) <= u64::MAX,
    ensures
        ({
            let (after, reply) = exact_take(bucket, capacity, refill_tokens, interval, now);
            let next = exact_take(after, capacity, refill_tokens, interval, later).1;
            let tokens = refilled_tokens(
                after,
                capacity,
                refill_tokens,
                refill_periods(after, interval, later),
            );
            &&& reply.reset_after > 0
            &&& tokens == capacity <==> now + reply.reset_after <= later
            &&& next.allowed && next.tokens_remaining == capacity - 1 <==> now + reply.reset_after
                <= later
        }),
{
    let (after, reply) = exact_take(bucket, capacity, refill_tokens, interval, now);
    law_refills_keep_up_with_time(bucket, capacity, refill_tokens, interval, now);
    lemma_due_refills(after, interval, later);
    let due = refill_periods(after, interval, later);
    let steps = refills_to_fill(after.tokens, capacity, refill_tokens);
    assert(steps == take_plan(bucket, capacity, refill_tokens, interval, now).1);
    lemma_refills_to_fill(after.tokens, capacity, refill_tokens);
    assert(interval * steps >= interval) by (nonlinear_arith)
        requires
            steps >= 1,
    ;
    assert(low_u64(due) == due);
    if due >= steps {
        assert(interval * due >= interval * steps && due * refill_tokens >= refill_tokens * steps)
            by (nonlinear_arith)
            requires
                due >= steps,
        ;
    } else {
        assert(interval * due + interval <= interval * steps && due * refill_tokens <= refill_tokens
            * (steps - 1)) by (nonlinear_arith)
            requires
                due + 1 <= steps,
        ;
    }
}

/// The rule that applies to a request is the first of those that do, and there is one unless none
/// does.
pub proof fn law_first_matching_rule_applies(
    rules: Seq<RateLimitRule>,
    method: Seq<char>,
    path: Seq<char>,
    from: int,
)
    requires
        0 <= from <= rules.len(),
    ensures
        match first_match(rules, method, path, from) {
            Some(i) => {
                &&& from <= i < rules.len()
                &&& rules[i].applies_to(method, path)
                &&& forall|j: int| from <= j < i ==> !(#[trigger] rules[j]).applies_to(method, path)
            },
            None => forall|j: int|
                from <= j < rules.len() ==> !(#[trigger] rules[j]).applies_to(method, path),
        },
    decreases rules.len() - from,
{
    if from < rules.len() && !rules[from].applies_to(method, path) {
        law_first_matching_rule_applies(rules, method, path, from + 1);
    }
}

/// Whatever rule of a valid configuration applies to a request, its numbers are above zero.
pub proof fn law_valid_configurations_apply_valid_rules(
    config: RateLimitConfig,
    method: Seq<char>,
    path: Seq<char>,
)
    requires
        config.is_valid(),
        config.rule_for(method, path) is Some,
    ensures
        config.rule_for(method, path)->0.is_valid(),
{
    law_first_matching_rule_applies(config.rules@, method, path, 0);
}

/// A client over the limit of a window is told that nothing remains; one within it that it need
/// not wait, and how many more requests pass.
pub proof fn law_window_clients_are_told_what_remains(
    rule_name: String,
    limit: u64,
    counter: CounterState,
    now: u64,
)
    ensures
        match window_verdict(rule_name, limit, Ok(counter), now) {
            Ok(EnforcementResult::Allowed(allowed)) => {
                &&& allowed.headers.limit == limit
                &&& allowed.headers.remaining + counter.current == limit
                &&& allowed.headers.retry_after_seconds == 0
                &&& now <= allowed.headers.reset_unix_seconds
            },
            Ok(EnforcementResult::Throttled(throttled)) => {
                &&& throttled.headers.limit == limit
                &&& throttled.headers.remaining == 0
                &&& throttled.queue_disposition == QueueDisposition::NotQueued
                &&& now <= throttled.headers.reset_unix_seconds
            },
            Ok(EnforcementResult::NotConfigured) => false,
            Err(error) => error == LimiterError::OutOfRange,
        },
{
}

/// A client that gets no token is told that none remains; one that gets a token that it need not
/// wait. Both are told the capacity of the bucket as their limit.
pub proof fn law_bucket_clients_are_told_what_remains(
    rule_name: String,
    capacity: nat,
    limit: u64,
    refill_tokens: nat,
    interval: nat,
    key: Seq<char>,
    pre: StoreModel,
    now: nat,
    post: StoreModel,
    reply: Result<TokenBucketState, StoreError>,
    unix_now: u64,
)
    requires
        limit == capacity,
        exact_take_outcome(pre, key, capacity, refill_tokens, interval, now, post, reply),
    ensures
        match bucket_verdict(rule_name, limit, reply, unix_now) {
            Ok(EnforcementResult::Allowed(allowed)) => {
                &&& allowed.headers.limit == limit
                &&& allowed.headers.remaining == post.buckets[key].tokens
                &&& allowed.headers.retry_after_seconds == 0
                &&& unix_now <= allowed.headers.reset_unix_seconds
            },
            Ok(EnforcementResult::Throttled(throttled)) => {
                &&& throttled.headers.limit == limit
                &&& throttled.headers.remaining == 0
                &&& throttled.queue_disposition == QueueDisposition::NotQueued
                &&& unix_now <= throttled.headers.reset_unix_seconds
            },
            Ok(EnforcementResult::NotConfigured) => false,
            Err(error) => error == LimiterError::OutOfRange || error == LimiterError::Store(
                StoreError::OutOfRange,
            ),
        },
{
}

/// A request is allowed exactly where its counter is then within the limit.
pub proof fn law_window_verdict_follows_the_counter(
    rule_name: String,
    limit: u64,
    pre: StoreModel,
    key: Seq<char>,
    window: nat,
    now: nat,
    post: StoreModel,
    reply: Result<CounterState, StoreError>,
    unix_now: u64,
)
    requires
        count_outcome(pre, key, window, now, post, reply),
        window_verdict(rule_name, limit, reply, unix_now) is Ok,
    ensures
        (window_verdict(rule_name, limit, reply, unix_now) matches Ok(
            EnforcementResult::Allowed(_),
        )) <==> counted(pre.windows, key, window, now).count <= limit,
        post.windows[key] == counted(pre.windows, key, window, now),
{
}

/// A request is allowed exactly where its bucket then has a token for it.
pub proof fn law_bucket_verdict_follows_the_bucket(
    rule_name: String,
    limit: u64,
    pre: StoreModel,
    key: Seq<char>,
    capacity: nat,
    refill_tokens: nat,
    interval: nat,
    now: nat,
    post: StoreModel,
    reply: Result<TokenBucketState, StoreError>,
    unix_now: u64,
)
    requires
        exact_take_outcome(pre, key, capacity, refill_tokens, interval, now, post, reply),
        bucket_verdict(rule_name, limit, reply, unix_now) is Ok,
    ensures
        ({
            let bucket = bucket_of(pre.buckets, key, capacity, now);
            let step = exact_take(bucket, capacity, refill_tokens, interval, now);
            &&& (bucket_verdict(rule_name, limit, reply, unix_now) matches Ok(
                EnforcementResult::Allowed(_),
            )) <==> step.1.allowed
            &&& post.buckets[key] == step.0
        }),
{
}

/// A request that cannot be held against its limit is neither allowed nor throttled, whichever
/// algorithm limits it.
pub proof fn law_store_failures_are_reported(
    rule_name: String,
    limit: u64,
    error: StoreError,
    now: u64,
)
    ensures
        window_verdict(rule_name, limit, Err(error), now) == Err::<EnforcementResult, LimiterError>(
            LimiterError::Store(error),
        ),
        bucket_verdict(rule_name, limit, Err(error), now) == Err::<EnforcementResult, LimiterError>(
            LimiterError::Store(error),
        ),
{
}

/// Nothing is queued for a rule that blocks, nor for a request that is not over its limit.
pub proof fn law_only_throttled_requests_of_queueing_rules_are_queued<Q: ThrottledRequestQueue>(
    rule: RateLimitRule,
    queue_key: Seq<char>,
    ip: Seq<char>,
    method: Seq<char>,
    path: Seq<char>,
    verdict: Result<EnforcementResult, LimiterError>,
    pre: Q,
    post: Q,
    r: Result<EnforcementResult, LimiterError>,
)
    requires
        may_settle(rule, queue_key, ip, method, path, verdict, pre, post, r),
        rule.behavior == RateLimitBehavior::Block || !(verdict matches Ok(
            EnforcementResult::Throttled(_),
        )),
    ensures
        post == pre,
        r matches Ok(EnforcementResult::Throttled(throttled)) ==> throttled.queue_disposition
            == QueueDisposition::NotQueued,
{
}

/// With queues in memory, a request over the limit of a rule that queues is described at the end
/// of the queue of the configuration, and the client is told so.
pub proof fn law_throttled_requests_are_queued_in_memory(
    rule: RateLimitRule,
    queue_key: Seq<char>,
    ip: Seq<char>,
    method: Seq<char>,
    path: Seq<char>,
    verdict: Result<EnforcementResult, LimiterError>,
    pre: InMemoryThrottledRequestQueue,
    post: InMemoryThrottledRequestQueue,
    r: Result<EnforcementResult, LimiterError>,
)
    requires
        may_settle(rule, queue_key, ip, method, path, verdict, pre, post, r),
        rule.behavior == RateLimitBehavior::Queue,
        verdict matches Ok(EnforcementResult::Throttled(_)),
    ensures
        post@.len() == pre@.len() + 1,
        post@.drop_last() == pre@,
        post@.last().0 == queue_key,
        exists|now: u64|
            {
                &&& is_unix_second(now)
                &&& #[trigger] post@.last().1.says(
                    rule.name@,
                    ip,
                    method,
                    path,
                    now,
                    to_be_queued(rule, verdict)->0,
                )
            },
        r matches Ok(EnforcementResult::Throttled(throttled)) && throttled.queue_disposition
            == QueueDisposition::Queued,
{
    let (request, now, reply) = choose|
        request: ThrottledRequest,
        now: u64,
        reply: Result<(), QueueError>,
    |
        {
            &&& is_unix_second(now)
            &&& #[trigger] request.says(
                rule.name@,
                ip,
                method,
                path,
                now,
                to_be_queued(rule, verdict)->0,
            )
            &&& #[trigger] InMemoryThrottledRequestQueue::may_enqueue(
                pre,
                queue_key,
                request,
                post,
                reply,
            )
            &&& r == settled(verdict, Some(reply))
        };
    assert(post@.drop_last() =~= pre@);
    assert(post@.last().1.says(
        rule.name@,
        ip,
        method,
        path,
        now,
        to_be_queued(rule, verdict)->0,
    ));
}

/// Requests are refused only for being over their limits: where that cannot be told, they are
/// served.
pub proof fn law_service_fails_open(
    action: Action,
    checked: Option<Result<EnforcementResult, LimiterError>>,
)
    requires
        action.answers(checked),
    ensures
        action.serves() <==> !(checked matches Some(Ok(EnforcementResult::Throttled(_)))),
{
}

/// A client that is told of its limit is told the limit, what remains of it, how long to wait and
/// when the whole of it is at hand again; every other field of the response stays as it was.
pub proof fn law_clients_are_told_of_their_limit(
    fields: Map<Seq<u8>, Seq<Seq<u8>>>,
    headers: RateLimitHeaders,
    other: Seq<u8>,
)
    ensures
        ({
            let told = with_rate_limit(fields, headers);
            let limit = encode_utf8(HEADER_LIMIT@);
            let remaining = encode_utf8(HEADER_REMAINING@);
            let retry_after = encode_utf8(HEADER_RETRY_AFTER@);
            let reset = encode_utf8(HEADER_RESET@);
            &&& told.contains_key(limit) && told[limit] == seq![
                encode_utf8(decimal(headers.limit as nat)),
            ]
            &&& told.contains_key(remaining) && told[remaining] == seq![
                encode_utf8(decimal(headers.remaining as nat)),
            ]
            &&& told.contains_key(retry_after) && told[retry_after] == seq![
                encode_utf8(decimal(headers.retry_after_seconds as nat)),
            ]
            &&& told.contains_key(reset) && told[reset] == seq![
                encode_utf8(decimal(headers.reset_unix_seconds as nat)),
            ]
            &&& other != limit && other != remaining && other != retry_after && other != reset
                ==> told.contains_key(other) == fields.contains_key(other) && (
            fields.contains_key(other) ==> told[other] == fields[other])
        }),
{
    reveal_strlit("x-ratelimit-limit");
    reveal_strlit("x-ratelimit-remaining");
    reveal_strlit("x-ratelimit-retry-after");
    reveal_strlit("x-ratelimit-reset");
    vstd::utf8::is_ascii_chars_encode_utf8(HEADER_LIMIT@);
    vstd::utf8::is_ascii_chars_encode_utf8(HEADER_REMAINING@);
    vstd::utf8::is_ascii_chars_encode_utf8(HEADER_RETRY_AFTER@);
    vstd::utf8::is_ascii_chars_encode_utf8(HEADER_RESET@);
    assert(encode_utf8(HEADER_LIMIT@)[12] != encode_utf8(HEADER_RESET@)[12]);
}

} // verus!
