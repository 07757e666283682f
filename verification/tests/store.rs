use rate_limiter_sdi::store::{
    count_script, take_script, CounterState, InMemoryCounterStore, RateLimitStore, StoreError,
    TakePlan, TokenBucketState, FIXED_WINDOW_LUA, TOKEN_BUCKET_LUA,
};
use rate_limiter_sdi::time::Duration;

fn secs(n: u64) -> Duration {
    Duration::from_secs(n)
}

#[test]
fn in_memory_store_increments_within_window() {
    let mut store = InMemoryCounterStore::default();
    let first = store.increment_fixed_window("key", Duration::from_secs(60)).unwrap();
    let second = store.increment_fixed_window("key", Duration::from_secs(60)).unwrap();

    assert_eq!(first.current, 1);
    assert_eq!(second.current, 2);
}

#[test]
fn in_memory_token_bucket_refuses_request_after_capacity_is_spent() {
    let mut store = InMemoryCounterStore::default();

    let first = store.take_token_from_bucket("bucket", 2, 1, Duration::from_secs(60)).unwrap();
    let second = store.take_token_from_bucket("bucket", 2, 1, Duration::from_secs(60)).unwrap();
    let third = store.take_token_from_bucket("bucket", 2, 1, Duration::from_secs(60)).unwrap();

    assert!(first.allowed);
    assert!(second.allowed);
    assert!(!third.allowed);
    assert_eq!(third.tokens_remaining, 0);
    assert!(third.retry_after > Duration::from_secs(0));
}

#[test]
fn windows_open_with_their_first_request_and_close_after_their_length() {
    let mut store = InMemoryCounterStore::new();
    let window = secs(60);
    let mut count = |key: &str, now: u64| {
        let state = store.increment_fixed_window_at(key, window, secs(now)).unwrap();
        (state.current, state.ttl.as_secs())
    };
    assert_eq!(count("a", 100), (1, 60));
    assert_eq!(count("a", 130), (2, 30));
    assert_eq!(count("b", 131), (1, 60));
    assert_eq!(count("a", 159), (3, 1));
    assert_eq!(count("a", 160), (1, 60));
    assert_eq!(count("b", 161), (2, 30));
    assert_eq!(count("b", 191), (1, 60));
}

#[test]
fn windows_of_no_length_close_at_once() {
    let mut store = InMemoryCounterStore::new();
    for _ in 0..3 {
        let state = store.increment_fixed_window_at("a", secs(0), secs(7)).unwrap();
        assert_eq!(state, CounterState { current: 1, ttl: secs(0) });
    }
}

#[test]
fn windows_that_would_never_end_are_out_of_range() {
    let mut store = InMemoryCounterStore::new();
    let long = secs(u64::MAX);
    assert_eq!(
        store.increment_fixed_window_at("a", long, secs(1)),
        Err(StoreError::OutOfRange)
    );
    let state = store.increment_fixed_window_at("a", secs(60), secs(1)).unwrap();
    assert_eq!(state.current, 1);
    let state = store.increment_fixed_window_at("a", long, secs(2)).unwrap();
    assert_eq!(state, CounterState { current: 2, ttl: secs(59) });
}

#[test]
fn buckets_serve_bursts_and_refill_interval_by_interval() {
    let mut store = InMemoryCounterStore::new();
    let mut take = |key: &str, now_ms: u64| {
        store
            .take_token_from_bucket_at(key, 3, 2, secs(10), Duration::from_millis(now_ms))
            .unwrap()
    };
    let state = take("a", 1000);
    assert_eq!(
        state,
        TokenBucketState {
            allowed: true,
            tokens_remaining: 2,
            retry_after: secs(0),
            reset_after: secs(10),
        }
    );
    assert_eq!(take("a", 1000).tokens_remaining, 1);
    let last = take("a", 1500);
    assert_eq!((last.allowed, last.tokens_remaining), (true, 0));
    assert_eq!(last.reset_after, Duration::from_millis(19_500));
    let refused = take("a", 4000);
    assert_eq!(
        refused,
        TokenBucketState {
            allowed: false,
            tokens_remaining: 0,
            retry_after: secs(7),
            reset_after: secs(17),
        }
    );
    assert_eq!(take("b", 4000).tokens_remaining, 2);
    assert!(!take("a", 10_999).allowed);
    let refilled = take("a", 11_000);
    assert_eq!((refilled.allowed, refilled.tokens_remaining), (true, 1));
    let full = take("a", 35_000);
    assert_eq!((full.allowed, full.tokens_remaining), (true, 2));
    assert_eq!(full.reset_after, secs(6));
    assert_eq!(take("a", 41_000).tokens_remaining, 2);
}

#[test]
fn waiting_as_told_is_enough() {
    let mut store = InMemoryCounterStore::new();
    let interval = Duration::from_millis(700);
    let start = Duration::from_millis(5_123);
    for _ in 0..2 {
        assert!(store.take_token_from_bucket_at("a", 2, 1, interval, start).unwrap().allowed);
    }
    let refused = store.take_token_from_bucket_at("a", 2, 1, interval, start).unwrap();
    assert!(!refused.allowed);
    let retry = start.checked_add(refused.retry_after).unwrap();
    assert!(store.take_token_from_bucket_at("a", 2, 1, interval, retry).unwrap().allowed);
    let spent = store.take_token_from_bucket_at("a", 2, 1, interval, retry).unwrap();
    assert!(!spent.allowed);
    let reset = retry.checked_add(spent.reset_after).unwrap();
    let full = store.take_token_from_bucket_at("a", 2, 1, interval, reset).unwrap();
    assert_eq!(full.tokens_remaining, 1);
}

#[test]
fn rate_is_kept_in_the_long_run() {
    let mut store = InMemoryCounterStore::new();
    let mut admitted = 0;
    for step in 0..1000_u64 {
        let now = Duration::from_millis(9_000 + step * 37);
        if store.take_token_from_bucket_at("a", 5, 2, secs(1), now).unwrap().allowed {
            admitted += 1;
        }
    }
    assert_eq!(admitted, 5 + 2 * (999 * 37 / 1000));
}

#[test]
fn plans_count_the_refills_that_are_due_and_missing() {
    let mut store = InMemoryCounterStore::new();
    let interval = Duration::new(0, 1_900_000);
    let start = secs(1);
    assert_eq!(
        store.plan_take("a", 10, 3, interval, start),
        Ok(TakePlan { refill_periods: 0, reset_steps: 1 })
    );
    for _ in 0..10 {
        store.take_token_from_bucket_at("a", 10, 3, interval, start).unwrap();
    }
    let later = Duration::new(1, 2_500_000);
    assert_eq!(
        store.plan_take("a", 10, 3, interval, later),
        Ok(TakePlan { refill_periods: 2, reset_steps: 2 })
    );
    let state = store
        .take_token_at("a", 10, 3, interval, later, Duration::new(0, 3_800_000), secs(9))
        .unwrap();
    assert_eq!((state.allowed, state.tokens_remaining), (true, 5));
    assert_eq!(state.reset_after, secs(9));
    assert_eq!(
        store.plan_take("a", 10, 3, interval, Duration::new(1, 4_700_000)),
        Ok(TakePlan { refill_periods: 0, reset_steps: 2 })
    );
}

#[test]
fn intervals_below_a_millisecond_count_as_one() {
    let mut store = InMemoryCounterStore::new();
    store.take_token_from_bucket_at("a", 4, 1, secs(0), secs(1)).unwrap();
    assert_eq!(
        store.plan_take("a", 4, 1, secs(0), Duration::new(1, 2_000_000)),
        Ok(TakePlan { refill_periods: 2, reset_steps: 1 })
    );
}

#[test]
fn buckets_of_no_capacity_refuse() {
    let mut store = InMemoryCounterStore::new();
    let state = store.take_token_from_bucket_at("a", 0, 0, secs(10), secs(3)).unwrap();
    assert_eq!(
        state,
        TokenBucketState {
            allowed: false,
            tokens_remaining: 0,
            retry_after: secs(10),
            reset_after: secs(0),
        }
    );
}

#[test]
fn refills_out_of_range_are_reported() {
    let mut store = InMemoryCounterStore::new();
    assert_eq!(
        store.take_token_from_bucket_at("a", 2, 0, secs(10), secs(3)),
        Err(StoreError::OutOfRange)
    );
    assert_eq!(store.plan_take("a", 2, 0, secs(10), secs(3)), Err(StoreError::OutOfRange));
    assert_eq!(
        store.take_token_from_bucket_at("a", u64::MAX, 1, secs(u64::MAX), secs(3)).map(|s| s.allowed),
        Ok(true)
    );
    assert_eq!(
        store.take_token_from_bucket_at("a", u64::MAX, 1, secs(u64::MAX), secs(3)),
        Err(StoreError::OutOfRange)
    );
    assert!(store.take_token_from_bucket_at("b", 2, u64::MAX, secs(1), secs(3)).unwrap().allowed);
    assert!(store.take_token_from_bucket_at("b", 2, u64::MAX, secs(1), secs(4)).unwrap().allowed);
    assert_eq!(
        store.take_token_from_bucket_at("b", 2, u64::MAX, secs(1), secs(6)),
        Err(StoreError::OutOfRange)
    );
    assert_eq!(
        store.take_token_at("b", 2, 1, secs(1), secs(6), secs(u64::MAX), secs(1)),
        Err(StoreError::OutOfRange)
    );
}

#[test]
fn script_replies_are_read() {
    assert_eq!(CounterState::from_reply(3, 1500), CounterState { current: 3, ttl: Duration::from_millis(1500) });
    assert_eq!(CounterState::from_reply(3, -2).ttl, secs(0));
    let state = TokenBucketState::from_reply(1, 4, -1, 2500);
    assert!(state.allowed);
    assert_eq!(state.tokens_remaining, 4);
    assert_eq!(state.retry_after, secs(0));
    assert_eq!(state.reset_after, Duration::from_millis(2500));
    assert!(!TokenBucketState::from_reply(0, 0, 1, 1).allowed);
    assert!(!TokenBucketState::from_reply(2, 0, 1, 1).allowed);
}

#[test]
fn script_arguments_are_in_order() {
    let count = count_script("a", secs(60));
    assert_eq!(count.script, FIXED_WINDOW_LUA);
    assert_eq!(count.key, "a");
    assert_eq!(count.args, vec![60_000]);
    let take = take_script("b", 30, 5, secs(10), 1_700_000_000_123);
    assert_eq!(take.script, TOKEN_BUCKET_LUA);
    assert_eq!(take.key, "b");
    assert_eq!(take.args, vec![30, 5, 10_000, 1_700_000_000_123]);
}

#[test]
fn store_errors_in_words() {
    assert_eq!(StoreError::Redis("gone".to_string()).message(), "redis store error: gone");
    assert_eq!(StoreError::LockPoisoned.message(), "in-memory store lock poisoned");
    assert_eq!(StoreError::OutOfRange.message(), "rate-limit state out of range");
}

#[test]
fn operations_do_not_set_the_clock_back() {
    let mut store = InMemoryCounterStore::new();
    let start = store.now();
    while !store.now().exceeds(&start.checked_add(Duration::from_millis(2)).unwrap()) {}
    let before = store.now();
    store.increment_fixed_window("a", secs(60)).unwrap();
    store.take_token_from_bucket("a", 2, 1, secs(60)).unwrap();
    assert!(!before.exceeds(&store.now()));
}

#[test]
fn windows_of_no_length_are_counted_by_the_clock() {
    let mut store = InMemoryCounterStore::new();
    for _ in 0..3 {
        let state = store.increment_fixed_window("a", secs(0)).unwrap();
        assert_eq!(state, CounterState { current: 1, ttl: secs(0) });
    }
}

#[test]
fn new_buckets_serve_their_capacity_within_an_interval() {
    let mut store = InMemoryCounterStore::new();
    for i in 0..10_u64 {
        let now = Duration::from_millis(1_000 + i * 999);
        store.increment_fixed_window_at("a", secs(1), now).unwrap();
        store.take_token_from_bucket_at("b", 1, 1, secs(1), now).unwrap();
        let state = store.take_token_from_bucket_at("a", 4, 3, secs(10), now).unwrap();
        assert_eq!(state.allowed, i < 4);
        assert_eq!(state.tokens_remaining, 3_u64.saturating_sub(i));
    }
}

#[test]
fn told_waits_are_the_shortest() {
    let last_moment = Duration::new(0, 1);
    for early in [false, true] {
        let mut store = InMemoryCounterStore::new();
        let start = Duration::from_millis(1_500);
        for _ in 0..5 {
            store.take_token_from_bucket_at("a", 5, 2, secs(10), start).unwrap();
        }
        let told = store
            .take_token_from_bucket_at("a", 5, 2, secs(10), Duration::from_millis(3_250))
            .unwrap();
        assert!(!told.allowed);
        assert_eq!(told.retry_after, Duration::from_millis(8_250));
        assert_eq!(told.reset_after, Duration::from_millis(28_250));

        let mut retry = Duration::from_millis(3_250 + 8_250);
        if early {
            retry = retry.saturating_sub(last_moment);
        }
        let next = store.take_token_from_bucket_at("a", 5, 2, secs(10), retry).unwrap();
        assert_eq!(next.allowed, !early);

        let mut store = InMemoryCounterStore::new();
        for _ in 0..6 {
            store.take_token_from_bucket_at("a", 5, 2, secs(10), start).unwrap();
        }
        let mut reset = Duration::from_millis(1_500 + 30_000);
        if early {
            reset = reset.saturating_sub(last_moment);
        }
        let next = store.take_token_from_bucket_at("a", 5, 2, secs(10), reset).unwrap();
        assert!(next.allowed);
        assert_eq!(next.tokens_remaining == 4, !early);
    }
}

#[test]
fn other_calls_leave_a_bucket_and_a_counter_alone() {
    let mut busy = InMemoryCounterStore::new();
    let mut quiet = InMemoryCounterStore::new();
    for i in 0..40_u64 {
        let now = Duration::from_millis(i * 700);
        busy.take_token_from_bucket_at("b", 1, 1, secs(2), now).unwrap();
        busy.increment_fixed_window_at("b", secs(2), now).unwrap();
        assert_eq!(
            busy.take_token_from_bucket_at("a", 3, 1, secs(3), now),
            quiet.take_token_from_bucket_at("a", 3, 1, secs(3), now)
        );
        assert_eq!(
            busy.increment_fixed_window_at("a", secs(5), now),
            quiet.increment_fixed_window_at("a", secs(5), now)
        );
    }
}

/// The length of several intervals by a floating-point factor.
fn float_times(interval: Duration, factor: f64) -> Duration {
    let product =
        std::time::Duration::new(interval.as_secs(), interval.subsec_nanos()).mul_f64(factor);
    Duration::new(product.as_secs(), product.subsec_nanos())
}

/// Takes a token, with the lengths of several refills by floating-point factors.
fn take_with_floats(
    store: &mut InMemoryCounterStore,
    capacity: u64,
    refill_tokens: u64,
    interval: Duration,
    now: Duration,
) -> TokenBucketState {
    let plan = store.plan_take("a", capacity, refill_tokens, interval, now).unwrap();
    let advance = float_times(interval, plan.refill_periods as f64);
    let to_full = float_times(interval, plan.reset_steps as f64);
    store.take_token_at("a", capacity, refill_tokens, interval, now, advance, to_full).unwrap()
}

#[test]
fn lengths_of_refills_may_come_from_floating_point() {
    let mut store = InMemoryCounterStore::new();
    assert!(take_with_floats(&mut store, 1, 1, secs(1), secs(0)).allowed);
    let state = take_with_floats(&mut store, 9_007_199_254_740_993, 1, secs(1), secs(0));
    assert!(!state.allowed);
    assert_eq!(state.reset_after, secs(9_007_199_254_740_992));
}

#[test]
fn exact_lengths_are_those_of_floating_point_in_whole_seconds_that_a_float_can_hold() {
    for seconds in [1, 7, 10, 60, 3_600, 86_400] {
        let mut exact = InMemoryCounterStore::new();
        let mut float = InMemoryCounterStore::new();
        for step in 0..200_u64 {
            let now = Duration::from_millis(step * step * 137);
            assert_eq!(
                exact.take_token_from_bucket_at("a", 30, 5, secs(seconds), now).unwrap(),
                take_with_floats(&mut float, 30, 5, secs(seconds), now)
            );
        }
    }
}
