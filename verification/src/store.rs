//! Counters and token buckets: what a rate-limit store keeps, and the store that keeps it in memory.

use crate::time::{
    at_least, duration_from_millis, low_u64, max_span, millis_u64, monus, to_low_u64, Clock, Duration,
};
use vstd::hash_map::StringHashMap;
use vstd::prelude::*;

verus! {

/// The state of a fixed-window counter after a request was counted.
#[derive(Debug, Clone, Copy, PartialEq, Eq, Structural)]
pub struct CounterState {
    /// How many requests the window has seen.
    pub current: u64,
    /// How long the window still lasts.
    pub ttl: Duration,
}

/// The state of a token bucket after a request asked it for a token.
#[derive(Debug, Clone, Copy, PartialEq, Eq, Structural)]
pub struct TokenBucketState {
    /// Whether the request got its token.
    pub allowed: bool,
    /// How many tokens are left.
    pub tokens_remaining: u64,
    /// How long until the next token, for a request that got none.
    pub retry_after: Duration,
    /// How long until the bucket is full.
    pub reset_after: Duration,
}

/// A number of milliseconds in nanoseconds; none where it is negative.
pub open spec fn millis_or_none(milliseconds: i64) -> nat {
    if milliseconds < 0 {
        0
    } else {
        (milliseconds * 1_000_000) as nat
    }
}

impl CounterState {
    /// The state that a script reports as a count and the milliseconds that the window still lasts,
    /// which are negative where the window has no end or is gone.
    pub fn from_reply(current: u64, ttl_ms: i64) -> (state: CounterState)
        ensures
            state.current == current,
            state.ttl@ == millis_or_none(ttl_ms),
    {
        CounterState { current, ttl: duration_from_millis(ttl_ms) }
    }
}

impl TokenBucketState {
    /// The state that a script reports as a one for a request that got its token, the tokens that
    /// are left, and the milliseconds until the next token and until the bucket is full.
    pub fn from_reply(
        allowed: u64,
        tokens_remaining: u64,
        retry_after_ms: i64,
        reset_after_ms: i64,
    ) -> (state: TokenBucketState)
        ensures
            state.allowed == (allowed == 1),
            state.tokens_remaining == tokens_remaining,
            state.retry_after@ == millis_or_none(retry_after_ms),
            state.reset_after@ == millis_or_none(reset_after_ms),
    {
        TokenBucketState {
            allowed: allowed == 1,
            tokens_remaining,
            retry_after: duration_from_millis(retry_after_ms),
            reset_after: duration_from_millis(reset_after_ms),
        }
    }
}

/// The script by which a Redis server counts a request. It is given the key of the counter and the
/// length of a window, and it reports the count and how long the window still lasts; all times are
/// in milliseconds.
pub const FIXED_WINDOW_LUA: &'static str = r#"
local current = redis.call("INCR", KEYS[1])
if current == 1 then
  redis.call("PEXPIRE", KEYS[1], ARGV[1])
end
local ttl = redis.call("PTTL", KEYS[1])
return {current, ttl}
"#;

/// The script by which a Redis server takes a token from a bucket. It is given the key of the
/// bucket, its capacity, what a refill brings, the interval between refills and the time, and it
/// reports a one if there was a token, the tokens that are left, and how long it is until the next
/// token and until the bucket is full; all times are in milliseconds.
pub const TOKEN_BUCKET_LUA: &'static str = r#"
local capacity = tonumber(ARGV[1])
local refill_tokens = tonumber(ARGV[2])
local refill_interval_ms = tonumber(ARGV[3])
local now_ms = tonumber(ARGV[4])

local data = redis.call("HMGET", KEYS[1], "tokens", "last_refill_ms")
local tokens = tonumber(data[1])
local last_refill_ms = tonumber(data[2])

if tokens == nil then
  tokens = capacity
end

if last_refill_ms == nil then
  last_refill_ms = now_ms
end

local elapsed_ms = math.max(0, now_ms - last_refill_ms)
local refill_periods = math.floor(elapsed_ms / refill_interval_ms)

if refill_periods > 0 then
  tokens = math.min(capacity, tokens + refill_periods * refill_tokens)
  last_refill_ms = last_refill_ms + refill_periods * refill_interval_ms
end

local allowed = 0
if tokens >= 1 then
  tokens = tokens - 1
  allowed = 1
end

local elapsed_since_last_refill = math.max(0, now_ms - last_refill_ms)
local retry_after_ms = 0
if allowed == 0 then
  retry_after_ms = refill_interval_ms - elapsed_since_last_refill
  if retry_after_ms <= 0 then
    retry_after_ms = refill_interval_ms
  end
end

local reset_after_ms = 0
if tokens < capacity then
  local missing_tokens = capacity - tokens
  local refill_steps = math.ceil(missing_tokens / refill_tokens)
  reset_after_ms = refill_steps * refill_interval_ms - elapsed_since_last_refill
  if reset_after_ms < 0 then
    reset_after_ms = 0
  end
end

redis.call("HSET", KEYS[1], "tokens", tokens, "last_refill_ms", last_refill_ms)
redis.call("PEXPIRE", KEYS[1], math.max(reset_after_ms, refill_interval_ms))

return {allowed, tokens, retry_after_ms, reset_after_ms}
"#;

/// A script for a Redis server, with the key and the arguments that it is given.
#[derive(Debug, PartialEq, Eq)]
pub struct ScriptCall<'a> {
    pub script: &'static str,
    pub key: &'a str,
    pub args: Vec<u64>,
}

/// The script call that counts a request under `key`, in windows of length `window`.
pub fn count_script<'a>(key: &'a str, window: Duration) -> (call: ScriptCall<'a>)
    ensures
        call.script@ == FIXED_WINDOW_LUA@,
        call.key@ == key@,
        call.args@ == seq![low_u64(window@ / 1_000_000) as u64],
{
    ScriptCall { script: FIXED_WINDOW_LUA, key, args: vec![millis_u64(&window)] }
}

/// The script call that takes a token from the bucket under `key` at `now_ms`, in milliseconds
/// since the Unix epoch.
pub fn take_script<'a>(
    key: &'a str,
    capacity: u64,
    refill_tokens: u64,
    refill_interval: Duration,
    now_ms: u64,
) -> (call: ScriptCall<'a>)
    ensures
        call.script@ == TOKEN_BUCKET_LUA@,
        call.key@ == key@,
        call.args@ == seq![
            capacity,
            refill_tokens,
            low_u64(refill_interval@ / 1_000_000) as u64,
            now_ms,
        ],
{
    ScriptCall {
        script: TOKEN_BUCKET_LUA,
        key,
        args: vec![capacity, refill_tokens, millis_u64(&refill_interval), now_ms],
    }
}

/// Why a store could not serve a request.
#[derive(Debug, PartialEq, Eq)]
pub enum StoreError {
    /// The Redis server, or the way to it, failed, for the reason given.
    Redis(String),
    /// Another user of the store failed while it held the store's lock.
    LockPoisoned,
    /// A count or a time would leave the range in which it can be kept.
    OutOfRange,
}

impl StoreError {
    /// The error in words.
    pub open spec fn text(&self) -> Seq<char> {
        match self {
            StoreError::Redis(reason) => "redis store error: "@ + reason@,
            StoreError::LockPoisoned => "in-memory store lock poisoned"@,
            StoreError::OutOfRange => "rate-limit state out of range"@,
        }
    }

    /// The error in words.
    pub fn message(&self) -> (s: String)
        ensures
            s@ == self.text(),
    {
        match self {
            StoreError::Redis(reason) => {
                let mut s = "redis store error: ".to_owned();
                s.append(reason.as_str());
                s
            },
            StoreError::LockPoisoned => "in-memory store lock poisoned".to_owned(),
            StoreError::OutOfRange => "rate-limit state out of range".to_owned(),
        }
    }
}

/// A place where counters and token buckets are kept.
pub trait RateLimitStore: Sized {
    /// What every operation keeps of the store.
    spec fn valid(&self) -> bool;

    /// Whether a request that is counted under `key`, in windows of length `window`, can take the
    /// store from `pre` to `post` with the answer `r`.
    spec fn may_count(
        pre: Self,
        key: Seq<char>,
        window: Duration,
        post: Self,
        r: Result<CounterState, StoreError>,
    ) -> bool;

    /// Whether a request for a token from the bucket under `key` can take the store from `pre` to
    /// `post` with the answer `r`.
    spec fn may_take(
        pre: Self,
        key: Seq<char>,
        capacity: u64,
        refill_tokens: u64,
        refill_interval: Duration,
        post: Self,
        r: Result<TokenBucketState, StoreError>,
    ) -> bool;

    /// Counts a request under `key`, in windows of length `window`.
    fn increment_fixed_window(&mut self, key: &str, window: Duration) -> (r: Result<
        CounterState,
        StoreError,
    >)
        requires
            old(self).valid(),
        ensures
            final(self).valid(),
            Self::may_count(*old(self), key@, window, *final(self), r),
    ;

    /// Asks the bucket under `key`, which holds `capacity` tokens and gets `refill_tokens` more
    /// every `refill_interval`, for a token.
    fn take_token_from_bucket(
        &mut self,
        key: &str,
        capacity: u64,
        refill_tokens: u64,
        refill_interval: Duration,
    ) -> (r: Result<TokenBucketState, StoreError>)
        requires
            old(self).valid(),
        ensures
            final(self).valid(),
            Self::may_take(
                *old(self),
                key@,
                capacity,
                refill_tokens,
                refill_interval,
                *final(self),
                r,
            ),
    ;
}

/// A fixed-window counter as the contracts see it: times are in nanoseconds.
pub struct WindowModel {
    pub count: nat,
    pub expires_at: nat,
}

/// A counter that is kept in memory.
#[derive(Debug, Clone, Copy)]
struct FixedWindowEntry {
    count: u64,
    expires_at: Duration,
}

impl View for FixedWindowEntry {
    type V = WindowModel;

    closed spec fn view(&self) -> WindowModel {
        WindowModel { count: self.count as nat, expires_at: self.expires_at@ }
    }
}

/// The counters whose windows are still open at `now`.
pub open spec fn open_windows(windows: Map<Seq<char>, WindowModel>, now: nat) -> Map<
    Seq<char>,
    WindowModel,
> {
    Map::new(
        |key: Seq<char>| windows.contains_key(key) && windows[key].expires_at > now,
        |key: Seq<char>| windows[key],
    )
}

/// The characters of each key.
closed spec fn texts(keys: Seq<String>) -> Seq<Seq<char>> {
    keys.map_values(|key: String| key@)
}

/// Putting a key at the end of a list of keys.
proof fn lemma_texts_push(keys: Seq<String>, key: String)
    ensures
        texts(keys.push(key)) == texts(keys).push(key@),
        forall|text: Seq<char>| #[trigger]
            texts(keys.push(key)).contains(text) <==> texts(keys).contains(text) || text == key@,
        texts(keys.push(key)).no_duplicates() <==> texts(keys).no_duplicates() && !texts(
            keys,
        ).contains(key@),
{
    let longer = texts(keys.push(key));
    assert(longer =~= texts(keys).push(key@));
    assert(longer[keys.len() as int] == key@);
    assert forall|i: int| 0 <= i < keys.len() implies longer[i] == #[trigger] texts(keys)[i] by {}
    assert forall|text: Seq<char>| texts(keys).contains(text) implies #[trigger] longer.contains(
        text,
    ) by {
        let i = texts(keys).index_of(text);
        assert(longer[i] == text);
    }
    if longer.no_duplicates() {
        if texts(keys).contains(key@) {
            let i = texts(keys).index_of(key@);
            assert(longer[i] == longer[keys.len() as int]);
        }
        assert forall|i: int, j: int|
            0 <= i < keys.len() && 0 <= j < keys.len() && i != j implies texts(keys)[i] != texts(
            keys,
        )[j] by {
            assert(longer[i] != longer[j]);
        }
    }
}

/// What holds of a key while the counters that were there `before` are gone through: those under
/// `pending` keys are still to come, those under `kept` keys are open at `now`, and `entries` holds
/// both.
spec fn sifted_key(
    before: Map<Seq<char>, FixedWindowEntry>,
    entries: Map<Seq<char>, FixedWindowEntry>,
    pending: Seq<String>,
    kept: Seq<String>,
    now: nat,
    key: Seq<char>,
) -> bool {
    &&& texts(pending).contains(key) ==> before.contains_key(key) && !texts(kept).contains(key)
    &&& texts(kept).contains(key) <==> before.contains_key(key) && !texts(pending).contains(key)
        && before[key].expires_at@ > now
    &&& entries.contains_key(key) <==> texts(pending).contains(key) || texts(kept).contains(key)
    &&& entries.contains_key(key) ==> entries[key] == before[key]
}

/// What holds while the counters that were there `before` are gone through.
spec fn sifted(
    before: Map<Seq<char>, FixedWindowEntry>,
    entries: Map<Seq<char>, FixedWindowEntry>,
    pending: Seq<String>,
    kept: Seq<String>,
    now: nat,
) -> bool {
    &&& texts(pending).no_duplicates()
    &&& texts(kept).no_duplicates()
    &&& forall|key: Seq<char>| #[trigger] sifted_key(before, entries, pending, kept, now, key)
}

/// At the start every key is still to come.
proof fn lemma_sift_start(
    before: Map<Seq<char>, FixedWindowEntry>,
    pending: Seq<String>,
    kept: Seq<String>,
    now: nat,
)
    requires
        texts(pending).no_duplicates(),
        forall|key: Seq<char>| texts(pending).contains(key) <==> #[trigger] before.contains_key(key),
        kept.len() == 0,
    ensures
        sifted(before, before, pending, kept, now),
{
    assert(texts(kept).len() == 0);
    assert forall|key: Seq<char>| #[trigger] sifted_key(
        before,
        before,
        pending,
        kept,
        now,
        key,
    ) by {
        assert(texts(pending).contains(key) <==> before.contains_key(key));
    }
}

/// The next key has a counter, which is the one that was there before.
proof fn lemma_sift_next(
    before: Map<Seq<char>, FixedWindowEntry>,
    entries: Map<Seq<char>, FixedWindowEntry>,
    pending: Seq<String>,
    kept: Seq<String>,
    key: String,
    now: nat,
)
    requires
        sifted(before, entries, pending.push(key), kept, now),
    ensures
        entries.contains_key(key@),
        entries[key@] == before[key@],
{
    lemma_texts_push(pending, key);
    assert(sifted_key(before, entries, pending.push(key), kept, now, key@));
    assert(texts(pending.push(key)).contains(key@));
}

/// The next key is kept if its window is open.
proof fn lemma_sift_keep(
    before: Map<Seq<char>, FixedWindowEntry>,
    entries: Map<Seq<char>, FixedWindowEntry>,
    pending: Seq<String>,
    kept: Seq<String>,
    key: String,
    now: nat,
)
    requires
        sifted(before, entries, pending.push(key), kept, now),
        before[key@].expires_at@ > now,
    ensures
        sifted(before, entries, pending, kept.push(key), now),
{
    lemma_texts_push(pending, key);
    lemma_texts_push(kept, key);
    assert(texts(pending.push(key)).contains(key@));
    assert(sifted_key(before, entries, pending.push(key), kept, now, key@));
    assert forall|other: Seq<char>| #[trigger] sifted_key(
        before,
        entries,
        pending,
        kept.push(key),
        now,
        other,
    ) by {
        assert(sifted_key(before, entries, pending.push(key), kept, now, other));
        assert(texts(pending.push(key)).contains(other) <==> texts(pending).contains(other) || other
            == key@);
        assert(texts(kept.push(key)).contains(other) <==> texts(kept).contains(other) || other
            == key@);
    }
}

/// The counter under the next key is dropped if its window has closed.
proof fn lemma_sift_drop(
    before: Map<Seq<char>, FixedWindowEntry>,
    entries: Map<Seq<char>, FixedWindowEntry>,
    pending: Seq<String>,
    kept: Seq<String>,
    key: String,
    now: nat,
)
    requires
        sifted(before, entries, pending.push(key), kept, now),
        before[key@].expires_at@ <= now,
    ensures
        sifted(before, entries.remove(key@), pending, kept, now),
{
    lemma_texts_push(pending, key);
    assert(texts(pending.push(key)).contains(key@));
    assert(sifted_key(before, entries, pending.push(key), kept, now, key@));
    assert forall|other: Seq<char>| #[trigger] sifted_key(
        before,
        entries.remove(key@),
        pending,
        kept,
        now,
        other,
    ) by {
        assert(sifted_key(before, entries, pending.push(key), kept, now, other));
        assert(texts(pending.push(key)).contains(other) <==> texts(pending).contains(other) || other
            == key@);
    }
}

/// Once no key is to come, just the open counters are left, under the kept keys.
proof fn lemma_sift_end(
    before: Map<Seq<char>, FixedWindowEntry>,
    entries: Map<Seq<char>, FixedWindowEntry>,
    pending: Seq<String>,
    kept: Seq<String>,
    now: nat,
)
    requires
        sifted(before, entries, pending, kept, now),
        pending.len() == 0,
    ensures
        texts(kept).no_duplicates(),
        forall|key: Seq<char>|
            {
                &&& texts(kept).contains(key) <==> #[trigger] entries.contains_key(key)
                &&& entries.contains_key(key) <==> before.contains_key(key)
                    && before[key].expires_at@ > now
                &&& entries.contains_key(key) ==> entries[key] == before[key]
            },
{
    assert(texts(pending).len() == 0);
    assert forall|key: Seq<char>|
        {
            &&& texts(kept).contains(key) <==> #[trigger] entries.contains_key(key)
            &&& entries.contains_key(key) <==> before.contains_key(key) && before[key].expires_at@
                > now
            &&& entries.contains_key(key) ==> entries[key] == before[key]
        } by {
        assert(sifted_key(before, entries, pending, kept, now, key));
    }
}

/// The fixed-window counters by key, and the list of their keys.
struct WindowTable {
    entries: StringHashMap<FixedWindowEntry>,
    keys: Vec<String>,
}

impl View for WindowTable {
    type V = Map<Seq<char>, WindowModel>;

    closed spec fn view(&self) -> Map<Seq<char>, WindowModel> {
        Map::new(
            |key: Seq<char>| self.entries@.contains_key(key),
            |key: Seq<char>| self.entries@[key]@,
        )
    }
}

impl WindowTable {
    closed spec fn wf(&self) -> bool {
        &&& texts(self.keys@).no_duplicates()
        &&& forall|key: Seq<char>|
            texts(self.keys@).contains(key) <==> #[trigger] self.entries@.contains_key(key)
    }

    fn new() -> (table: WindowTable)
        ensures
            table.wf(),
            table@ == Map::<Seq<char>, WindowModel>::empty(),
    {
        WindowTable { entries: StringHashMap::new(), keys: Vec::new() }
    }

    /// Drops the counters whose windows have closed.
    #[verifier::spinoff_prover]
    fn evict(&mut self, now: &Duration)
        requires
            old(self).wf(),
        ensures
            final(self).wf(),
            final(self)@ == open_windows(old(self)@, now@),
    {
        let mut kept: Vec<String> = Vec::new();
        let ghost before = self.entries@;
        proof {
            lemma_sift_start(before, self.keys@, kept@, now@);
        }
        while self.keys.len() > 0
            invariant
                sifted(before, self.entries@, self.keys@, kept@, now@),
            decreases self.keys@.len(),
        {
            let ghost keys = self.keys@;
            if let Some(key) = self.keys.pop() {
                proof {
                    assert(keys =~= self.keys@.push(key));
                    lemma_sift_next(before, self.entries@, self.keys@, kept@, key, now@);
                }
                let open = match self.entries.get(key.as_str()) {
                    Some(entry) => entry.expires_at.exceeds(now),
                    None => false,
                };
                if open {
                    proof {
                        lemma_sift_keep(before, self.entries@, self.keys@, kept@, key, now@);
                    }
                    kept.push(key);
                } else {
                    proof {
                        lemma_sift_drop(before, self.entries@, self.keys@, kept@, key, now@);
                    }
                    self.entries.remove(key.as_str());
                }
            }
        }
        proof {
            lemma_sift_end(before, self.entries@, self.keys@, kept@, now@);
        }
        self.keys = kept;
        assert(self@ =~= open_windows(old(self)@, now@));
    }

    /// The counter under a key.
    fn get(&self, key: &str) -> (entry: Option<FixedWindowEntry>)
        requires
            self.wf(),
        ensures
            entry is Some <==> self@.contains_key(key@),
            entry matches Some(entry) ==> entry@ == self@[key@],
    {
        match self.entries.get(key) {
            Some(entry) => Some(*entry),
            None => None,
        }
    }

    /// Puts a counter under a key.
    fn put(&mut self, key: &str, entry: FixedWindowEntry)
        requires
            old(self).wf(),
        ensures
            final(self).wf(),
            final(self)@ == old(self)@.insert(key@, entry@),
    {
        if !self.entries.contains_key(key) {
            let owned = key.to_owned();
            proof {
                lemma_texts_push(self.keys@, owned);
            }
            self.keys.push(owned);
        }
        self.entries.insert(key.to_owned(), entry);
        assert(self@ =~= old(self)@.insert(key@, entry@));
    }
}

/// What a counted request learns: times are in nanoseconds.
pub struct CountModel {
    pub current: nat,
    pub ttl: nat,
}

impl View for CounterState {
    type V = CountModel;

    open spec fn view(&self) -> CountModel {
        CountModel { current: self.current as nat, ttl: self.ttl@ }
    }
}

/// The counter under `key` once a request was counted at `now`: one more than before in a window
/// that is still open, the first of a new window of length `window` otherwise.
pub open spec fn counted(
    windows: Map<Seq<char>, WindowModel>,
    key: Seq<char>,
    window: nat,
    now: nat,
) -> WindowModel {
    if open_windows(windows, now).contains_key(key) {
        WindowModel { count: windows[key].count + 1, expires_at: windows[key].expires_at }
    } else {
        WindowModel { count: 1, expires_at: now + window }
    }
}

/// What the request that was counted at `now` learns of its counter.
pub open spec fn count_reply(counter: WindowModel, now: nat) -> CountModel {
    CountModel { current: counter.count, ttl: monus(counter.expires_at, now) }
}

/// Whether the counter under `key` can be kept once a request was counted at `now`.
pub open spec fn can_count(
    windows: Map<Seq<char>, WindowModel>,
    key: Seq<char>,
    window: nat,
    now: nat,
) -> bool {
    if open_windows(windows, now).contains_key(key) {
        windows[key].count < u64::MAX
    } else {
        now + window <= max_span()
    }
}

/// Counting a request under `key` at `now` takes a store from `pre` to `post` with the answer `r`.
pub open spec fn count_outcome(
    pre: StoreModel,
    key: Seq<char>,
    window: nat,
    now: nat,
    post: StoreModel,
    r: Result<CounterState, StoreError>,
) -> bool {
    let counter = counted(pre.windows, key, window, now);
    if can_count(pre.windows, key, window, now) {
        &&& r matches Ok(state)
        &&& state@ == count_reply(counter, now)
        &&& post == StoreModel {
            windows: open_windows(pre.windows, now).insert(key, counter),
            buckets: pre.buckets,
        }
    } else {
        &&& r == Err::<CounterState, StoreError>(StoreError::OutOfRange)
        &&& post == pre
    }
}

/// A token bucket as the contracts see it: times are in nanoseconds.
pub struct BucketModel {
    pub tokens: nat,
    pub last_refill: nat,
}

/// A bucket that is kept in memory.
#[derive(Debug, Clone, Copy)]
struct BucketEntry {
    tokens: u64,
    last_refill: Duration,
}

impl View for BucketEntry {
    type V = BucketModel;

    closed spec fn view(&self) -> BucketModel {
        BucketModel { tokens: self.tokens as nat, last_refill: self.last_refill@ }
    }
}

/// What a request for a token learns: times are in nanoseconds.
pub struct TakeModel {
    pub allowed: bool,
    pub tokens_remaining: nat,
    pub retry_after: nat,
    pub reset_after: nat,
}

impl View for TokenBucketState {
    type V = TakeModel;

    open spec fn view(&self) -> TakeModel {
        TakeModel {
            allowed: self.allowed,
            tokens_remaining: self.tokens_remaining as nat,
            retry_after: self.retry_after@,
            reset_after: self.reset_after@,
        }
    }
}

/// The bucket under `key`: one that was never asked for a token is full.
pub open spec fn bucket_of(
    buckets: Map<Seq<char>, BucketModel>,
    key: Seq<char>,
    capacity: nat,
    now: nat,
) -> BucketModel {
    if buckets.contains_key(key) {
        buckets[key]
    } else {
        BucketModel { tokens: capacity, last_refill: now }
    }
}

/// How many whole intervals have passed since the bucket was last refilled, both times taken in
/// whole milliseconds and the interval as one millisecond at least.
pub open spec fn refill_periods(bucket: BucketModel, interval: nat, now: nat) -> nat {
    (monus(now, bucket.last_refill) / 1_000_000) / at_least(interval / 1_000_000, 1)
}

/// The tokens in the bucket once it was refilled: what `periods` intervals bring, of which count
/// 64 bits are kept, and no more than the bucket holds.
pub open spec fn refilled_tokens(
    bucket: BucketModel,
    capacity: nat,
    refill_tokens: nat,
    periods: nat,
) -> nat {
    let tokens = bucket.tokens + low_u64(periods) * refill_tokens;
    if periods == 0 {
        bucket.tokens
    } else if tokens < capacity {
        tokens
    } else {
        capacity
    }
}

/// How many refills of `refill_tokens` fill a bucket that holds `tokens`.
pub open spec fn refills_to_fill(tokens: nat, capacity: nat, refill_tokens: nat) -> nat {
    if tokens >= capacity {
        0
    } else {
        ((capacity - tokens + refill_tokens - 1) / refill_tokens as int) as nat
    }
}

/// What asking a bucket for a token takes: the refills that are due, and those that are then
/// missing until the bucket is full.
#[derive(Debug, Clone, Copy, PartialEq, Eq, Structural)]
pub struct TakePlan {
    pub refill_periods: u128,
    pub reset_steps: u64,
}

/// The plan for a token that is taken at `now`.
pub open spec fn take_plan(
    bucket: BucketModel,
    capacity: nat,
    refill_tokens: nat,
    interval: nat,
    now: nat,
) -> (nat, nat) {
    let periods = refill_periods(bucket, interval, now);
    let tokens = monus(refilled_tokens(bucket, capacity, refill_tokens, periods), 1);
    (periods, refills_to_fill(tokens, capacity, refill_tokens))
}

/// Whether the plan can be carried out: what the refills bring can be counted, and refills that
/// are missing bring something.
pub open spec fn can_plan(
    bucket: BucketModel,
    capacity: nat,
    refill_tokens: nat,
    interval: nat,
    now: nat,
) -> bool {
    let periods = refill_periods(bucket, interval, now);
    let tokens = monus(refilled_tokens(bucket, capacity, refill_tokens, periods), 1);
    &&& low_u64(periods) * refill_tokens <= u64::MAX
    &&& tokens < capacity ==> refill_tokens > 0
}

/// The bucket after a request at `now` asked it for a token, and what the request learns.
///
/// `advance` is the length of the refills that are due, `to_full` that of the refills that are
/// then missing until the bucket is full.
pub open spec fn take_token(
    bucket: BucketModel,
    capacity: nat,
    refill_tokens: nat,
    interval: nat,
    now: nat,
    advance: nat,
    to_full: nat,
) -> (BucketModel, TakeModel) {
    let periods = refill_periods(bucket, interval, now);
    let refilled = refilled_tokens(bucket, capacity, refill_tokens, periods);
    let last_refill = if periods == 0 {
        bucket.last_refill
    } else {
        bucket.last_refill + advance
    };
    let allowed = refilled >= 1;
    let tokens = monus(refilled, 1);
    let since_refill = monus(now, last_refill);
    (
        BucketModel { tokens, last_refill },
        TakeModel {
            allowed,
            tokens_remaining: tokens,
            retry_after: if allowed {
                0
            } else {
                monus(interval, since_refill)
            },
            reset_after: if tokens >= capacity {
                0
            } else {
                monus(to_full, since_refill)
            },
        },
    )
}

/// The bucket after a request at `now` asked it for a token, and what the request learns, where
/// every refill is one interval long.
pub open spec fn exact_take(
    bucket: BucketModel,
    capacity: nat,
    refill_tokens: nat,
    interval: nat,
    now: nat,
) -> (BucketModel, TakeModel) {
    let plan = take_plan(bucket, capacity, refill_tokens, interval, now);
    take_token(
        bucket,
        capacity,
        refill_tokens,
        interval,
        now,
        interval * plan.0,
        interval * plan.1,
    )
}

/// Whether a token can be taken at `now` where the refills that are due are `advance` long.
pub open spec fn can_take(
    bucket: BucketModel,
    capacity: nat,
    refill_tokens: nat,
    interval: nat,
    now: nat,
    advance: nat,
) -> bool {
    &&& can_plan(bucket, capacity, refill_tokens, interval, now)
    &&& refill_periods(bucket, interval, now) > 0 ==> bucket.last_refill + advance <= max_span()
}

/// Asking the bucket under `key` for a token at `now` takes a store from `pre` to `post` with the
/// answer `r`, where the refills that are due are `advance` long and those that are then missing
/// `to_full`.
pub open spec fn take_outcome(
    pre: StoreModel,
    key: Seq<char>,
    capacity: nat,
    refill_tokens: nat,
    interval: nat,
    now: nat,
    advance: nat,
    to_full: nat,
    post: StoreModel,
    r: Result<TokenBucketState, StoreError>,
) -> bool {
    let bucket = bucket_of(pre.buckets, key, capacity, now);
    let step = take_token(bucket, capacity, refill_tokens, interval, now, advance, to_full);
    if can_take(bucket, capacity, refill_tokens, interval, now, advance) {
        &&& r matches Ok(state)
        &&& state@ == step.1
        &&& post == StoreModel { windows: pre.windows, buckets: pre.buckets.insert(key, step.0) }
    } else {
        &&& r == Err::<TokenBucketState, StoreError>(StoreError::OutOfRange)
        &&& post == pre
    }
}

/// Asking the bucket under `key` for a token at `now` takes a store from `pre` to `post` with the
/// answer `r`, where every refill is one interval long.
pub open spec fn exact_take_outcome(
    pre: StoreModel,
    key: Seq<char>,
    capacity: nat,
    refill_tokens: nat,
    interval: nat,
    now: nat,
    post: StoreModel,
    r: Result<TokenBucketState, StoreError>,
) -> bool {
    let bucket = bucket_of(pre.buckets, key, capacity, now);
    let plan = take_plan(bucket, capacity, refill_tokens, interval, now);
    let step = exact_take(bucket, capacity, refill_tokens, interval, now);
    if can_take(bucket, capacity, refill_tokens, interval, now, interval * plan.0) && interval
        * plan.1 <= max_span() {
        &&& r matches Ok(state)
        &&& state@ == step.1
        &&& post == StoreModel { windows: pre.windows, buckets: pre.buckets.insert(key, step.0) }
    } else {
        &&& r == Err::<TokenBucketState, StoreError>(StoreError::OutOfRange)
        &&& post == pre
    }
}

/// A store as the contracts see it.
#[verifier::ext_equal]
pub struct StoreModel {
    pub windows: Map<Seq<char>, WindowModel>,
    pub buckets: Map<Seq<char>, BucketModel>,
}

/// A store that keeps its counters and buckets in memory.
pub struct InMemoryCounterStore {
    clock: Clock,
    fixed_windows: WindowTable,
    buckets: StringHashMap<BucketEntry>,
}

impl View for InMemoryCounterStore {
    type V = StoreModel;

    closed spec fn view(&self) -> StoreModel {
        StoreModel {
            windows: self.fixed_windows@,
            buckets: Map::new(
                |key: Seq<char>| self.buckets@.contains_key(key),
                |key: Seq<char>| self.buckets@[key]@,
            ),
        }
    }
}

impl InMemoryCounterStore {
    /// An empty store.
    pub fn new() -> (store: InMemoryCounterStore)
        ensures
            RateLimitStore::valid(&store),
            store@.windows == Map::<Seq<char>, WindowModel>::empty(),
            store@.buckets == Map::<Seq<char>, BucketModel>::empty(),
    {
        InMemoryCounterStore {
            clock: Clock::start(),
            fixed_windows: WindowTable::new(),
            buckets: StringHashMap::new(),
        }
    }

    /// The clock that the store's operations go by.
    pub closed spec fn time_source(&self) -> Clock {
        self.clock
    }

    /// How long the store has existed, which is the time that its operations go by: what its clock
    /// shows.
    pub fn now(&self) -> (d: Duration)
        ensures
            self.time_source().shows(d@),
            d@ <= max_span(),
    {
        self.clock.now()
    }

    /// Counts a request under `key` at `now`, in the window that is open or in a new one of length
    /// `window`. Counters whose windows have closed are dropped.
    pub fn increment_fixed_window_at(&mut self, key: &str, window: Duration, now: Duration) -> (r:
        Result<CounterState, StoreError>)
        requires
            RateLimitStore::valid(old(self)),
        ensures
            RateLimitStore::valid(final(self)),
            final(self).time_source() == old(self).time_source(),
            count_outcome(old(self)@, key@, window@, now@, final(self)@, r),
    {
        let entry = match self.fixed_windows.get(key) {
            Some(entry) if entry.expires_at.exceeds(&now) => {
                if entry.count == u64::MAX {
                    return Err(StoreError::OutOfRange);
                }
                FixedWindowEntry { count: entry.count + 1, expires_at: entry.expires_at }
            },
            _ => match now.checked_add(window) {
                Some(expires_at) => FixedWindowEntry { count: 1, expires_at },
                None => {
                    return Err(StoreError::OutOfRange);
                },
            },
        };
        self.fixed_windows.evict(&now);
        self.fixed_windows.put(key, entry);
        Ok(CounterState { current: entry.count, ttl: entry.expires_at.saturating_sub(now) })
    }

    /// The bucket under `key`.
    fn bucket(&self, key: &str, capacity: u64, now: Duration) -> (bucket: BucketEntry)
        ensures
            bucket@ == bucket_of(self@.buckets, key@, capacity as nat, now@),
    {
        match self.buckets.get(key) {
            Some(bucket) => *bucket,
            None => BucketEntry { tokens: capacity, last_refill: now },
        }
    }

    /// The plan for a token that is taken from the bucket under `key` at `now`, if it can be
    /// carried out.
    pub fn plan_take(
        &self,
        key: &str,
        capacity: u64,
        refill_tokens: u64,
        refill_interval: Duration,
        now: Duration,
    ) -> (plan: Result<TakePlan, StoreError>)
        ensures
            ({
                let bucket = bucket_of(self@.buckets, key@, capacity as nat, now@);
                &&& plan is Ok <==> can_plan(
                    bucket,
                    capacity as nat,
                    refill_tokens as nat,
                    refill_interval@,
                    now@,
                )
                &&& plan matches Ok(plan) ==> (
                    plan.refill_periods as nat,
                    plan.reset_steps as nat,
                ) == take_plan(
                    bucket,
                    capacity as nat,
                    refill_tokens as nat,
                    refill_interval@,
                    now@,
                )
                &&& plan matches Err(error) ==> error == StoreError::OutOfRange
            }),
    {
        let bucket = self.bucket(key, capacity, now);
        let periods = bucket.due_refills(refill_interval, now);
        let tokens = match bucket.refilled(capacity, refill_tokens, periods) {
            Some(tokens) => tokens,
            None => {
                return Err(StoreError::OutOfRange);
            },
        };
        let left: u64 = if tokens >= 1 {
            tokens - 1
        } else {
            0
        };
        if left >= capacity {
            Ok(TakePlan { refill_periods: periods, reset_steps: 0 })
        } else if refill_tokens == 0 {
            Err(StoreError::OutOfRange)
        } else {
            let missing: u128 = (capacity - left) as u128;
            let steps: u128 = (missing + refill_tokens as u128 - 1) / refill_tokens as u128;
            proof {
                lemma_ceil_bounded(missing as int, refill_tokens as int);
            }
            Ok(TakePlan { refill_periods: periods, reset_steps: steps as u64 })
        }
    }

    /// Asks the bucket under `key` for a token at `now`.
    ///
    /// `advance` is the length of the refills that the plan says are due, `to_full` that of the
    /// refills that it says are then missing.
    pub fn take_token_at(
        &mut self,
        key: &str,
        capacity: u64,
        refill_tokens: u64,
        refill_interval: Duration,
        now: Duration,
        advance: Duration,
        to_full: Duration,
    ) -> (r: Result<TokenBucketState, StoreError>)
        requires
            RateLimitStore::valid(old(self)),
        ensures
            RateLimitStore::valid(final(self)),
            final(self).time_source() == old(self).time_source(),
            take_outcome(
                old(self)@,
                key@,
                capacity as nat,
                refill_tokens as nat,
                refill_interval@,
                now@,
                advance@,
                to_full@,
                final(self)@,
                r,
            ),
    {
        let bucket = self.bucket(key, capacity, now);
        let periods = bucket.due_refills(refill_interval, now);
        let tokens: u64 = match bucket.refilled(capacity, refill_tokens, periods) {
            Some(tokens) => tokens,
            None => {
                return Err(StoreError::OutOfRange);
            },
        };
        let last_refill = if periods > 0 {
            match bucket.last_refill.checked_add(advance) {
                Some(last_refill) => last_refill,
                None => {
                    return Err(StoreError::OutOfRange);
                },
            }
        } else {
            bucket.last_refill
        };
        let allowed = tokens >= 1;
        let left: u64 = if allowed {
            tokens - 1
        } else {
            tokens
        };
        if left < capacity && refill_tokens == 0 {
            return Err(StoreError::OutOfRange);
        }
        let since_refill = now.saturating_sub(last_refill);
        let retry_after = if allowed {
            Duration::from_secs(0)
        } else {
            refill_interval.saturating_sub(since_refill)
        };
        let reset_after = if left >= capacity {
            Duration::from_secs(0)
        } else {
            to_full.saturating_sub(since_refill)
        };
        let ghost before = self@.buckets;
        let entry = BucketEntry { tokens: left, last_refill };
        self.buckets.insert(key.to_owned(), entry);
        assert(self@.buckets =~= before.insert(key@, entry@));
        Ok(TokenBucketState { allowed, tokens_remaining: left, retry_after, reset_after })
    }

    /// Asks the bucket under `key` for a token at `now`, where every refill is one interval long.
    pub fn take_token_from_bucket_at(
        &mut self,
        key: &str,
        capacity: u64,
        refill_tokens: u64,
        refill_interval: Duration,
        now: Duration,
    ) -> (r: Result<TokenBucketState, StoreError>)
        requires
            RateLimitStore::valid(old(self)),
        ensures
            RateLimitStore::valid(final(self)),
            final(self).time_source() == old(self).time_source(),
            exact_take_outcome(
                old(self)@,
                key@,
                capacity as nat,
                refill_tokens as nat,
                refill_interval@,
                now@,
                final(self)@,
                r,
            ),
    {
        let plan = match self.plan_take(key, capacity, refill_tokens, refill_interval, now) {
            Ok(plan) => plan,
            Err(_) => {
                return Err(StoreError::OutOfRange);
            },
        };
        let advance = match refill_interval.checked_mul(plan.refill_periods) {
            Some(advance) => advance,
            None => {
                assert(refill_interval@ * 0 == 0) by (nonlinear_arith);
                return Err(StoreError::OutOfRange);
            },
        };
        let to_full = match refill_interval.checked_mul(plan.reset_steps as u128) {
            Some(to_full) => to_full,
            None => {
                return Err(StoreError::OutOfRange);
            },
        };
        self.take_token_at(
            key,
            capacity,
            refill_tokens,
            refill_interval,
            now,
            advance,
            to_full,
        )
    }
}

impl Default for InMemoryCounterStore {
    fn default() -> (store: InMemoryCounterStore)
        ensures
            RateLimitStore::valid(&store),
            store@.windows == Map::<Seq<char>, WindowModel>::empty(),
            store@.buckets == Map::<Seq<char>, BucketModel>::empty(),
    {
        InMemoryCounterStore::new()
    }
}

/// The store goes by its own clock, which no operation sets: each falls at some moment `now` that
/// the clock shows.
impl RateLimitStore for InMemoryCounterStore {
    closed spec fn valid(&self) -> bool {
        self.fixed_windows.wf()
    }

    open spec fn may_count(
        pre: Self,
        key: Seq<char>,
        window: Duration,
        post: Self,
        r: Result<CounterState, StoreError>,
    ) -> bool {
        &&& post.time_source() == pre.time_source()
        &&& exists|now: nat|
            {
                &&& pre.time_source().shows(now)
                &&& now <= max_span()
                &&& #[trigger] count_outcome(pre@, key, window@, now, post@, r)
            }
    }

    open spec fn may_take(
        pre: Self,
        key: Seq<char>,
        capacity: u64,
        refill_tokens: u64,
        refill_interval: Duration,
        post: Self,
        r: Result<TokenBucketState, StoreError>,
    ) -> bool {
        &&& post.time_source() == pre.time_source()
        &&& exists|now: nat|
            {
                &&& pre.time_source().shows(now)
                &&& now <= max_span()
                &&& #[trigger] exact_take_outcome(
                    pre@,
                    key,
                    capacity as nat,
                    refill_tokens as nat,
                    refill_interval@,
                    now,
                    post@,
                    r,
                )
            }
    }

    fn increment_fixed_window(&mut self, key: &str, window: Duration) -> (r: Result<
        CounterState,
        StoreError,
    >) {
        let now = self.now();
        self.increment_fixed_window_at(key, window, now)
    }

    fn take_token_from_bucket(
        &mut self,
        key: &str,
        capacity: u64,
        refill_tokens: u64,
        refill_interval: Duration,
    ) -> (r: Result<TokenBucketState, StoreError>) {
        let now = self.now();
        self.take_token_from_bucket_at(key, capacity, refill_tokens, refill_interval, now)
    }
}

impl BucketEntry {
    /// How many whole intervals have passed since the last refill.
    fn due_refills(&self, interval: Duration, now: Duration) -> (periods: u128)
        ensures
            periods == refill_periods(self@, interval@, now@),
    {
        let elapsed: u128 = now.saturating_sub(self.last_refill).as_millis();
        let millis: u128 = interval.as_millis();
        let length: u128 = if millis < 1 {
            1
        } else {
            millis
        };
        elapsed / length
    }

    /// The tokens once `periods` refills were made, if what they bring can be counted.
    fn refilled(&self, capacity: u64, refill_tokens: u64, periods: u128) -> (tokens: Option<u64>)
        ensures
            tokens is Some <==> low_u64(periods as nat) * refill_tokens <= u64::MAX,
            tokens matches Some(tokens) ==> tokens == refilled_tokens(
                self@,
                capacity as nat,
                refill_tokens as nat,
                periods as nat,
            ),
    {
        if periods == 0 {
            assert(0 * refill_tokens == 0) by (nonlinear_arith);
            return Some(self.tokens);
        }
        match to_low_u64(periods).checked_mul(refill_tokens) {
            Some(replenished) => {
                let tokens: u64 = self.tokens.saturating_add(replenished);
                if tokens < capacity {
                    Some(tokens)
                } else {
                    Some(capacity)
                }
            },
            None => None,
        }
    }
}

/// Rounding a quotient up does not exceed the dividend.
proof fn lemma_ceil_bounded(n: int, d: int)
    requires
        n > 0,
        d > 0,
    ensures
        0 < (n + d - 1) / d <= n,
{
    assert(0 < (n + d - 1) / d <= n) by (nonlinear_arith)
        requires
            n > 0,
            d > 0,
    ;
}

} // verus!
