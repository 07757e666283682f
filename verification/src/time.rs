//! Spans of time and the clocks that measure them.

use std::time::Instant;
use vstd::prelude::*;

verus! {

/// The longest span, in nanoseconds: `u64::MAX` whole seconds and one nanosecond short of another.
pub open spec fn max_span() -> nat {
    (u64::MAX * 1_000_000_000 + (1_000_000_000 - 1)) as nat
}

/// The larger of two numbers.
pub open spec fn at_least(n: nat, floor: nat) -> nat {
    if n < floor {
        floor
    } else {
        n
    }
}

/// `a - b`, or zero where `b` is larger.
pub open spec fn monus(a: nat, b: nat) -> nat {
    if a < b {
        0
    } else {
        (a - b) as nat
    }
}

/// A span of time: whole seconds and the nanoseconds that are left over.
///
/// Its view is its length in nanoseconds.
#[derive(Debug, Clone, Copy, PartialEq, Eq, PartialOrd, Ord, Structural)]
pub struct Duration {
    secs: u64,
    nanos: u32,
}

impl View for Duration {
    type V = nat;

    closed spec fn view(&self) -> nat {
        (self.secs * 1_000_000_000 + self.nanos) as nat
    }
}

impl Duration {
    #[verifier::type_invariant]
    closed spec fn inv(self) -> bool {
        self.nanos < 1_000_000_000
    }

    /// The span of `secs` seconds and `nanos` nanoseconds.
    pub fn new(secs: u64, nanos: u32) -> (d: Duration)
        requires
            nanos < 1_000_000_000,
        ensures
            d@ == secs * 1_000_000_000 + nanos,
    {
        Duration { secs, nanos }
    }

    /// The span of `secs` seconds.
    pub fn from_secs(secs: u64) -> (d: Duration)
        ensures
            d@ == secs * 1_000_000_000,
    {
        Duration { secs, nanos: 0 }
    }

    /// The span of `millis` milliseconds.
    pub fn from_millis(millis: u64) -> (d: Duration)
        ensures
            d@ == millis * 1_000_000,
    {
        Duration { secs: millis / 1000, nanos: ((millis % 1000) as u32) * 1_000_000 }
    }

    /// The span of `nanos` nanoseconds, if it is not longer than the longest span.
    pub fn from_nanos(nanos: u128) -> (d: Option<Duration>)
        ensures
            d is Some <==> nanos <= max_span(),
            d matches Some(d) ==> d@ == nanos,
    {
        let secs: u128 = nanos / 1_000_000_000;
        let rest: u128 = nanos % 1_000_000_000;
        if secs <= u64::MAX as u128 {
            Some(Duration { secs: secs as u64, nanos: rest as u32 })
        } else {
            None
        }
    }

    /// The length in nanoseconds.
    pub fn as_nanos(&self) -> (n: u128)
        ensures
            n == self@,
            n <= max_span(),
    {
        proof {
            use_type_invariant(self);
        }
        self.secs as u128 * 1_000_000_000 + self.nanos as u128
    }

    /// The whole milliseconds in the span.
    pub fn as_millis(&self) -> (n: u128)
        ensures
            n == self@ / 1_000_000,
    {
        proof {
            use_type_invariant(self);
        }
        self.secs as u128 * 1000 + (self.nanos / 1_000_000) as u128
    }

    /// The whole seconds in the span.
    pub fn as_secs(&self) -> (n: u64)
        ensures
            n == self@ / 1_000_000_000,
    {
        proof {
            use_type_invariant(self);
        }
        self.secs
    }

    /// The nanoseconds beyond the whole seconds.
    pub fn subsec_nanos(&self) -> (n: u32)
        ensures
            n == self@ % 1_000_000_000,
    {
        proof {
            use_type_invariant(self);
        }
        self.nanos
    }

    /// Whether the span is empty.
    pub fn is_zero(&self) -> (b: bool)
        ensures
            b == (self@ == 0),
    {
        self.secs == 0 && self.nanos == 0
    }

    /// Whether the span is longer than `other`.
    pub fn exceeds(&self, other: &Duration) -> (b: bool)
        ensures
            b == (self@ > other@),
    {
        self.as_nanos() > other.as_nanos()
    }

    /// The sum, if it is not longer than the longest span.
    pub fn checked_add(&self, other: Duration) -> (d: Option<Duration>)
        ensures
            d is Some <==> self@ + other@ <= max_span(),
            d matches Some(d) ==> d@ == self@ + other@,
    {
        Duration::from_nanos(self.as_nanos() + other.as_nanos())
    }

    /// The span `times` times over, if it is not longer than the longest span.
    pub fn checked_mul(&self, times: u128) -> (d: Option<Duration>)
        ensures
            d is Some <==> self@ * times <= max_span(),
            d matches Some(d) ==> d@ == self@ * times,
    {
        match self.as_nanos().checked_mul(times) {
            Some(nanos) => Duration::from_nanos(nanos),
            None => None,
        }
    }

    /// The difference, or the empty span where `other` is longer.
    pub fn saturating_sub(&self, other: Duration) -> (d: Duration)
        ensures
            d@ == monus(self@, other@),
    {
        let a: u128 = self.as_nanos();
        let b: u128 = other.as_nanos();
        if a < b {
            Duration::from_secs(0)
        } else {
            match Duration::from_nanos(a - b) {
                Some(d) => d,
                None => Duration::from_secs(0),
            }
        }
    }
}

/// The low 64 bits of a number.
pub open spec fn low_u64(n: nat) -> nat {
    n % 0x1_0000_0000_0000_0000
}

/// The low 64 bits of the number.
pub fn to_low_u64(n: u128) -> (low: u64)
    ensures
        low == low_u64(n as nat),
{
    (n % 0x1_0000_0000_0000_0000) as u64
}

/// The whole milliseconds in the span, of which 64 bits are kept.
pub fn millis_u64(d: &Duration) -> (n: u64)
    ensures
        n == low_u64(d@ / 1_000_000),
{
    to_low_u64(d.as_millis())
}

/// `std::time::Instant`: a reading of the monotonic clock.
#[verifier::external_type_specification]
#[verifier::external_body]
pub struct ExInstant(Instant);

/// `std::time::Instant::now`, the present reading of the monotonic clock, of which nothing is
/// claimed.
pub assume_specification[ Instant::now ]() -> Instant;

/// `std::time::Instant::elapsed`, the time that has passed since the reading `origin`, as whole
/// seconds and the nanoseconds beyond them. Nothing is claimed of it but that the nanoseconds make
/// less than a second.
#[verifier::external_body]
fn elapsed_since(origin: &Instant) -> (t: (u64, u32))
    ensures
        t.1 < 1_000_000_000,
{
    let elapsed = origin.elapsed();
    (elapsed.as_secs(), elapsed.subsec_nanos())
}

/// `std::time::SystemTime::elapsed` of the Unix epoch, as whole seconds and the nanoseconds beyond
/// them, or `None` where the system clock stands before the epoch. Nothing is claimed of it but
/// that the nanoseconds make less than a second.
#[verifier::external_body]
fn elapsed_since_unix_epoch() -> (t: Option<(u64, u32)>)
    ensures
        t matches Some(t) ==> t.1 < 1_000_000_000,
{
    match std::time::UNIX_EPOCH.elapsed() {
        Ok(elapsed) => Some((elapsed.as_secs(), elapsed.subsec_nanos())),
        Err(_) => None,
    }
}

/// A clock that starts when it is made and goes by the monotonic clock.
pub struct Clock {
    origin: Instant,
}

impl Clock {
    /// A clock that starts now.
    pub fn start() -> Clock {
        Clock { origin: Instant::now() }
    }

    /// Whether the clock can show that it has run for so many nanoseconds: this much is what reading
    /// the monotonic clock gave. Which readings these are is not stated.
    pub closed spec fn shows(&self, span: nat) -> bool {
        exists|reading: (u64, u32)|
            {
                &&& #[trigger] call_ensures(elapsed_since, (&self.origin,), reading)
                &&& span == reading.0 * 1_000_000_000 + reading.1
            }
    }

    /// How long the clock has run: what it shows, which is a span and so not longer than the longest
    /// one.
    pub fn now(&self) -> (d: Duration)
        ensures
            self.shows(d@),
            d@ <= max_span(),
    {
        let (secs, nanos) = elapsed_since(&self.origin);
        assert(call_ensures(elapsed_since, (&self.origin,), (secs, nanos)));
        Duration::new(secs, nanos)
    }
}

/// The span from the Unix epoch to a reading of the system clock: none where the clock stands
/// before the epoch.
pub fn unix_span(reading: Option<(u64, u32)>) -> (d: Duration)
    requires
        reading matches Some(t) ==> t.1 < 1_000_000_000,
    ensures
        d@ == (match reading {
            Some(t) => (t.0 * 1_000_000_000 + t.1) as nat,
            None => 0,
        }),
{
    match reading {
        Some((secs, nanos)) => Duration::new(secs, nanos),
        None => Duration::from_secs(0),
    }
}

/// Whether the system clock can show the reading: whole seconds since the Unix epoch and the
/// nanoseconds beyond them, or `None` where it stands before the epoch. Which readings these are is
/// not stated.
pub closed spec fn system_clock_shows(reading: Option<(u64, u32)>) -> bool {
    call_ensures(elapsed_since_unix_epoch, (), reading)
}

/// Whether the system clock can show the number of whole seconds since the Unix epoch: none where it
/// stands before the epoch.
pub open spec fn is_unix_second(n: u64) -> bool {
    exists|reading: Option<(u64, u32)>|
        {
            &&& #[trigger] system_clock_shows(reading)
            &&& n == match reading {
                Some(t) => t.0,
                None => 0,
            }
        }
}

/// The whole seconds since the Unix epoch, by the system clock.
pub fn unix_timestamp_seconds() -> (n: u64)
    ensures
        is_unix_second(n),
{
    let reading = elapsed_since_unix_epoch();
    assert(system_clock_shows(reading));
    unix_span(reading).as_secs()
}

/// The whole milliseconds since the Unix epoch, by the system clock, of which 64 bits are kept.
pub fn unix_timestamp_millis() -> (n: u64)
    ensures
        exists|reading: Option<(u64, u32)>|
            {
                &&& #[trigger] system_clock_shows(reading)
                &&& n == match reading {
                    Some(t) => low_u64((t.0 * 1000 + t.1 / 1_000_000) as nat),
                    None => 0,
                }
            },
{
    let reading = elapsed_since_unix_epoch();
    assert(system_clock_shows(reading));
    millis_u64(&unix_span(reading))
}

/// The span of `milliseconds` milliseconds; none where the number is negative.
pub fn duration_from_millis(milliseconds: i64) -> (d: Duration)
    ensures
        d@ == (if milliseconds < 0 {
            0
        } else {
            milliseconds * 1_000_000
        }),
{
    if milliseconds < 0 {
        Duration::from_millis(0)
    } else {
        Duration::from_millis(milliseconds as u64)
    }
}

} // verus!
