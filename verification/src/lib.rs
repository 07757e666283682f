//! Rate limiting for web services: rules for requests, fixed windows and token buckets that they
//! are held against, and queues for the requests that are over their limits.
//!
//! What each operation is for is stated in plain terms in [`promises`]. The laws that hold of all of
//! them together are proved in [`laws`] and, of whole runs of requests, in [`runs`].

pub mod config;
pub mod laws;
pub mod limiter;
pub mod middleware;
pub mod promises;
pub mod queue;
pub mod runs;
pub mod store;
pub mod text;
pub mod time;

pub use config::{
    ConfigError, RateLimitAlgorithm, RateLimitBehavior, RateLimitConfig, RateLimitRule,
};
pub use limiter::{
    AllowedResponse, EnforcementResult, LimiterError, QueueDisposition, RateLimitHeaders,
    RateLimiter, ThrottledResponse,
};
pub use queue::{
    InMemoryThrottledRequestQueue, QueueError, ThrottledRequest, ThrottledRequestQueue,
};
pub use store::{
    CounterState, InMemoryCounterStore, RateLimitStore, StoreError, TokenBucketState,
};
pub use time::Duration;
