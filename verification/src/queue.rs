//! Queues for descriptions of requests that were over a limit.

use crate::time::{is_unix_second, unix_timestamp_seconds};
use vstd::prelude::*;

verus! {

/// The description of a request that was over a limit.
#[derive(Debug, Clone, PartialEq, Eq)]
pub struct ThrottledRequest {
    pub rule_name: String,
    pub ip_address: String,
    pub method: String,
    pub path: String,
    pub queued_at_unix_seconds: u64,
    pub retry_after_seconds: u64,
}

impl ThrottledRequest {
    /// Whether the description says that a request from `ip_address`, with the method and the path,
    /// was over the limit of the rule of that name at `now` and may be made again after
    /// `retry_after_seconds`.
    pub open spec fn says(
        &self,
        rule_name: Seq<char>,
        ip_address: Seq<char>,
        method: Seq<char>,
        path: Seq<char>,
        now: u64,
        retry_after_seconds: u64,
    ) -> bool {
        &&& self.rule_name@ == rule_name
        &&& self.ip_address@ == ip_address
        &&& self.method@ == method
        &&& self.path@ == path
        &&& self.queued_at_unix_seconds == now
        &&& self.retry_after_seconds == retry_after_seconds
    }

    /// The description of a request that was over a limit at `now`, in seconds since the Unix
    /// epoch.
    pub fn queued_at(
        rule_name: String,
        ip_address: String,
        method: String,
        path: String,
        now: u64,
        retry_after_seconds: u64,
    ) -> (request: ThrottledRequest)
        ensures
            request.says(rule_name@, ip_address@, method@, path@, now, retry_after_seconds),
    {
        ThrottledRequest {
            rule_name,
            ip_address,
            method,
            path,
            queued_at_unix_seconds: now,
            retry_after_seconds,
        }
    }

    /// The description of a request that is over a limit now, by the system clock.
    pub fn new(
        rule_name: String,
        ip_address: String,
        method: String,
        path: String,
        retry_after_seconds: u64,
    ) -> (request: ThrottledRequest)
        ensures
            exists|now: u64|
                {
                    &&& is_unix_second(now)
                    &&& #[trigger] request.says(
                        rule_name@,
                        ip_address@,
                        method@,
                        path@,
                        now,
                        retry_after_seconds,
                    )
                },
    {
        let now = unix_timestamp_seconds();
        ThrottledRequest::queued_at(rule_name, ip_address, method, path, now, retry_after_seconds)
    }
}

/// Why a description could not be queued.
#[derive(Debug, PartialEq, Eq)]
pub enum QueueError {
    /// The Redis server, or the way to it, failed, for the reason given.
    Redis(String),
    /// The description could not be written down, for the reason given.
    Serialize(String),
}

impl QueueError {
    /// The error in words.
    pub open spec fn text(&self) -> Seq<char> {
        match self {
            QueueError::Redis(reason) => "redis queue error: "@ + reason@,
            QueueError::Serialize(reason) => "failed to serialize queued request: "@ + reason@,
        }
    }

    /// The error in words.
    pub fn message(&self) -> (s: String)
        ensures
            s@ == self.text(),
    {
        match self {
            QueueError::Redis(reason) => {
                let mut s = "redis queue error: ".to_owned();
                s.append(reason.as_str());
                s
            },
            QueueError::Serialize(reason) => {
                let mut s = "failed to serialize queued request: ".to_owned();
                s.append(reason.as_str());
                s
            },
        }
    }
}

/// A place where descriptions of throttled requests are queued.
pub trait ThrottledRequestQueue: Sized {
    /// Whether putting `request` into the queue of that name can take the place from `pre` to
    /// `post` with the answer `r`.
    spec fn may_enqueue(
        pre: Self,
        queue_key: Seq<char>,
        request: ThrottledRequest,
        post: Self,
        r: Result<(), QueueError>,
    ) -> bool;

    /// Puts `request` at the end of the queue of that name.
    fn enqueue(&mut self, queue_key: &str, request: ThrottledRequest) -> (r: Result<
        (),
        QueueError,
    >)
        ensures
            Self::may_enqueue(*old(self), queue_key@, request, *final(self), r),
    ;
}

/// Queues in memory: every description with the name of its queue, the oldest first.
#[derive(Debug)]
pub struct InMemoryThrottledRequestQueue {
    entries: Vec<(String, ThrottledRequest)>,
}

impl View for InMemoryThrottledRequestQueue {
    type V = Seq<(Seq<char>, ThrottledRequest)>;

    closed spec fn view(&self) -> Seq<(Seq<char>, ThrottledRequest)> {
        self.entries@.map_values(|entry: (String, ThrottledRequest)| (entry.0@, entry.1))
    }
}

impl InMemoryThrottledRequestQueue {
    /// Empty queues.
    pub fn new() -> (queue: InMemoryThrottledRequestQueue)
        ensures
            queue@ == Seq::<(Seq<char>, ThrottledRequest)>::empty(),
    {
        let queue = InMemoryThrottledRequestQueue { entries: Vec::new() };
        assert(queue@ =~= Seq::<(Seq<char>, ThrottledRequest)>::empty());
        queue
    }

    /// How many descriptions are queued.
    pub fn len(&self) -> (n: usize)
        ensures
            n == self@.len(),
    {
        self.entries.len()
    }

    /// Whether no description is queued.
    pub fn is_empty(&self) -> (b: bool)
        ensures
            b == (self@.len() == 0),
    {
        self.entries.len() == 0
    }

    /// The description at index `i`, counted from the oldest, with the name of its queue.
    pub fn get(&self, i: usize) -> (entry: Option<(&str, &ThrottledRequest)>)
        ensures
            entry is Some <==> i < self@.len(),
            entry matches Some((queue_key, request)) ==> (queue_key@, *request) == self@[i as int],
    {
        if i < self.entries.len() {
            let entry = &self.entries[i];
            Some((entry.0.as_str(), &entry.1))
        } else {
            None
        }
    }
}

impl Default for InMemoryThrottledRequestQueue {
    fn default() -> (queue: InMemoryThrottledRequestQueue)
        ensures
            queue@ == Seq::<(Seq<char>, ThrottledRequest)>::empty(),
    {
        InMemoryThrottledRequestQueue::new()
    }
}

/// Queues in memory take every description.
impl ThrottledRequestQueue for InMemoryThrottledRequestQueue {
    open spec fn may_enqueue(
        pre: Self,
        queue_key: Seq<char>,
        request: ThrottledRequest,
        post: Self,
        r: Result<(), QueueError>,
    ) -> bool {
        &&& r is Ok
        &&& post@ == pre@.push((queue_key, request))
    }

    fn enqueue(&mut self, queue_key: &str, request: ThrottledRequest) -> (r: Result<
        (),
        QueueError,
    >) {
        let ghost before = self@;
        self.entries.push((queue_key.to_owned(), request));
        assert(self@ =~= before.push((queue_key@, request)));
        Ok(())
    }
}

} // verus!
