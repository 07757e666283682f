# rate_limiter_sdi

A rate limiter for web services, with its logic verified by Verus.

For each request, the service finds the first rule that applies to the request's method and path,
holds the client's address against the rule's limit, and serves the request or answers it with
`429 Too Many Requests`. Either way the client is told of its limit in four headers:
`x-ratelimit-limit`, `x-ratelimit-remaining`, `x-ratelimit-retry-after` and `x-ratelimit-reset`.

Rules limit requests in one of two ways:

- `fixed_window`: so many requests in each window of time;
- `token_bucket`: a token for each request, from a bucket that is refilled at regular intervals.

A rule may have requests over its limit queued as short descriptions. Where the store of counters
and buckets fails, requests are served all the same, and a warning is logged.

## Layout

- `src/` is the verified library.
  - `config`: rules, which requests they apply to, and when they make sense
  - `store`: counters and token buckets, and the store that keeps them in memory
  - `limiter`: from a request, by way of a store and a queue, to what becomes of it
  - `queue`: descriptions of requests over their limits, and queues for them in memory
  - `middleware`: what a service answers, and the headers that it sets
  - `laws`: what holds of all of these together, proved
  - `runs`: what holds of whole runs of requests, proved
  - `text`, `time`: what the rest needs of text and of spans of time
- `tests/` runs the library.
- `app/` is the demo service: YAML files, Redis, the web server and its middleware.

## What the proofs rest on

Three things are taken as given: what the sources of `actix-web` and of the `http` crate under it
show of header names, header values and header maps; that the clocks of the standard library can be
read; and what Verus's own library says of the standard library's strings, vectors and hash maps.

The store in memory takes the length of several refills as the exact multiple of the interval. Its
operation `take_token_at` takes these lengths as arguments instead, and its contract holds for all
of them.

## Configuration

```yaml
queue_key: "ratelimiter:throttled"
rules:
  - name: "login-per-ip"
    path: "/login"
    methods: ["POST"]
    algorithm:
      type: "fixed_window"
      requests_per_window: 5
      window: 60
    behavior: "queue"
  - name: "status-per-ip"
    path: "/status"
    methods: ["GET"]
    algorithm:
      type: "token_bucket"
      capacity: 30
      refill_tokens: 5
      refill_interval: 10
    behavior: "block"
```

Times are in seconds. A rule without a path applies to every path, one without methods to every
method. A rule that names no behavior blocks, and a configuration that names no queue uses
`ratelimiter:throttled`.
