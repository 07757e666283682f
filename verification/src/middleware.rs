//! What a web service does with a request, once it was held against its limit.

use crate::limiter::{
    EnforcementResult, LimiterError, QueueDisposition, RateLimitHeaders, ThrottledResponse,
};
use crate::text::{decimal, lemma_decimal_digits, to_decimal};
use actix_web::http::header::{
    HeaderMap, HeaderName, HeaderValue, InvalidHeaderName, InvalidHeaderValue,
};
use vstd::prelude::*;
use vstd::utf8::encode_utf8;

verus! {

pub const HEADER_LIMIT: &'static str = "x-ratelimit-limit";

pub const HEADER_REMAINING: &'static str = "x-ratelimit-remaining";

pub const HEADER_RETRY_AFTER: &'static str = "x-ratelimit-retry-after";

pub const HEADER_RESET: &'static str = "x-ratelimit-reset";

/// The status of the answer to a request over its limit.
pub const TOO_MANY_REQUESTS: u16 = 429;

/// `actix_web::http::header::HeaderName`: the name of a header field.
#[verifier::external_type_specification]
#[verifier::external_body]
pub struct ExHeaderName(HeaderName);

/// `actix_web::http::header::HeaderValue`: the value of a header field.
#[verifier::external_type_specification]
#[verifier::external_body]
pub struct ExHeaderValue(HeaderValue);

/// `actix_web::http::header::HeaderMap`: header fields by name.
#[verifier::external_type_specification]
#[verifier::external_body]
pub struct ExHeaderMap(HeaderMap);

/// `actix_web::http::header::InvalidHeaderName`: bytes that name no header field.
#[verifier::external_type_specification]
#[verifier::external_body]
pub struct ExInvalidHeaderName(InvalidHeaderName);

/// `actix_web::http::header::InvalidHeaderValue`: text that is no value of a header field.
#[verifier::external_type_specification]
#[verifier::external_body]
pub struct ExInvalidHeaderValue(InvalidHeaderValue);

/// The bytes of a header name.
pub uninterp spec fn header_name_bytes(name: HeaderName) -> Seq<u8>;

/// The bytes of a header value.
pub uninterp spec fn header_value_bytes(value: HeaderValue) -> Seq<u8>;

/// The fields of a header map: for each name its values, in the order in which they were added.
pub uninterp spec fn header_fields(map: HeaderMap) -> Map<Seq<u8>, Seq<Seq<u8>>>;

/// The bytes that may stand in a lower-case header name: those of `!"#$%&'*+-.^_`, of the grave
/// accent, of `|` and `~`, and the digits and lower-case letters of ASCII.
pub open spec fn lowercase_name_byte(b: u8) -> bool {
    ||| 33 <= b <= 39
    ||| 42 <= b <= 43
    ||| 45 <= b <= 46
    ||| 48 <= b <= 57
    ||| 94 <= b <= 122
    ||| b == 124
    ||| b == 126
}

/// Whether the bytes make a lower-case header name.
pub open spec fn lowercase_name(bytes: Seq<u8>) -> bool {
    &&& 0 < bytes.len() <= 65535
    &&& forall|i: int| 0 <= i < bytes.len() ==> lowercase_name_byte(#[trigger] bytes[i])
}

/// Whether the bytes make a header value: no control byte stands in it but the tab.
pub open spec fn field_value(bytes: Seq<u8>) -> bool {
    forall|i: int|
        0 <= i < bytes.len() ==> (#[trigger] bytes[i] == 9 || 32 <= bytes[i] && bytes[i] != 127)
}

/// `HeaderName::from_lowercase` makes a header name of bytes that make a lower-case name, keeps
/// them as they are, and refuses all others.
pub assume_specification[ HeaderName::from_lowercase ](src: &[u8]) -> (r: Result<
    HeaderName,
    InvalidHeaderName,
>)
    ensures
        r is Ok <==> lowercase_name(src@),
        r matches Ok(name) ==> header_name_bytes(name) == src@,
;

/// `HeaderValue::from_str` makes a header value of text whose bytes make one, keeps them as they
/// are, and refuses all other text.
pub assume_specification[ HeaderValue::from_str ](src: &str) -> (r: Result<
    HeaderValue,
    InvalidHeaderValue,
>)
    ensures
        r is Ok <==> field_value(encode_utf8(src@)),
        r matches Ok(value) ==> header_value_bytes(value) == encode_utf8(src@),
;

/// `HeaderMap::insert` gives the field of that name the one value, whatever values it had, and
/// leaves all other fields as they are. The values that it hands back are dropped.
#[verifier::external_body]
fn insert_field(map: &mut HeaderMap, name: HeaderName, value: HeaderValue)
    ensures
        header_fields(*final(map)) == header_fields(*old(map)).insert(
            header_name_bytes(name),
            seq![header_value_bytes(value)],
        ),
{
    map.insert(name, value);
}

/// Why a header field could not be set.
#[derive(Debug, Clone, Copy, PartialEq, Eq, Structural)]
pub enum HeaderError {
    /// Its name is none.
    InvalidName,
    /// Its value is none.
    InvalidValue,
}

/// Gives the field of that name the one value.
pub fn insert_header(map: &mut HeaderMap, name: &str, value: &str) -> (r: Result<(), HeaderError>)
    ensures
        match r {
            Ok(_) => {
                &&& lowercase_name(encode_utf8(name@))
                &&& field_value(encode_utf8(value@))
                &&& header_fields(*final(map)) == header_fields(*old(map)).insert(
                    encode_utf8(name@),
                    seq![encode_utf8(value@)],
                )
            },
            Err(HeaderError::InvalidName) => {
                &&& !lowercase_name(encode_utf8(name@))
                &&& *final(map) == *old(map)
            },
            Err(HeaderError::InvalidValue) => {
                &&& lowercase_name(encode_utf8(name@))
                &&& !field_value(encode_utf8(value@))
                &&& *final(map) == *old(map)
            },
        },
{
    match HeaderName::from_lowercase(name.as_bytes()) {
        Ok(name) => match HeaderValue::from_str(value) {
            Ok(value) => {
                insert_field(map, name, value);
                Ok(())
            },
            Err(_) => Err(HeaderError::InvalidValue),
        },
        Err(_) => Err(HeaderError::InvalidName),
    }
}

/// The fields of a response with what the client is told of its limit.
pub open spec fn with_rate_limit(
    fields: Map<Seq<u8>, Seq<Seq<u8>>>,
    headers: RateLimitHeaders,
) -> Map<Seq<u8>, Seq<Seq<u8>>> {
    fields.insert(
        encode_utf8(HEADER_LIMIT@),
        seq![encode_utf8(decimal(headers.limit as nat))],
    ).insert(
        encode_utf8(HEADER_REMAINING@),
        seq![encode_utf8(decimal(headers.remaining as nat))],
    ).insert(
        encode_utf8(HEADER_RETRY_AFTER@),
        seq![encode_utf8(decimal(headers.retry_after_seconds as nat))],
    ).insert(
        encode_utf8(HEADER_RESET@),
        seq![encode_utf8(decimal(headers.reset_unix_seconds as nat))],
    )
}

/// The names of the fields are lower-case header names.
proof fn lemma_names()
    ensures
        lowercase_name(encode_utf8(HEADER_LIMIT@)),
        lowercase_name(encode_utf8(HEADER_REMAINING@)),
        lowercase_name(encode_utf8(HEADER_RETRY_AFTER@)),
        lowercase_name(encode_utf8(HEADER_RESET@)),
{
    reveal_strlit("x-ratelimit-limit");
    reveal_strlit("x-ratelimit-remaining");
    reveal_strlit("x-ratelimit-retry-after");
    reveal_strlit("x-ratelimit-reset");
    vstd::utf8::is_ascii_chars_encode_utf8(HEADER_LIMIT@);
    vstd::utf8::is_ascii_chars_encode_utf8(HEADER_REMAINING@);
    vstd::utf8::is_ascii_chars_encode_utf8(HEADER_RETRY_AFTER@);
    vstd::utf8::is_ascii_chars_encode_utf8(HEADER_RESET@);
}

/// Every decimal numeral is a header value.
proof fn lemma_numeral(n: nat)
    ensures
        field_value(encode_utf8(decimal(n))),
{
    lemma_decimal_digits(n);
    vstd::utf8::is_ascii_chars_encode_utf8(decimal(n));
}

/// Tells the client of its limit. This never fails.
pub fn insert_headers(map: &mut HeaderMap, headers: &RateLimitHeaders) -> (r: Result<
    (),
    HeaderError,
>)
    ensures
        r is Ok,
        header_fields(*final(map)) == with_rate_limit(header_fields(*old(map)), *headers),
{
    proof {
        lemma_names();
        lemma_numeral(headers.limit as nat);
        lemma_numeral(headers.remaining as nat);
        lemma_numeral(headers.retry_after_seconds as nat);
        lemma_numeral(headers.reset_unix_seconds as nat);
    }
    insert_header(map, HEADER_LIMIT, to_decimal(headers.limit).as_str())?;
    insert_header(map, HEADER_REMAINING, to_decimal(headers.remaining).as_str())?;
    insert_header(map, HEADER_RETRY_AFTER, to_decimal(headers.retry_after_seconds).as_str())?;
    insert_header(map, HEADER_RESET, to_decimal(headers.reset_unix_seconds).as_str())?;
    Ok(())
}

/// The body of the answer to a request over its limit.
#[derive(Debug, PartialEq, Eq)]
pub struct ThrottleBody {
    pub message: String,
    pub rule_name: String,
    pub queued: bool,
    pub queue_failed: bool,
    pub retry_after_seconds: u64,
}

impl ThrottleBody {
    /// Whether the body tells of the request over its limit.
    pub open spec fn tells(&self, throttled: ThrottledResponse) -> bool {
        &&& self.message@ == "request was rate limited"@
        &&& self.rule_name == throttled.rule_name
        &&& self.queued == (throttled.queue_disposition == QueueDisposition::Queued)
        &&& self.queue_failed == (throttled.queue_disposition == QueueDisposition::QueueFailed)
        &&& self.retry_after_seconds == throttled.headers.retry_after_seconds
    }
}

/// What a service does with a request.
#[derive(Debug, PartialEq, Eq)]
pub enum Action {
    /// Serves it.
    Forward,
    /// Serves it and tells the client of its limit.
    ForwardWithHeaders(RateLimitHeaders),
    /// Serves it, though it could not be held against its limit, and logs the warning.
    FailOpen(String),
    /// Answers it with the status and the body and tells the client of its limit.
    Reject { status: u16, body: ThrottleBody, headers: RateLimitHeaders },
}

impl Action {
    /// Whether the request is served.
    pub open spec fn serves(&self) -> bool {
        !(self is Reject)
    }

    /// Whether this is what a service does with a request that was held against its limit with the
    /// result, or that came from nobody known and was not.
    pub open spec fn answers(
        &self,
        checked: Option<Result<EnforcementResult, LimiterError>>,
    ) -> bool {
        match checked {
            None => self == Action::Forward,
            Some(Ok(EnforcementResult::NotConfigured)) => self == Action::Forward,
            Some(Ok(EnforcementResult::Allowed(allowed))) => self == Action::ForwardWithHeaders(
                allowed.headers,
            ),
            Some(Ok(EnforcementResult::Throttled(throttled))) => {
                &&& self matches Action::Reject { status, body, headers }
                &&& *status == TOO_MANY_REQUESTS
                &&& body.tells(throttled)
                &&& *headers == throttled.headers
            },
            Some(Err(error)) => {
                &&& self matches Action::FailOpen(warning)
                &&& warning@ == "rate limiter degraded to fail-open mode: "@ + error.text()
            },
        }
    }
}

/// What a service does with a request that was held against its limit with the result, or that
/// came from nobody known and was not.
pub fn respond(checked: Option<Result<EnforcementResult, LimiterError>>) -> (action: Action)
    ensures
        action.answers(checked),
{
    match checked {
        None => Action::Forward,
        Some(Ok(EnforcementResult::NotConfigured)) => Action::Forward,
        Some(Ok(EnforcementResult::Allowed(allowed))) => Action::ForwardWithHeaders(
            allowed.headers,
        ),
        Some(Ok(EnforcementResult::Throttled(throttled))) => {
            let body = ThrottleBody {
                message: "request was rate limited".to_owned(),
                rule_name: throttled.rule_name,
                queued: throttled.queue_disposition == QueueDisposition::Queued,
                queue_failed: throttled.queue_disposition == QueueDisposition::QueueFailed,
                retry_after_seconds: throttled.headers.retry_after_seconds,
            };
            Action::Reject { status: TOO_MANY_REQUESTS, body, headers: throttled.headers }
        },
        Some(Err(error)) => {
            let mut warning = "rate limiter degraded to fail-open mode: ".to_owned();
            warning.append(error.message().as_str());
            Action::FailOpen(warning)
        },
    }
}

} // verus!
