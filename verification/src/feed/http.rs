//! What a conditional GET of a JSON endpoint makes of a response.
//!
//! Status codes are not turned into transport errors: `304 Not Modified` is told
//! apart from a fresh body, and both from a real failure.

use vstd::prelude::*;

use crate::numbers::{parse_i64, parse_u32, signed_value, unsigned_text, unsigned_value};
use crate::text::{char_count, concat, opt_str, opt_view};

verus! {

/// Maximum response body that is read from any feed endpoint. The real payloads
/// are a few kilobytes (the bulletin) to tens of kilobytes (an issue page); a
/// half-megabyte ceiling is generous while still bounding memory.
pub const BODY_LIMIT: u64 = 524_288;

/// Outcome of a conditional GET.
#[derive(Debug)]
pub enum Fetched {
    /// The server returned `304 Not Modified`; the cached copy is still current.
    NotModified,
    /// A fresh `2xx` body, with any caching and rate-limit metadata.
    Body(FetchedBody),
}

/// A fresh response body plus the headers that are acted on.
#[derive(Debug)]
pub struct FetchedBody {
    pub text: String,
    pub etag: Option<String>,
    /// `x-ratelimit-remaining`, when the host sends it (GitHub does).
    pub rate_remaining: Option<u32>,
    /// `x-ratelimit-reset` converted to epoch millis, when present.
    pub rate_reset_ms: Option<i64>,
}

impl Default for FetchedBody {
    fn default() -> (r: FetchedBody)
        ensures
            r.text@.len() == 0,
            r.etag is None,
            r.rate_remaining is None,
            r.rate_reset_ms is None,
    {
        FetchedBody {
            text: String::new(),
            etag: None,
            rate_remaining: None,
            rate_reset_ms: None,
        }
    }
}

/// Why a fetch did not yield a usable body.
#[derive(Debug)]
pub enum FetchError {
    /// A non-2xx, non-304 status (e.g. 403, 404, 500).
    Status(u16),
    /// A connect/timeout/TLS/DNS failure.
    Transport(String),
}

/// The text of a fetch error.
pub open spec fn error_text(e: FetchError) -> Seq<char> {
    match e {
        FetchError::Status(code) => "HTTP "@ + crate::numbers::decimal(code as nat),
        FetchError::Transport(msg) => msg@,
    }
}

impl FetchError {
    /// The error in words.
    pub fn to_string(&self) -> (r: String)
        ensures
            r@ == error_text(*self),
    {
        match self {
            FetchError::Status(code) => {
                let digits = unsigned_text(*code as u64);
                concat("HTTP ", digits.as_str())
            },
            FetchError::Transport(msg) => msg.clone(),
        }
    }
}

/// The head of a response: its status and the headers that are acted on.
#[derive(Debug)]
pub struct ResponseHead {
    pub status: u16,
    pub etag: Option<String>,
    pub rate_remaining: Option<String>,
    pub rate_reset: Option<String>,
}

/// Whether a status is a success.
pub open spec fn is_success(status: u16) -> bool {
    200 <= status < 300
}

/// The tag to send with a conditional request: the stored one, unless it is
/// empty.
pub fn condition(etag: Option<&str>) -> (r: Option<String>)
    ensures
        opt_view(r) == (match opt_str(etag) {
            Some(tag) => if tag.len() > 0 {
                Some(tag)
            } else {
                None
            },
            None => None,
        }),
{
    match etag {
        Some(tag) => if char_count(tag) > 0 {
            Some(tag.to_owned())
        } else {
            None
        },
        None => None,
    }
}

/// The remaining request budget that a header reports.
pub open spec fn remaining_of(header: Option<Seq<char>>) -> Option<u32> {
    match header {
        Some(s) => match unsigned_value(s) {
            Some(n) => if n <= u32::MAX {
                Some(n as u32)
            } else {
                None
            },
            None => None,
        },
        None => None,
    }
}

/// The instant, in milliseconds, that a header reports in seconds; held at the
/// ends of the range.
pub open spec fn reset_of(header: Option<Seq<char>>) -> Option<i64> {
    match header {
        Some(s) => match signed_value(s) {
            Some(n) => if i64::MIN <= n <= i64::MAX {
                Some(
                    if n * 1000 > i64::MAX {
                        i64::MAX
                    } else if n * 1000 < i64::MIN {
                        i64::MIN
                    } else {
                        (n * 1000) as i64
                    },
                )
            } else {
                None
            },
            None => None,
        },
        None => None,
    }
}

fn reset_ms(header: &Option<String>) -> (r: Option<i64>)
    ensures
        r == reset_of(opt_view(*header)),
{
    match header {
        Some(s) => match parse_i64(s.as_str()) {
            Some(secs) => Some(
                if secs > i64::MAX / 1000 {
                    i64::MAX
                } else if secs < -9_223_372_036_854_775 {
                    i64::MIN
                } else {
                    secs * 1000
                },
            ),
            None => None,
        },
        None => None,
    }
}

/// What is known of a request once the head of its response is there.
#[derive(Debug)]
pub enum Headed {
    /// The request is settled without a body.
    Settled(Result<Fetched, FetchError>),
    /// The body is to be read; these are its headers.
    Awaiting(FetchedBody),
}

/// Decide what to do with a response from its head: nothing changed, a failure,
/// or a body to read.
pub fn on_head(head: ResponseHead) -> (r: Headed)
    ensures
        head.status == 304 ==> r == Headed::Settled(Ok(Fetched::NotModified)),
        head.status != 304 && !is_success(head.status) ==> r == Headed::Settled(
            Err(FetchError::Status(head.status)),
        ),
        is_success(head.status) ==> {
            &&& r is Awaiting
            &&& r->Awaiting_0.text@.len() == 0
            &&& r->Awaiting_0.etag == head.etag
            &&& r->Awaiting_0.rate_remaining == remaining_of(opt_view(head.rate_remaining))
            &&& r->Awaiting_0.rate_reset_ms == reset_of(opt_view(head.rate_reset))
        },
{
    if head.status == 304 {
        return Headed::Settled(Ok(Fetched::NotModified));
    }
    if !(200 <= head.status && head.status < 300) {
        return Headed::Settled(Err(FetchError::Status(head.status)));
    }
    let rate_remaining = match &head.rate_remaining {
        Some(s) => parse_u32(s.as_str()),
        None => None,
    };
    let rate_reset_ms = reset_ms(&head.rate_reset);
    Headed::Awaiting(
        FetchedBody { text: String::new(), etag: head.etag, rate_remaining, rate_reset_ms },
    )
}

/// Settle a request whose body was read, or failed to be.
pub fn on_body(headers: FetchedBody, body: Result<String, String>) -> (r: Result<
    Fetched,
    FetchError,
>)
    ensures
        match body {
            Ok(text) => r == Ok::<Fetched, FetchError>(
                Fetched::Body(
                    (FetchedBody {
                        text,
                        etag: headers.etag,
                        rate_remaining: headers.rate_remaining,
                        rate_reset_ms: headers.rate_reset_ms,
                    }),
                ),
            ),
            Err(msg) => r == Err::<Fetched, FetchError>(FetchError::Transport(msg)),
        },
{
    match body {
        Ok(text) => Ok(
            Fetched::Body(
                FetchedBody {
                    text,
                    etag: headers.etag,
                    rate_remaining: headers.rate_remaining,
                    rate_reset_ms: headers.rate_reset_ms,
                },
            ),
        ),
        Err(msg) => Err(FetchError::Transport(msg)),
    }
}

} // verus!
