//! Rate limits of the protected routes: which limiter and key a request is counted
//! under, and what a request over the limit is answered.

use vstd::prelude::*;

use crate::api::session::SessionId;
use crate::api::{ErrorResponseParts, TOO_MANY_REQUESTS};
use crate::snapshot::INTERNAL_SERVER_ERROR;
use crate::text::{append_chars, chars_of};

verus! {

/// The response header that recommends a Turnstile verification.
pub const TURNSTILE_RECOMMENDED_HEADER: &'static str = "NRP-Turnstile-Recommended";

/// The limiter a request is counted by: the one for sessions or the one for anonymous
/// clients.
#[derive(Debug, Clone, Copy, PartialEq, Eq, Structural)]
pub enum RateLimitKind {
    Authenticated,
    Anonymous,
}

/// How long a client over the limit is asked to wait.
pub open spec fn retry_after(kind: RateLimitKind) -> u64 {
    match kind {
        RateLimitKind::Authenticated => 10,
        RateLimitKind::Anonymous => 60,
    }
}

impl RateLimitKind {
    /// How long a client over this limit is asked to wait, in seconds.
    pub fn retry_after_seconds(self) -> (r: u64)
        ensures
            r == retry_after(self),
    {
        match self {
            RateLimitKind::Authenticated => 10,
            RateLimitKind::Anonymous => 60,
        }
    }

    /// Whether responses counted by this limiter recommend a Turnstile verification:
    /// those of anonymous clients do.
    pub fn recommends_turnstile(self) -> (r: bool)
        ensures
            r == (self == RateLimitKind::Anonymous),
    {
        match self {
            RateLimitKind::Authenticated => false,
            RateLimitKind::Anonymous => true,
        }
    }
}

/// The client's address: the `cf-connecting-ip` header where it is present, readable and
/// non-empty, else `unknown`.
pub fn client_ip(header: Option<&str>) -> (r: String)
    ensures
        r@ == match header {
            Some(ip) => if ip@.len() > 0 {
                ip@
            } else {
                "unknown"@
            },
            None => "unknown"@,
        },
{
    match header {
        Some(ip) => if chars_of(ip).len() > 0 {
            ip.to_owned()
        } else {
            "unknown".to_owned()
        },
        None => "unknown".to_owned(),
    }
}

/// The limiter and the key a request is counted under: a request with a session by
/// `session:` and the session's id, any other by the client's address.
pub fn rate_limit_target(session: Option<&SessionId>, client_ip: &str) -> (r: (RateLimitKind, String))
    ensures
        match session {
            Some(s) => r.0 == RateLimitKind::Authenticated && r.1@ == "session:"@ + s.id(),
            None => r.0 == RateLimitKind::Anonymous && r.1@ == client_ip@,
        },
{
    match session {
        Some(s) => {
            let mut key = "session:".to_owned();
            append_chars(&mut key, s.as_str());
            (RateLimitKind::Authenticated, key)
        },
        None => (RateLimitKind::Anonymous, client_ip.to_owned()),
    }
}

/// What a request over the limit is answered: too many requests, after the limiter's
/// wait, with a Turnstile recommendation for anonymous clients.
pub fn exceeded_response(kind: RateLimitKind) -> (r: ErrorResponseParts)
    ensures
        r.status == TOO_MANY_REQUESTS,
        r.message@ == "リクエスト回数が多すぎます。Turnstileの検証を行うか、しばらく待ってから再試行してください。"@,
        r.retry_after_seconds == Some(retry_after(kind)),
        r.turnstile_recommended == (kind == RateLimitKind::Anonymous),
{
    ErrorResponseParts {
        status: TOO_MANY_REQUESTS,
        message: "リクエスト回数が多すぎます。Turnstileの検証を行うか、しばらく待ってから再試行してください。".to_owned(),
        retry_after_seconds: Some(kind.retry_after_seconds()),
        turnstile_recommended: kind.recommends_turnstile(),
    }
}

/// What a request is answered when the limiter itself failed.
pub fn limiter_failed_response() -> (r: ErrorResponseParts)
    ensures
        r.status == INTERNAL_SERVER_ERROR,
        r.message@ == "レートリミットの確認中にエラーが発生しました"@,
        r.retry_after_seconds is None,
        !r.turnstile_recommended,
{
    ErrorResponseParts {
        status: INTERNAL_SERVER_ERROR,
        message: "レートリミットの確認中にエラーが発生しました".to_owned(),
        retry_after_seconds: None,
        turnstile_recommended: false,
    }
}

/// What the limiter answered about a request.
#[derive(Debug, Clone, Copy, PartialEq, Eq, Structural)]
pub enum RateLimitEvent {
    /// The limiter counted the request; `success` is false when the client is over it.
    Counted { success: bool },
    /// The limiter failed.
    LimiterFailed,
}

/// What is done with a request once the limiter has answered.
#[derive(Debug, Clone, Copy, PartialEq, Eq, Structural)]
pub enum RateLimitAction {
    /// Pass the request on, then mark the response with [`TURNSTILE_RECOMMENDED_HEADER`]
    /// when `recommend_turnstile` holds.
    Forward { recommend_turnstile: bool },
    /// Drain the request's body and answer with [`exceeded_response`] for this limiter.
    Refuse(RateLimitKind),
    /// Answer with [`limiter_failed_response`].
    Fail,
}

/// What is done with a request counted by the limiter of `kind`, given the limiter's
/// answer: a request over the limit is refused, one the limiter failed on fails, and any
/// other is passed on, with a Turnstile recommendation for anonymous clients.
pub fn rate_limit_decision(kind: RateLimitKind, event: RateLimitEvent) -> (r: RateLimitAction)
    ensures
        r == match event {
            RateLimitEvent::Counted { success } => if success {
                RateLimitAction::Forward { recommend_turnstile: kind == RateLimitKind::Anonymous }
            } else {
                RateLimitAction::Refuse(kind)
            },
            RateLimitEvent::LimiterFailed => RateLimitAction::Fail,
        },
{
    match event {
        RateLimitEvent::Counted { success } => if success {
            RateLimitAction::Forward { recommend_turnstile: kind.recommends_turnstile() }
        } else {
            RateLimitAction::Refuse(kind)
        },
        RateLimitEvent::LimiterFailed => RateLimitAction::Fail,
    }
}

} // verus!
