//! Turnstile verification: its rate limits, the request to the verification service and
//! what a failed verification is answered.

use vstd::prelude::*;

use crate::api::{ErrorResponseParts, FORBIDDEN, TOO_MANY_REQUESTS};
use crate::snapshot::request::{encode_query, form_urlencoded, pairs_view};
use crate::snapshot::INTERNAL_SERVER_ERROR;
use crate::text::append_chars;

verus! {

/// The verification service.
pub const SITEVERIFY_URL: &'static str = "https://challenges.cloudflare.com/turnstile/v0/siteverify";

/// The limiter a verification is counted by: one for bursts, one per client.
#[derive(Debug, Clone, Copy, PartialEq, Eq, Structural)]
pub enum RateLimitKind {
    Burst,
    Client,
}

/// How long a client over a verification limit is asked to wait.
pub open spec fn retry_after(kind: RateLimitKind) -> u64 {
    match kind {
        RateLimitKind::Burst => 10,
        RateLimitKind::Client => 60,
    }
}

impl RateLimitKind {
    /// How long a client over this limit is asked to wait, in seconds.
    pub fn retry_after_seconds(self) -> (r: u64)
        ensures
            r == retry_after(self),
    {
        match self {
            RateLimitKind::Burst => 10,
            RateLimitKind::Client => 60,
        }
    }
}

/// The key that verifications of a client are counted under: `ip:` and its address.
pub fn rate_limit_key(client_ip: &str) -> (r: String)
    ensures
        r@ == "ip:"@ + client_ip@,
{
    let mut key = "ip:".to_owned();
    append_chars(&mut key, client_ip);
    key
}

/// The pairs of a verification request: the site's secret and the client's token.
pub open spec fn siteverify_pairs(secret: Seq<char>, token: Seq<char>) -> Seq<(Seq<char>, Seq<char>)> {
    seq![("secret"@, secret), ("response"@, token)]
}

/// The form-encoded body of a verification request.
pub fn siteverify_body(secret: &str, token: &str) -> (r: String)
    ensures
        r@ == form_urlencoded(siteverify_pairs(secret@, token@)),
{
    let pairs = vec![("secret".to_owned(), secret.to_owned()), ("response".to_owned(), token.to_owned())];
    assert(pairs_view(pairs@) =~= siteverify_pairs(secret@, token@));
    match encode_query(&pairs) {
        Ok(body) => body,
        Err(_) => String::new(),
    }
}

/// How a verification failed.
#[derive(Debug, Clone, Copy, PartialEq, Eq, Structural)]
pub enum TurnstileFailure {
    /// The service rejected the token.
    Rejected,
    /// The client is over a verification limit.
    RateLimitExceeded(RateLimitKind),
    /// The limiter failed.
    RateLimiter,
    /// The request to the service could not be built.
    BuildRequest,
    /// The service's answer was not the JSON expected.
    InvalidResponse,
    /// The request to the service failed.
    Request,
}

/// The status that a failed verification is answered with.
pub open spec fn failure_status(f: TurnstileFailure) -> u16 {
    match f {
        TurnstileFailure::Rejected => FORBIDDEN,
        TurnstileFailure::RateLimitExceeded(_) => TOO_MANY_REQUESTS,
        _ => INTERNAL_SERVER_ERROR,
    }
}

/// The message that a failed verification is answered with.
pub open spec fn failure_message(f: TurnstileFailure) -> Seq<char> {
    match f {
        TurnstileFailure::Rejected => "Turnstileの検証に失敗しました"@,
        TurnstileFailure::RateLimitExceeded(_) =>
            "Turnstileの検証回数が多すぎます。しばらく待ってから再試行してください。"@,
        TurnstileFailure::RateLimiter => "レートリミットの確認中にエラーが発生しました"@,
        _ => "Turnstileの検証中にエラーが発生しました"@,
    }
}

impl TurnstileFailure {
    /// What this failure is answered: its status and message, and for a client over a
    /// limit the limiter's wait.
    pub fn error_response(&self) -> (r: ErrorResponseParts)
        ensures
            r.status == failure_status(*self),
            r.message@ == failure_message(*self),
            r.retry_after_seconds == match *self {
                TurnstileFailure::RateLimitExceeded(kind) => Some(retry_after(kind)),
                _ => None,
            },
            !r.turnstile_recommended,
    {
        match self {
            TurnstileFailure::Rejected => ErrorResponseParts {
                status: FORBIDDEN,
                message: "Turnstileの検証に失敗しました".to_owned(),
                retry_after_seconds: None,
                turnstile_recommended: false,
            },
            TurnstileFailure::RateLimitExceeded(kind) => ErrorResponseParts {
                status: TOO_MANY_REQUESTS,
                message: "Turnstileの検証回数が多すぎます。しばらく待ってから再試行してください。".to_owned(),
                retry_after_seconds: Some(kind.retry_after_seconds()),
                turnstile_recommended: false,
            },
            TurnstileFailure::RateLimiter => ErrorResponseParts {
                status: INTERNAL_SERVER_ERROR,
                message: "レートリミットの確認中にエラーが発生しました".to_owned(),
                retry_after_seconds: None,
                turnstile_recommended: false,
            },
            _ => ErrorResponseParts {
                status: INTERNAL_SERVER_ERROR,
                message: "Turnstileの検証中にエラーが発生しました".to_owned(),
                retry_after_seconds: None,
                turnstile_recommended: false,
            },
        }
    }
}

/// Where a verification stands: waiting for the client limiter, for the burst limiter,
/// for the verification service, or finished.
#[derive(Debug, Clone, Copy, PartialEq, Eq, Structural)]
pub enum TurnstileState {
    ClientLimit,
    BurstLimit,
    Siteverify,
    Finished,
}

/// What the outside work of a verification answered.
#[derive(Debug, Clone, Copy, PartialEq, Eq, Structural)]
pub enum TurnstileEvent {
    /// A limiter counted the verification; `success` is false when the client is over it.
    LimitChecked { success: bool },
    /// A limiter failed.
    LimiterFailed,
    /// The verification service answered; `success` is whether it accepted the token.
    SiteverifyAnswered { success: bool },
    /// The request to the service failed.
    RequestFailed,
    /// The service's answer was not the JSON expected.
    ResponseInvalid,
}

/// What a verification does next.
#[derive(Debug, Clone, Copy, PartialEq, Eq, Structural)]
pub enum TurnstileAction {
    /// Count the verification by this limiter, under the client's key.
    CheckLimit(RateLimitKind),
    /// Post the token to the verification service.
    PostSiteverify,
    /// Answer with this failure.
    Fail(TurnstileFailure),
    /// Accept: start a session.
    Accept,
}

/// Whether a state waits for this event: the limiter states for a limiter's answer, the
/// service state for the service's.
pub open spec fn turnstile_expects(state: TurnstileState, event: TurnstileEvent) -> bool {
    match state {
        TurnstileState::ClientLimit | TurnstileState::BurstLimit => event is LimitChecked || event is LimiterFailed,
        TurnstileState::Siteverify => event is SiteverifyAnswered || event is RequestFailed || event
            is ResponseInvalid,
        TurnstileState::Finished => false,
    }
}

/// The next state and action: the client limiter first, then the burst limiter, then the
/// service; the first denial or failure finishes the verification.
pub open spec fn turnstile_next(state: TurnstileState, event: TurnstileEvent) -> (
    TurnstileState,
    TurnstileAction,
) {
    match event {
        TurnstileEvent::LimitChecked { success } => if !success {
            (
                TurnstileState::Finished,
                TurnstileAction::Fail(
                    TurnstileFailure::RateLimitExceeded(
                        if state == TurnstileState::ClientLimit {
                            RateLimitKind::Client
                        } else {
                            RateLimitKind::Burst
                        },
                    ),
                ),
            )
        } else if state == TurnstileState::ClientLimit {
            (TurnstileState::BurstLimit, TurnstileAction::CheckLimit(RateLimitKind::Burst))
        } else {
            (TurnstileState::Siteverify, TurnstileAction::PostSiteverify)
        },
        TurnstileEvent::LimiterFailed => (
            TurnstileState::Finished,
            TurnstileAction::Fail(TurnstileFailure::RateLimiter),
        ),
        TurnstileEvent::SiteverifyAnswered { success } => if success {
            (TurnstileState::Finished, TurnstileAction::Accept)
        } else {
            (TurnstileState::Finished, TurnstileAction::Fail(TurnstileFailure::Rejected))
        },
        TurnstileEvent::RequestFailed => (
            TurnstileState::Finished,
            TurnstileAction::Fail(TurnstileFailure::Request),
        ),
        TurnstileEvent::ResponseInvalid => (
            TurnstileState::Finished,
            TurnstileAction::Fail(TurnstileFailure::InvalidResponse),
        ),
    }
}

/// How a verification starts: by asking the client limiter.
pub fn turnstile_start() -> (r: (TurnstileState, TurnstileAction))
    ensures
        r == (TurnstileState::ClientLimit, TurnstileAction::CheckLimit(RateLimitKind::Client)),
{
    (TurnstileState::ClientLimit, TurnstileAction::CheckLimit(RateLimitKind::Client))
}

/// One step of a verification: the next state and action after `event`. Each action that
/// asks for outside work leaves a state that waits for its answer.
pub fn turnstile_step(state: TurnstileState, event: TurnstileEvent) -> (r: (TurnstileState, TurnstileAction))
    requires
        turnstile_expects(state, event),
    ensures
        r == turnstile_next(state, event),
        r.1 is CheckLimit ==> r.0 is ClientLimit || r.0 is BurstLimit,
        r.1 is PostSiteverify ==> r.0 is Siteverify,
        r.1 is Fail || r.1 is Accept ==> r.0 is Finished,
{
    match event {
        TurnstileEvent::LimitChecked { success } => if !success {
            let kind = match state {
                TurnstileState::ClientLimit => RateLimitKind::Client,
                _ => RateLimitKind::Burst,
            };
            (TurnstileState::Finished, TurnstileAction::Fail(TurnstileFailure::RateLimitExceeded(kind)))
        } else {
            match state {
                TurnstileState::ClientLimit => (
                    TurnstileState::BurstLimit,
                    TurnstileAction::CheckLimit(RateLimitKind::Burst),
                ),
                _ => (TurnstileState::Siteverify, TurnstileAction::PostSiteverify),
            }
        },
        TurnstileEvent::LimiterFailed => (
            TurnstileState::Finished,
            TurnstileAction::Fail(TurnstileFailure::RateLimiter),
        ),
        TurnstileEvent::SiteverifyAnswered { success } => if success {
            (TurnstileState::Finished, TurnstileAction::Accept)
        } else {
            (TurnstileState::Finished, TurnstileAction::Fail(TurnstileFailure::Rejected))
        },
        TurnstileEvent::RequestFailed => (
            TurnstileState::Finished,
            TurnstileAction::Fail(TurnstileFailure::Request),
        ),
        TurnstileEvent::ResponseInvalid => (
            TurnstileState::Finished,
            TurnstileAction::Fail(TurnstileFailure::InvalidResponse),
        ),
    }
}

/// A verification is accepted exactly when the client limiter, then the burst limiter,
/// then the service each say yes; a denial by the client limiter is answered before the
/// burst limiter is asked.
pub proof fn lemma_turnstile_accepts_only_after_every_check(
    e1: TurnstileEvent,
    e2: TurnstileEvent,
    e3: TurnstileEvent,
)
    requires
        turnstile_expects(TurnstileState::ClientLimit, e1),
    ensures
        e1 == (TurnstileEvent::LimitChecked { success: false }) ==> turnstile_next(
            TurnstileState::ClientLimit,
            e1,
        ) == (
            TurnstileState::Finished,
            TurnstileAction::Fail(TurnstileFailure::RateLimitExceeded(RateLimitKind::Client)),
        ),
        ({
            let (s1, a1) = turnstile_next(TurnstileState::ClientLimit, e1);
            let (s2, a2) = turnstile_next(s1, e2);
            let (s3, a3) = turnstile_next(s2, e3);
            turnstile_expects(s1, e2) && turnstile_expects(s2, e3) ==> (a3 == TurnstileAction::Accept
                <==> e1 == (TurnstileEvent::LimitChecked { success: true }) && e2 == (
            TurnstileEvent::LimitChecked { success: true }) && e3 == (TurnstileEvent::SiteverifyAnswered {
                success: true,
            }))
        }),
{
}

} // verus!
