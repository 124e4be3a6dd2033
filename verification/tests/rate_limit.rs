use nicorandompicker::api::rate_limit::{
    client_ip, exceeded_response, limiter_failed_response, rate_limit_decision, rate_limit_target, RateLimitAction,
    RateLimitEvent, RateLimitKind,
};
use nicorandompicker::api::restored_ids;
use nicorandompicker::api::session::parse_session_cookie_at;
use nicorandompicker::api::turnstile::{
    self, siteverify_body, turnstile_start, turnstile_step, TurnstileAction, TurnstileEvent, TurnstileFailure,
    TurnstileState,
};
use nicorandompicker::datetime::DateTime;

#[test]
fn rate_limit_kinds_wait_and_recommend() {
    assert_eq!(RateLimitKind::Authenticated.retry_after_seconds(), 10);
    assert_eq!(RateLimitKind::Anonymous.retry_after_seconds(), 60);
    assert!(RateLimitKind::Anonymous.recommends_turnstile());
    assert!(!RateLimitKind::Authenticated.recommends_turnstile());
    assert_eq!(turnstile::RateLimitKind::Burst.retry_after_seconds(), 10);
    assert_eq!(turnstile::RateLimitKind::Client.retry_after_seconds(), 60);
}

#[test]
fn client_ip_falls_back_to_unknown() {
    assert_eq!(client_ip(Some("203.0.113.7")), "203.0.113.7");
    assert_eq!(client_ip(Some("")), "unknown");
    assert_eq!(client_ip(None), "unknown");
}

#[test]
fn rate_limit_target_prefers_sessions() {
    let session = parse_session_cookie_at("abc:100", DateTime::from_unix_seconds(0)).unwrap();
    let (kind, key) = rate_limit_target(Some(&session), "203.0.113.7");
    assert_eq!(kind, RateLimitKind::Authenticated);
    assert_eq!(key, "session:abc");
    let (kind, key) = rate_limit_target(None, "203.0.113.7");
    assert_eq!(kind, RateLimitKind::Anonymous);
    assert_eq!(key, "203.0.113.7");
}

#[test]
fn exceeded_requests_are_answered_too_many_requests() {
    let parts = exceeded_response(RateLimitKind::Anonymous);
    assert_eq!(parts.status, 429);
    assert_eq!(parts.retry_after_seconds, Some(60));
    assert!(parts.turnstile_recommended);
    assert_eq!(
        parts.message,
        "リクエスト回数が多すぎます。Turnstileの検証を行うか、しばらく待ってから再試行してください。"
    );
    let parts = exceeded_response(RateLimitKind::Authenticated);
    assert_eq!(parts.retry_after_seconds, Some(10));
    assert!(!parts.turnstile_recommended);
    let parts = limiter_failed_response();
    assert_eq!(parts.status, 500);
    assert_eq!(parts.message, "レートリミットの確認中にエラーが発生しました");
}

#[test]
fn turnstile_failures_are_answered() {
    let parts = TurnstileFailure::Rejected.error_response();
    assert_eq!(parts.status, 403);
    assert_eq!(parts.message, "Turnstileの検証に失敗しました");
    let parts = TurnstileFailure::RateLimitExceeded(turnstile::RateLimitKind::Client).error_response();
    assert_eq!(parts.status, 429);
    assert_eq!(parts.retry_after_seconds, Some(60));
    let parts = TurnstileFailure::InvalidResponse.error_response();
    assert_eq!(parts.status, 500);
    assert_eq!(parts.message, "Turnstileの検証中にエラーが発生しました");
    assert_eq!(turnstile::rate_limit_key("198.51.100.1"), "ip:198.51.100.1");
}

#[test]
fn siteverify_body_is_form_encoded() {
    let body = siteverify_body("se cret", "tok&en");
    assert_eq!(body, "secret=se+cret&response=tok%26en");
}

#[test]
fn restored_ids_keep_the_first_hundred() {
    let ids: Vec<String> = (0..150).map(|i| format!("sm{i}")).collect();
    let kept = restored_ids(ids.clone());
    assert_eq!(kept.len(), 100);
    assert_eq!(kept[..], ids[..100]);
    assert_eq!(restored_ids(vec!["sm1".to_string()]), vec!["sm1".to_string()]);
}

#[test]
fn rate_limit_decision_refuses_forwards_or_fails() {
    let allowed = RateLimitEvent::Counted { success: true };
    let denied = RateLimitEvent::Counted { success: false };
    assert_eq!(
        rate_limit_decision(RateLimitKind::Anonymous, allowed),
        RateLimitAction::Forward { recommend_turnstile: true }
    );
    assert_eq!(
        rate_limit_decision(RateLimitKind::Authenticated, allowed),
        RateLimitAction::Forward { recommend_turnstile: false }
    );
    assert_eq!(rate_limit_decision(RateLimitKind::Anonymous, denied), RateLimitAction::Refuse(RateLimitKind::Anonymous));
    assert_eq!(
        rate_limit_decision(RateLimitKind::Authenticated, denied),
        RateLimitAction::Refuse(RateLimitKind::Authenticated)
    );
    assert_eq!(rate_limit_decision(RateLimitKind::Anonymous, RateLimitEvent::LimiterFailed), RateLimitAction::Fail);
}

fn run_turnstile(events: &[TurnstileEvent]) -> (TurnstileState, TurnstileAction) {
    let mut step = turnstile_start();
    for event in events {
        step = turnstile_step(step.0, *event);
    }
    step
}

#[test]
fn turnstile_asks_the_client_limiter_then_the_burst_limiter_then_the_service() {
    let yes = TurnstileEvent::LimitChecked { success: true };
    let no = TurnstileEvent::LimitChecked { success: false };
    assert_eq!(
        turnstile_start(),
        (TurnstileState::ClientLimit, TurnstileAction::CheckLimit(turnstile::RateLimitKind::Client))
    );
    assert_eq!(
        run_turnstile(&[yes]),
        (TurnstileState::BurstLimit, TurnstileAction::CheckLimit(turnstile::RateLimitKind::Burst))
    );
    assert_eq!(run_turnstile(&[yes, yes]), (TurnstileState::Siteverify, TurnstileAction::PostSiteverify));
    assert_eq!(
        run_turnstile(&[yes, yes, TurnstileEvent::SiteverifyAnswered { success: true }]),
        (TurnstileState::Finished, TurnstileAction::Accept)
    );
    assert_eq!(
        run_turnstile(&[no]),
        (
            TurnstileState::Finished,
            TurnstileAction::Fail(TurnstileFailure::RateLimitExceeded(turnstile::RateLimitKind::Client))
        )
    );
    assert_eq!(
        run_turnstile(&[yes, no]),
        (
            TurnstileState::Finished,
            TurnstileAction::Fail(TurnstileFailure::RateLimitExceeded(turnstile::RateLimitKind::Burst))
        )
    );
    assert_eq!(
        run_turnstile(&[yes, yes, TurnstileEvent::SiteverifyAnswered { success: false }]),
        (TurnstileState::Finished, TurnstileAction::Fail(TurnstileFailure::Rejected))
    );
    assert_eq!(
        run_turnstile(&[TurnstileEvent::LimiterFailed]),
        (TurnstileState::Finished, TurnstileAction::Fail(TurnstileFailure::RateLimiter))
    );
    assert_eq!(
        run_turnstile(&[yes, yes, TurnstileEvent::RequestFailed]),
        (TurnstileState::Finished, TurnstileAction::Fail(TurnstileFailure::Request))
    );
    assert_eq!(
        run_turnstile(&[yes, yes, TurnstileEvent::ResponseInvalid]),
        (TurnstileState::Finished, TurnstileAction::Fail(TurnstileFailure::InvalidResponse))
    );
}

#[test]
fn form_encoding_keeps_unreserved_bytes_and_escapes_the_rest_in_uppercase() {
    assert_eq!(siteverify_body("a*b-c.d_e", "~é/"), "secret=a*b-c.d_e&response=%7E%C3%A9%2F");
    assert_eq!(siteverify_body("", ""), "secret=&response=");
}
