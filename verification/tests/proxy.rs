use balancebeam::registry::{health_probe_request, ProbeOutcome, UpstreamRegistry};
use balancebeam::rate::RateLimitTable;
use balancebeam::session::{
    extend_forwarded_for, forwarding_header_name, session_step, ProxySession, RequestOutcome,
    SessionAction, SessionEvent, SessionState,
};
use balancebeam::ProxyError;

fn upstreams(names: &[&str]) -> Vec<String> {
    names.iter().map(|s| s.to_string()).collect()
}

#[test]
fn pick_returns_a_live_member() {
    let reg = UpstreamRegistry::new(upstreams(&["a:1", "b:2", "c:3"]));
    for _ in 0..32 {
        let addr = reg.pick().expect("three upstreams are live");
        assert!(addr == "a:1" || addr == "b:2" || addr == "c:3");
    }
}

#[test]
fn pick_single_upstream_is_that_upstream() {
    let reg = UpstreamRegistry::new(upstreams(&["only:9"]));
    assert_eq!(reg.pick().unwrap(), "only:9");
}

#[test]
fn failed_upstream_stays_out_of_later_picks() {
    let mut reg = UpstreamRegistry::new(upstreams(&["a:1", "b:2", "c:3"]));
    assert_eq!(reg.record_connect_failure(&"b:2".to_string()), Ok(()));
    assert!(!reg.is_live(&"b:2".to_string()));
    assert_eq!(reg.live_count(), 2);
    for _ in 0..32 {
        let addr = reg.pick().expect("two upstreams remain");
        assert_ne!(addr, "b:2");
    }
}

#[test]
fn all_connects_failing_exhausts_the_pool() {
    let mut reg = UpstreamRegistry::new(upstreams(&["a:1", "b:2", "c:3"]));
    let mut gave_up = false;
    for _ in 0..3 {
        let addr = reg.pick().expect("a live upstream should be picked");
        if let Err(err) = reg.record_connect_failure(&addr) {
            assert_eq!(err, ProxyError::AllUpstreamsDead);
            gave_up = true;
            break;
        }
    }
    assert!(gave_up);
    assert_eq!(reg.live_count(), 0);
    assert_eq!(reg.pick(), Err(ProxyError::NoLiveUpstreams));
}

#[test]
fn health_cycle_replaces_live_set() {
    let mut reg = UpstreamRegistry::new(upstreams(&["a:1", "b:2", "c:3"]));
    let outcomes = vec![
        ProbeOutcome::Responded(200),
        ProbeOutcome::Responded(500),
        ProbeOutcome::Responded(200),
    ];
    reg.apply_health_cycle(&outcomes);
    assert!(reg.is_live(&"a:1".to_string()));
    assert!(!reg.is_live(&"b:2".to_string()));
    assert!(reg.is_live(&"c:3".to_string()));
    assert_eq!(reg.live_count(), 2);
}

#[test]
fn health_cycle_readmits_failed_upstream() {
    let mut reg = UpstreamRegistry::new(upstreams(&["a:1", "b:2"]));
    let res = reg.record_connect_failure(&"a:1".to_string());
    assert_eq!(res, Ok(()));
    assert!(!reg.is_live(&"a:1".to_string()));
    let outcomes = vec![ProbeOutcome::Responded(200), ProbeOutcome::Responded(200)];
    reg.apply_health_cycle(&outcomes);
    assert!(reg.is_live(&"a:1".to_string()));
    assert!(reg.is_live(&"b:2".to_string()));
}

#[test]
fn health_cycle_counts_only_status_200_as_healthy() {
    let mut reg = UpstreamRegistry::new(upstreams(&["a:1", "b:2", "c:3", "d:4"]));
    let outcomes = vec![
        ProbeOutcome::ConnectFailed,
        ProbeOutcome::SendFailed,
        ProbeOutcome::ReadFailed,
        ProbeOutcome::Responded(404),
    ];
    reg.apply_health_cycle(&outcomes);
    assert_eq!(reg.live_count(), 0);
    assert_eq!(reg.pick(), Err(ProxyError::NoLiveUpstreams));
}

#[test]
fn repeating_a_healthy_cycle_changes_nothing() {
    let mut reg = UpstreamRegistry::new(upstreams(&["a:1", "b:2"]));
    let outcomes = vec![ProbeOutcome::Responded(200), ProbeOutcome::Responded(200)];
    reg.apply_health_cycle(&outcomes);
    let first_count = reg.live_count();
    let first_a = reg.is_live(&"a:1".to_string());
    let first_b = reg.is_live(&"b:2".to_string());
    reg.apply_health_cycle(&outcomes);
    assert_eq!(reg.live_count(), first_count);
    assert_eq!(reg.is_live(&"a:1".to_string()), first_a);
    assert_eq!(reg.is_live(&"b:2".to_string()), first_b);
    assert!(first_a && first_b);
}

#[test]
fn rate_limit_rejects_request_over_ceiling() {
    let mut table = RateLimitTable::new(3);
    let ip = "10.0.0.1".to_string();
    assert_eq!(table.check_and_count(&ip), Ok(()));
    assert_eq!(table.check_and_count(&ip), Ok(()));
    assert_eq!(table.check_and_count(&ip), Ok(()));
    assert_eq!(table.check_and_count(&ip), Err(ProxyError::RateLimited));
}

#[test]
fn rate_limit_counts_clients_separately() {
    let mut table = RateLimitTable::new(1);
    let first = "10.0.0.1".to_string();
    let second = "10.0.0.2".to_string();
    assert_eq!(table.check_and_count(&first), Ok(()));
    assert_eq!(table.check_and_count(&first), Err(ProxyError::RateLimited));
    assert_eq!(table.check_and_count(&second), Ok(()));
}

#[test]
fn rate_limit_window_reset_admits_again() {
    let mut table = RateLimitTable::new(2);
    let ip = "10.0.0.1".to_string();
    assert_eq!(table.check_and_count(&ip), Ok(()));
    assert_eq!(table.check_and_count(&ip), Ok(()));
    assert_eq!(table.check_and_count(&ip), Err(ProxyError::RateLimited));
    table.reset();
    assert_eq!(table.check_and_count(&ip), Ok(()));
}

#[test]
fn session_connect_failure_answers_502_and_closes() {
    let (next, action) = session_step(
        false,
        &SessionState::AwaitingUpstream,
        &SessionEvent::ConnectOutcome(false),
    );
    assert_eq!(next, SessionState::Closed);
    assert_eq!(action, SessionAction::SendErrorAndClose(502));
}

#[test]
fn session_read_errors_answer_their_statuses() {
    let cases = [
        (RequestOutcome::Incomplete, 400),
        (RequestOutcome::Malformed, 400),
        (RequestOutcome::InvalidContentLength, 400),
        (RequestOutcome::ContentLengthMismatch, 400),
        (RequestOutcome::BodyTooLarge, 413),
    ];
    for (outcome, status) in cases {
        let (next, action) =
            session_step(false, &SessionState::Serving, &SessionEvent::ReadOutcome(outcome));
        assert_eq!(next, SessionState::Serving);
        assert_eq!(action, SessionAction::SendErrorAndContinue(status));
    }
    let (next, action) = session_step(
        false,
        &SessionState::Serving,
        &SessionEvent::ReadOutcome(RequestOutcome::IoError),
    );
    assert_eq!(next, SessionState::Closed);
    assert_eq!(action, SessionAction::SendErrorAndClose(503));
}

#[test]
fn short_body_then_close_answers_400_and_closes() {
    let mut session = ProxySession::begin("10.0.0.7".to_string(), false);
    let action = session.advance(&SessionEvent::ConnectOutcome(true));
    assert_eq!(action, SessionAction::ReadRequest);
    let action = session.advance(&SessionEvent::ReadOutcome(RequestOutcome::ContentLengthMismatch));
    assert_eq!(action, SessionAction::SendErrorAndContinue(400));
    assert_eq!(session.state(), SessionState::Serving);
    let action = session.advance(&SessionEvent::ReadOutcome(RequestOutcome::EndOfStream));
    assert_eq!(action, SessionAction::CloseQuietly);
    assert_eq!(session.state(), SessionState::Closed);
}

#[test]
fn rate_limited_request_answers_429_and_session_survives() {
    let mut session = ProxySession::begin("10.0.0.7".to_string(), true);
    session.advance(&SessionEvent::ConnectOutcome(true));
    let action = session.advance(&SessionEvent::ReadOutcome(RequestOutcome::Parsed));
    assert_eq!(action, SessionAction::CheckRate);
    let action = session.advance(&SessionEvent::RateOutcome(false));
    assert_eq!(action, SessionAction::SendErrorAndContinue(429));
    assert_eq!(session.state(), SessionState::Serving);
}

#[test]
fn upstream_failures_mid_request_answer_502_and_close() {
    let (next, action) = session_step(
        false,
        &SessionState::Forwarding,
        &SessionEvent::ForwardOutcome(false),
    );
    assert_eq!((next, action), (SessionState::Closed, SessionAction::SendErrorAndClose(502)));
    let (next, action) = session_step(
        false,
        &SessionState::AwaitingResponse,
        &SessionEvent::ResponseOutcome(false),
    );
    assert_eq!((next, action), (SessionState::Closed, SessionAction::SendErrorAndClose(502)));
}

#[test]
fn keep_alive_serves_many_requests_over_one_session() {
    let mut session = ProxySession::begin("10.0.0.7".to_string(), false);
    session.advance(&SessionEvent::ConnectOutcome(true));
    for _ in 0..3 {
        assert_eq!(
            session.advance(&SessionEvent::ReadOutcome(RequestOutcome::Parsed)),
            SessionAction::ForwardRequest
        );
        assert_eq!(
            session.advance(&SessionEvent::ForwardOutcome(true)),
            SessionAction::ReadResponse
        );
        assert_eq!(
            session.advance(&SessionEvent::ResponseOutcome(true)),
            SessionAction::RelayResponse
        );
        assert_eq!(session.advance(&SessionEvent::RelayOutcome(true)), SessionAction::ReadRequest);
    }
    assert_eq!(session.state(), SessionState::Serving);
}

#[test]
fn two_interleaved_sessions_stay_independent() {
    let mut first = ProxySession::begin("10.0.0.1".to_string(), false);
    let mut second = ProxySession::begin("10.0.0.2".to_string(), false);
    first.attach_upstream("u1:80".to_string());
    second.attach_upstream("u2:80".to_string());
    assert_eq!(first.advance(&SessionEvent::ConnectOutcome(true)), SessionAction::ReadRequest);
    assert_eq!(second.advance(&SessionEvent::ConnectOutcome(true)), SessionAction::ReadRequest);
    assert_eq!(
        first.advance(&SessionEvent::ReadOutcome(RequestOutcome::Parsed)),
        SessionAction::ForwardRequest
    );
    assert_eq!(
        second.advance(&SessionEvent::ReadOutcome(RequestOutcome::BodyTooLarge)),
        SessionAction::SendErrorAndContinue(413)
    );
    assert_eq!(first.advance(&SessionEvent::ForwardOutcome(true)), SessionAction::ReadResponse);
    assert_eq!(second.state(), SessionState::Serving);
    assert_eq!(first.state(), SessionState::AwaitingResponse);
    assert_eq!(first.advance(&SessionEvent::ResponseOutcome(true)), SessionAction::RelayResponse);
    assert_eq!(first.advance(&SessionEvent::RelayOutcome(true)), SessionAction::ReadRequest);
    assert_eq!(second.state(), SessionState::Serving);
}

#[test]
fn forwarding_header_appends_client_address() {
    assert_eq!(forwarding_header_name(), "x-forwarded-for");
    assert_eq!(extend_forwarded_for(None, &"10.0.0.9".to_string()), "10.0.0.9");
    assert_eq!(
        extend_forwarded_for(Some(&"1.1.1.1, 2.2.2.2".to_string()), &"10.0.0.9".to_string()),
        "1.1.1.1, 2.2.2.2, 10.0.0.9"
    );
}

#[test]
fn health_probe_is_a_get_of_the_path_with_a_host_header() {
    assert_eq!(
        health_probe_request("/health", "a:1"),
        "GET /health HTTP/1.1\r\nHost: a:1\r\n\r\n"
    );
}
