use std::collections::VecDeque;

use thermo::auth::{
    basic_auth_header, check_authorization, is_authorized, presented_credentials, AuthOutcome,
    AuthorizationField,
};
use thermo::handlers::{
    form_page, form_submitted_reply, print_queued_reply, print_request, submit_form,
    unauthorized_response, FormRequest, PrintRequest, Reply, ReplyBody, Submission,
};
use thermo::page::{render_form, MessageKind};
use thermo::relay::{
    enqueue_or_broadcast, flush_pending_jobs, register_printer, server_action,
    unregister_printer, Handover, RelayError, ServerAction, ServerEvent,
};
use tokio::sync::broadcast;

fn header(value: &str) -> AuthorizationField {
    AuthorizationField::Text(value.to_string())
}

fn good() -> AuthorizationField {
    header("Basic dGhlcm1vOnRoZXJtbw==")
}

fn html_of(reply: &Reply) -> &str {
    match &reply.body {
        ReplyBody::Html(h) => h,
        _ => panic!("not html"),
    }
}

fn text_of(reply: &Reply) -> &str {
    match &reply.body {
        ReplyBody::Text(t) => t,
        _ => panic!("not text"),
    }
}

#[test]
fn basic_auth_header_encodes_credentials() {
    assert_eq!(basic_auth_header("thermo", "thermo"), "Basic dGhlcm1vOnRoZXJtbw==");
    assert_eq!(basic_auth_header("", ""), "Basic Og==");
}

#[test]
fn header_round_trips_through_the_check() {
    for (user, password) in [("thermo", "thermo"), ("user", "pa:ss"), ("\u{e4}", ""), ("", "x")] {
        let h = AuthorizationField::Text(basic_auth_header(user, password));
        assert!(is_authorized(&h, user, password));
        assert!(!is_authorized(&h, user, "other"));
    }
    assert!(is_authorized(&header("Basic dXNlcjpwYTpzcw=="), "user", "pa:ss"));
}

#[test]
fn user_with_colon_is_never_authorized() {
    let h = AuthorizationField::Text(basic_auth_header("a:b", "c"));
    assert!(!is_authorized(&h, "a:b", "c"));
    assert!(is_authorized(&h, "a", "b:c"));
}

#[test]
fn presented_credentials_examples() {
    match presented_credentials(&header("Basic dXNlcjpwYTpzcw==")) {
        Ok((user, password)) => assert_eq!((user.as_str(), password.as_str()), ("user", "pa:ss")),
        Err(_) => panic!("credentials not read"),
    }
    assert!(matches!(presented_credentials(&AuthorizationField::Missing), Err(AuthOutcome::MissingHeader)));
    assert!(matches!(presented_credentials(&header("Basic bm9jb2xvbg==")), Err(AuthOutcome::InvalidFormat)));
}

#[test]
fn check_authorization_outcomes() {
    let c = |f: &AuthorizationField| check_authorization(f, "thermo", "thermo");
    assert_eq!(c(&good()), AuthOutcome::Authorized);
    assert_eq!(c(&AuthorizationField::Missing), AuthOutcome::MissingHeader);
    assert_eq!(c(&AuthorizationField::NotText), AuthOutcome::InvalidHeaderValue);
    assert_eq!(c(&header("Bearer abc")), AuthOutcome::UnsupportedScheme);
    assert_eq!(c(&header("basic dGhlcm1vOnRoZXJtbw==")), AuthOutcome::UnsupportedScheme);
    assert_eq!(c(&header("Basic !!!")), AuthOutcome::InvalidBase64);
    assert_eq!(c(&header("Basic dGhlcm1vOnRoZXJtbw")), AuthOutcome::InvalidBase64);
    assert_eq!(c(&header("Basic /w==")), AuthOutcome::InvalidUtf8);
    assert_eq!(c(&header("Basic bm9jb2xvbg==")), AuthOutcome::InvalidFormat);
    assert_eq!(c(&header("Basic dGhlcm1vOndyb25n")), AuthOutcome::InvalidCredentials);
}

#[test]
fn unauthorized_response_asks_for_basic_auth() {
    let r = unauthorized_response();
    assert_eq!(r.status, 401);
    assert_eq!(
        r.www_authenticate.as_deref(),
        Some("Basic realm=\"thermo\", charset=\"UTF-8\"")
    );
    assert_eq!(text_of(&r), "unauthorized");
}

#[test]
fn form_page_needs_authorization() {
    let r = form_page(&AuthorizationField::Missing, "thermo", "thermo");
    assert_eq!(r.status, 401);
    let r = form_page(&good(), "thermo", "thermo");
    assert_eq!(r.status, 200);
    assert!(r.www_authenticate.is_none());
    assert_eq!(html_of(&r), render_form(None, None, false));
}

#[test]
fn submit_form_decisions() {
    let short = FormRequest { text: "  hello\n\n\nworld ".to_string() };
    match submit_form(&header("Basic bm9jb2xvbg=="), "thermo", "thermo", &short) {
        Submission::Respond(r) => assert_eq!(r.status, 401),
        Submission::Enqueue(_) => panic!("unauthorized job enqueued"),
    }
    match submit_form(&good(), "thermo", "thermo", &short) {
        Submission::Enqueue(job) => assert!(job.ends_with("\nhello\nworld\n------------")),
        Submission::Respond(_) => panic!("job refused"),
    }
    let limit = FormRequest { text: "\u{e4}".repeat(244) };
    assert!(matches!(submit_form(&good(), "thermo", "thermo", &limit), Submission::Enqueue(_)));
    let long = FormRequest { text: "x".repeat(245) };
    match submit_form(&good(), "thermo", "thermo", &long) {
        Submission::Respond(r) => {
            assert_eq!(r.status, 413);
            assert_eq!(
                html_of(&r),
                render_form(
                    Some("print job exceeds maximum length of 244 characters"),
                    Some(MessageKind::Error),
                    false
                )
            );
        }
        Submission::Enqueue(_) => panic!("long job enqueued"),
    }
}

#[test]
fn form_submitted_replies() {
    let ok = form_submitted_reply(&Ok(1));
    assert_eq!(ok.status, 200);
    assert_eq!(
        html_of(&ok),
        render_form(Some("print job submitted"), Some(MessageKind::Success), true)
    );
    let err = form_submitted_reply(&Err(RelayError::NoReceivers));
    assert_eq!(err.status, 503);
    assert_eq!(
        html_of(&err),
        render_form(Some("failed to queue print job"), Some(MessageKind::Error), false)
    );
}

#[test]
fn print_request_checks_length_before_credentials() {
    let long = PrintRequest { text: "y".repeat(2501) };
    match print_request(&AuthorizationField::Missing, "thermo", "thermo", long) {
        Submission::Respond(r) => {
            assert_eq!(r.status, 413);
            assert_eq!(text_of(&r), "print job exceeds maximum length of 2500 characters");
        }
        Submission::Enqueue(_) => panic!("long job enqueued"),
    }
    let ok = PrintRequest { text: "Hello, World!".to_string() };
    match print_request(&AuthorizationField::Missing, "thermo", "thermo", ok) {
        Submission::Respond(r) => assert_eq!(r.status, 401),
        Submission::Enqueue(_) => panic!("unauthorized job enqueued"),
    }
    let ok = PrintRequest { text: "Hello, World!".to_string() };
    match print_request(&good(), "thermo", "thermo", ok) {
        Submission::Enqueue(job) => assert_eq!(job, "Hello, World!"),
        Submission::Respond(_) => panic!("job refused"),
    }
    let limit = PrintRequest { text: "z".repeat(2500) };
    assert!(matches!(print_request(&good(), "thermo", "thermo", limit), Submission::Enqueue(_)));
}

#[test]
fn print_queued_replies() {
    let ok = print_queued_reply(&Ok(0));
    assert_eq!(ok.status, 202);
    assert!(matches!(ok.body, ReplyBody::Empty));
    let err = print_queued_reply(&Err(RelayError::NoReceivers));
    assert_eq!(err.status, 503);
    assert_eq!(text_of(&err), "failed to queue print job");
}

#[test]
fn printer_count_goes_up_and_down() {
    let mut count = 0usize;
    assert!(register_printer(&mut count));
    assert!(!register_printer(&mut count));
    assert_eq!(count, 2);
    unregister_printer(&mut count);
    unregister_printer(&mut count);
    assert_eq!(count, 0);
    unregister_printer(&mut count);
    assert_eq!(count, 0);
}

#[test]
fn jobs_wait_while_no_printer_is_connected() {
    let (tx, mut rx) = broadcast::channel::<String>(16);
    let mut pending = VecDeque::new();
    assert!(matches!(enqueue_or_broadcast(0, &mut pending, &tx, "a".to_string()), Ok(Handover::Queued)));
    assert!(matches!(enqueue_or_broadcast(0, &mut pending, &tx, "b".to_string()), Ok(Handover::Queued)));
    assert_eq!(pending, VecDeque::from(vec!["a".to_string(), "b".to_string()]));
    assert!(rx.try_recv().is_err());
    let outcome = flush_pending_jobs(&mut pending, &tx);
    assert!(!outcome.failed);
    let sent: Vec<&String> = outcome.deliveries.iter().map(|d| d.text()).collect();
    assert_eq!(sent, vec!["a", "b"]);
    assert!(pending.is_empty());
    assert_eq!(rx.try_recv().unwrap(), "a");
    assert_eq!(rx.try_recv().unwrap(), "b");
}

#[test]
fn jobs_go_straight_to_connected_printers() {
    let (tx, mut rx) = broadcast::channel::<String>(16);
    let mut pending = VecDeque::new();
    match enqueue_or_broadcast(1, &mut pending, &tx, "now".to_string()) {
        Ok(Handover::Sent { receivers, delivery }) => {
            assert_eq!(receivers, 1);
            assert_eq!(delivery.text(), "now");
        }
        _ => panic!("job not broadcast"),
    }
    assert!(pending.is_empty());
    assert_eq!(rx.try_recv().unwrap(), "now");
    drop(rx);
    assert!(matches!(
        enqueue_or_broadcast(1, &mut pending, &tx, "lost".to_string()),
        Err(RelayError::NoReceivers)
    ));
    assert!(pending.is_empty());
}

#[test]
fn flush_stops_at_the_first_failure() {
    let (tx, rx) = broadcast::channel::<String>(16);
    drop(rx);
    let mut pending = VecDeque::from(vec!["a".to_string(), "b".to_string(), "c".to_string()]);
    let outcome = flush_pending_jobs(&mut pending, &tx);
    assert!(outcome.failed && outcome.deliveries.is_empty());
    assert_eq!(pending, VecDeque::from(vec!["b".to_string(), "c".to_string()]));
    let mut empty = VecDeque::new();
    let outcome = flush_pending_jobs(&mut empty, &tx);
    assert!(!outcome.failed && outcome.deliveries.is_empty());
}

#[test]
fn server_actions() {
    assert!(matches!(server_action(ServerEvent::Job("j".to_string())), ServerAction::Deliver(t) if t == "j"));
    assert!(matches!(server_action(ServerEvent::Lagged(3)), ServerAction::Continue));
    assert!(matches!(server_action(ServerEvent::BroadcastClosed), ServerAction::Disconnect));
    assert!(matches!(server_action(ServerEvent::ClientClose), ServerAction::Disconnect));
    assert!(matches!(server_action(ServerEvent::ClientPing(vec![1, 2])), ServerAction::Pong(p) if p == vec![1, 2]));
    assert!(matches!(server_action(ServerEvent::ClientPong), ServerAction::Continue));
    assert!(matches!(server_action(ServerEvent::ClientMessage), ServerAction::Continue));
    assert!(matches!(server_action(ServerEvent::ClientError), ServerAction::Disconnect));
    assert!(matches!(server_action(ServerEvent::ClientGone), ServerAction::Disconnect));
    assert!(matches!(server_action(ServerEvent::SendFailed), ServerAction::Disconnect));
}

#[test]
fn a_session_delivers_jobs_in_order_until_it_closes() {
    let events = vec![
        ServerEvent::Job("a".to_string()),
        ServerEvent::ClientPing(vec![7]),
        ServerEvent::Lagged(2),
        ServerEvent::ClientMessage,
        ServerEvent::Job("b".to_string()),
        ServerEvent::ClientClose,
        ServerEvent::Job("c".to_string()),
    ];
    let mut sent = Vec::new();
    let mut pongs = Vec::new();
    let mut closed = false;
    for event in events {
        match server_action(event) {
            ServerAction::Deliver(text) => sent.push(text),
            ServerAction::Pong(payload) => pongs.push(payload),
            ServerAction::Continue => {}
            ServerAction::Disconnect => {
                closed = true;
                break;
            }
        }
    }
    assert!(closed);
    assert_eq!(sent, vec!["a".to_string(), "b".to_string()]);
    assert_eq!(pongs, vec![vec![7u8]]);
}
