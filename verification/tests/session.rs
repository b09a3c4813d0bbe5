use handshake::auth::compute_proof;
use handshake::message::{Message, MessageType, OperationResult};
use handshake::session::{Session, StepResult};

fn reply_of(r: StepResult) -> Message {
    match r {
        StepResult::Reply(m) => m,
        _ => panic!("expected a reply"),
    }
}

#[test]
fn auth_success_with_stored_secret() {
    let mut s = Session::new("T2".to_string());
    assert!(matches!(
        s.step(&Message::send_token("T1".to_string())),
        StepResult::NoReply
    ));
    assert!(matches!(
        s.step(&Message::username("alice".to_string())),
        StepResult::NoReply
    ));
    let token_reply = reply_of(s.step(&Message::request_token()));
    assert_eq!(token_reply.msg_type, MessageType::SendToken);
    assert_eq!(token_reply.get_body_value("token"), "T2");
    let client_hash = compute_proof("T1", "T2", "secret");
    assert!(matches!(
        s.step(&Message::login_request(client_hash)),
        StepResult::NeedSecret
    ));
    let stored = "secret".to_string();
    let verdict = s.resolve_login(Some(&stored));
    assert_eq!(
        verdict.msg_type,
        MessageType::Result(OperationResult::Success)
    );
    assert!(s.authenticated);
}

#[test]
fn auth_failure_wrong_secret() {
    let mut s = Session::new("T2".to_string());
    s.step(&Message::send_token("T1".to_string()));
    s.step(&Message::username("alice".to_string()));
    let client_hash = compute_proof("T1", "T2", "not-the-secret");
    assert!(matches!(
        s.step(&Message::login_request(client_hash)),
        StepResult::NeedSecret
    ));
    let stored = "secret".to_string();
    let verdict = s.resolve_login(Some(&stored));
    assert_eq!(verdict.msg_type, MessageType::Result(OperationResult::Fail));
    assert!(!s.authenticated);
}

#[test]
fn auth_failure_missing_username() {
    let mut s = Session::new("T2".to_string());
    s.step(&Message::send_token("T1".to_string()));
    let client_hash = compute_proof("T1", "T2", "secret");
    // No Username message was processed: the step answers Fail by itself and
    // never asks for the stored secret.
    let r = s.step(&Message::login_request(client_hash));
    let reply = reply_of(r);
    assert_eq!(reply.msg_type, MessageType::Result(OperationResult::Fail));
    assert!(!s.authenticated);
}

#[test]
fn auth_failure_missing_client_token() {
    let mut s = Session::new("T2".to_string());
    s.step(&Message::username("alice".to_string()));
    let r = s.step(&Message::login_request("anything".to_string()));
    let reply = reply_of(r);
    assert_eq!(reply.msg_type, MessageType::Result(OperationResult::Fail));
}

#[test]
fn auth_failure_empty_hash() {
    let mut s = Session::new("T2".to_string());
    s.step(&Message::send_token("T1".to_string()));
    s.step(&Message::username("alice".to_string()));
    let r = s.step(&Message::login_request(String::new()));
    let reply = reply_of(r);
    assert_eq!(reply.msg_type, MessageType::Result(OperationResult::Fail));
}

#[test]
fn auth_failure_unknown_username() {
    let mut s = Session::new("T2".to_string());
    s.step(&Message::send_token("T1".to_string()));
    s.step(&Message::username("nobody".to_string()));
    let client_hash = compute_proof("T1", "T2", "secret");
    assert!(matches!(
        s.step(&Message::login_request(client_hash)),
        StepResult::NeedSecret
    ));
    // The store found no record: same Fail verdict as a wrong secret.
    let verdict = s.resolve_login(None);
    assert_eq!(verdict.msg_type, MessageType::Result(OperationResult::Fail));
    assert!(!s.authenticated);
}

#[test]
fn request_token_repeats_same_token() {
    let mut s = Session::new("fixed42".to_string());
    let first = reply_of(s.step(&Message::request_token()));
    let second = reply_of(s.step(&Message::request_token()));
    assert_eq!(first.msg_type, MessageType::SendToken);
    assert_eq!(second.msg_type, MessageType::SendToken);
    assert_eq!(first.get_body_value("token"), "fixed42");
    assert_eq!(second.get_body_value("token"), "fixed42");
    assert_eq!(s.server_token, "fixed42");
}

#[test]
fn client_result_is_violation() {
    let mut s = Session::new("T2".to_string());
    assert!(matches!(
        s.step(&Message::result(OperationResult::Success)),
        StepResult::Violation
    ));
    assert!(matches!(
        s.step(&Message::result(OperationResult::Fail)),
        StepResult::Violation
    ));
}

#[test]
fn start_draws_a_fresh_server_token() {
    let s = Session::start();
    assert_eq!(s.server_token.len(), 7);
    assert!(s.server_token.chars().all(|c| c.is_ascii_alphanumeric()));
    assert!(s.client_token.is_empty());
    assert!(s.username.is_empty());
    assert!(s.client_hash.is_empty());
    assert!(!s.authenticated);
}

#[test]
fn field_setters_overwrite() {
    let mut s = Session::new("T2".to_string());
    s.step(&Message::send_token("first".to_string()));
    s.step(&Message::send_token("second".to_string()));
    assert_eq!(s.client_token, "second");
    s.step(&Message::username("a".to_string()));
    s.step(&Message::username("b".to_string()));
    assert_eq!(s.username, "b");
}
