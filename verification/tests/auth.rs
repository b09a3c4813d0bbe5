use handshake::auth::{compute_proof, LoginData};

#[test]
fn compute_proof_is_deterministic() {
    let a = compute_proof("T1", "T2", "secret");
    let b = compute_proof("T1", "T2", "secret");
    assert_eq!(a, b);
}

#[test]
fn compute_proof_exact_digest() {
    assert_eq!(
        compute_proof("a", "b", "s"),
        "78da4a596a88bc5114f071ba590793bf3b37329d761230f33129983a747f414e"
    );
}

#[test]
fn compute_proof_differs_on_secret() {
    assert_ne!(
        compute_proof("T1", "T2", "secret"),
        compute_proof("T1", "T2", "Secret")
    );
}

#[test]
fn compute_proof_is_order_sensitive() {
    assert_ne!(compute_proof("a", "b", "s"), compute_proof("b", "a", "s"));
}

#[test]
fn login_data_holds_fresh_token() {
    let ld = LoginData::new("alice".to_string(), "pw".to_string());
    assert_eq!(ld.username, "alice");
    assert_eq!(ld.password, "pw");
    assert_eq!(ld.client_token.len(), 7);
    assert!(ld.client_token.chars().all(|c| c.is_ascii_alphanumeric()));
    assert!(ld.server_token.is_empty());
}

#[test]
fn login_data_hash_matches_compute_proof() {
    let mut ld = LoginData::new("alice".to_string(), "pw".to_string());
    ld.server_token = "Srv".to_string();
    assert_eq!(
        ld.get_hash(),
        compute_proof(&ld.client_token, "Srv", "pw")
    );
}

#[test]
fn two_sessions_draw_independent_tokens() {
    // Seven random alphanumeric characters colliding twice in a row is
    // astronomically unlikely; a collision here would mean the token is not
    // drawn at all.
    let a = LoginData::new("u".to_string(), "p".to_string());
    let b = LoginData::new("u".to_string(), "p".to_string());
    assert!(a.client_token != b.client_token || {
        let c = LoginData::new("u".to_string(), "p".to_string());
        c.client_token != a.client_token
    });
}
