use chathub::auth::authenticate;
use chathub::auth::complete_login;
use chathub::auth::AuthOutcome;
use chathub::crypto::salted_hash;
use chathub::messages::AuthMessage;
use chathub::state::ServerState;

fn login_request(username: &str, password: &str) -> AuthMessage {
    AuthMessage {
        username: username.to_string(),
        auth_token: None,
        password: Some(password.to_string()),
    }
}

fn fresh_state() -> ServerState {
    ServerState::new(vec!["general".to_string()])
}

#[test]
fn first_login_registers_and_grants_a_token() {
    let mut state = fresh_state();
    let outcome = authenticate(&mut state, &login_request("alice", "hunter2"));
    let response = match outcome {
        AuthOutcome::Granted(response) => response,
        AuthOutcome::Rejected => panic!("first login must pass"),
    };
    assert_eq!(response.username, "alice");
    assert!(response.password.is_none());
    let token = response.auth_token.expect("a granted login carries a token");
    assert_eq!(token.chars().count(), 100);
    assert!(token.chars().all(|c| c.is_ascii_alphanumeric()));
}

#[test]
fn first_password_wins() {
    let mut state = fresh_state();
    let first = authenticate(&mut state, &login_request("alice", "hunter2"));
    assert!(matches!(first, AuthOutcome::Granted(_)));
    // The same password passes again.
    let again = authenticate(&mut state, &login_request("alice", "hunter2"));
    assert!(matches!(again, AuthOutcome::Granted(_)));
    // A different password is rejected from now on.
    let wrong = authenticate(&mut state, &login_request("alice", "hunter3"));
    assert!(matches!(wrong, AuthOutcome::Rejected));
    let empty = authenticate(&mut state, &login_request("alice", ""));
    assert!(matches!(empty, AuthOutcome::Rejected));
}

#[test]
fn login_without_password_is_rejected() {
    let mut state = fresh_state();
    let request = AuthMessage {
        username: "alice".to_string(),
        auth_token: None,
        password: None,
    };
    assert!(matches!(authenticate(&mut state, &request), AuthOutcome::Rejected));
}

#[test]
fn each_user_gets_a_fifty_character_salt() {
    let mut state = fresh_state();
    authenticate(&mut state, &login_request("alice", "hunter2"));
    let salt = state
        .creds
        .salts
        .get(&"alice".to_string())
        .expect("a login stores a salt")
        .clone();
    assert_eq!(salt.chars().count(), 50);
    assert!(salt.chars().all(|c| c.is_ascii_alphanumeric()));
    // The salt stays once created.
    authenticate(&mut state, &login_request("alice", "hunter2"));
    let later = state.creds.salts.get(&"alice".to_string()).unwrap().clone();
    assert_eq!(salt, later);
}

#[test]
fn relogin_issues_a_fresh_token() {
    let mut state = fresh_state();
    let first = match authenticate(&mut state, &login_request("alice", "hunter2")) {
        AuthOutcome::Granted(response) => response.auth_token.unwrap(),
        AuthOutcome::Rejected => panic!("first login must pass"),
    };
    let second = match authenticate(&mut state, &login_request("alice", "hunter2")) {
        AuthOutcome::Granted(response) => response.auth_token.unwrap(),
        AuthOutcome::Rejected => panic!("relogin with the right password must pass"),
    };
    assert_ne!(first, second);
}

#[test]
fn complete_login_registers_the_connection_once() {
    let mut state = fresh_state();
    authenticate(&mut state, &login_request("alice", "hunter2"));
    complete_login(&mut state, "alice".to_string());
    complete_login(&mut state, "alice".to_string());
    assert_eq!(state.registry.connections, vec!["alice".to_string()]);
    let recorded = state.users.get(&"alice".to_string()).copied();
    assert_eq!(recorded, Some(chathub::dm::hash_username("alice")));
}

#[test]
fn salted_hash_is_a_rendered_digest() {
    let digest = salted_hash("hunter2", "SALTSALT");
    // 32 digest bytes render to 44 base64 characters.
    assert_eq!(digest.chars().count(), 44);
    // The digest is not the input handed back.
    assert_ne!(digest, "hunter2SALTSALT");
    assert_ne!(digest, "hunter2");
    // Deterministic, and sensitive to both parts.
    assert_eq!(digest, salted_hash("hunter2", "SALTSALT"));
    assert_ne!(digest, salted_hash("hunter3", "SALTSALT"));
    assert_ne!(digest, salted_hash("hunter2", "SALTSALU"));
}
