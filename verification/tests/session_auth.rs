use schedule_api::auth::authenticate;
use schedule_api::auth::extract_bearer;
use schedule_api::auth::login_verified;
use schedule_api::auth::logout;
use schedule_api::errors::AppError;
use schedule_api::models::LogoutRequest;
use schedule_api::models::Teacher;
use schedule_api::session::RedisState;
use schedule_api::session::SESSION_TTL_SECONDS;

fn teacher(id: i64, role: &str) -> Teacher {
    Teacher {
        id,
        login: "t".to_string(),
        password_hash: "h".to_string(),
        full_name: "T T".to_string(),
        role: role.to_string(),
    }
}

#[test]
fn create_then_resolve_returns_same_principal() {
    let mut sessions = RedisState::init();
    let token = sessions.create_session(42, 1_000);
    assert_eq!(token.len(), 36);
    assert_eq!(sessions.get_session(&token, 1_000), Some(42));
    assert_eq!(sessions.get_session(&token, 1_000 + SESSION_TTL_SECONDS - 1), Some(42));
}

#[test]
fn revoke_then_resolve_returns_absent() {
    let mut sessions = RedisState::init();
    let token = sessions.create_session(42, 1_000);
    sessions.delete_session(&token);
    assert_eq!(sessions.get_session(&token, 1_000), None);
}

#[test]
fn logout_revokes_the_presented_token() {
    let mut sessions = RedisState::init();
    let token = sessions.create_session(42, 1_000);
    let message = logout(&mut sessions, &LogoutRequest { token: token.clone() });
    assert_eq!(message, "Logged out");
    assert_eq!(sessions.get_session(&token, 1_000), None);
}

#[test]
fn revoking_an_absent_token_is_not_an_error() {
    let mut sessions = RedisState::init();
    sessions.delete_session(&"no-such-token".to_string());
    sessions.delete_session(&"no-such-token".to_string());
    assert_eq!(sessions.get_session(&"no-such-token".to_string(), 0), None);
}

#[test]
fn session_expires_after_ttl() {
    let mut sessions = RedisState::init();
    let token = sessions.create_session(7, 1_000);
    assert_eq!(sessions.get_session(&token, 1_000 + SESSION_TTL_SECONDS - 1), Some(7));
    assert_eq!(sessions.get_session(&token, 1_000 + SESSION_TTL_SECONDS), None);
    assert_eq!(sessions.get_session(&token, u64::MAX - 1), None);
}

#[test]
fn sessions_are_independent_entries() {
    let mut sessions = RedisState::init();
    let t1 = sessions.create_session(1, 100);
    let t2 = sessions.create_session(1, 200);
    sessions.delete_session(&t1);
    assert_eq!(sessions.get_session(&t1, 300), None);
    assert_eq!(sessions.get_session(&t2, 300), Some(1));
}

#[test]
fn extract_bearer_strips_the_scheme() {
    assert_eq!(extract_bearer(&"Bearer abc".to_string()), Some("abc".to_string()));
    assert_eq!(extract_bearer(&"Bearer ".to_string()), Some(String::new()));
    assert_eq!(extract_bearer(&"bearer abc".to_string()), None);
    assert_eq!(extract_bearer(&"Bear".to_string()), None);
    assert_eq!(extract_bearer(&"Token abc".to_string()), None);
}

#[test]
fn authenticate_rejects_missing_header() {
    let sessions = RedisState::init();
    match authenticate(&sessions, None, 0) {
        Err(AppError::BadRequest(m)) => assert_eq!(m, "Missing token"),
        other => panic!("unexpected outcome: {:?}", other),
    }
}

#[test]
fn authenticate_rejects_malformed_header() {
    let sessions = RedisState::init();
    let header = "Basic xyz".to_string();
    match authenticate(&sessions, Some(&header), 0) {
        Err(AppError::BadRequest(m)) => assert_eq!(m, "Missing token"),
        other => panic!("unexpected outcome: {:?}", other),
    }
}

#[test]
fn authenticate_rejects_unknown_token() {
    let sessions = RedisState::init();
    let header = "Bearer not-a-session".to_string();
    match authenticate(&sessions, Some(&header), 0) {
        Err(AppError::BadRequest(m)) => assert_eq!(m, "Invalid token"),
        other => panic!("unexpected outcome: {:?}", other),
    }
}

#[test]
fn authenticate_resolves_a_live_token() {
    let mut sessions = RedisState::init();
    let token = sessions.create_session(42, 1_000);
    let header = format!("Bearer {}", token);
    assert_eq!(authenticate(&sessions, Some(&header), 2_000).unwrap(), 42);
}

#[test]
fn authenticate_rejects_an_expired_token() {
    let mut sessions = RedisState::init();
    let token = sessions.create_session(42, 1_000);
    let header = format!("Bearer {}", token);
    match authenticate(&sessions, Some(&header), 1_000 + SESSION_TTL_SECONDS) {
        Err(AppError::BadRequest(m)) => assert_eq!(m, "Invalid token"),
        other => panic!("unexpected outcome: {:?}", other),
    }
}

#[test]
fn login_rejects_a_failed_password_check() {
    let mut sessions = RedisState::init();
    let t = teacher(5, "teacher");
    match login_verified(&t, false, &mut sessions, 1_000) {
        Err(AppError::BadRequest(m)) => assert_eq!(m, "Invalid password"),
        other => panic!("unexpected outcome: {:?}", other),
    }
}

#[test]
fn login_opens_a_session_for_the_principal() {
    let mut sessions = RedisState::init();
    let t = teacher(5, "teacher");
    let resp = login_verified(&t, true, &mut sessions, 1_000).unwrap();
    assert_eq!(resp.id, 5);
    assert_eq!(resp.role, "teacher");
    assert_eq!(resp.token.len(), 36);
    assert_eq!(sessions.get_session(&resp.token, 1_000), Some(5));
}
