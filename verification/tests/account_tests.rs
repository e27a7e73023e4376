use bismillah::auth::{
    bearer_token, check_login, hash_new_password, jwt_secret, profile_update_outcome,
    registration_conflict, AuthErrorKind, Claims, ProfileField, ProfileUpdate, RegisterRequest,
    StoredUser, User, TOKEN_LIFETIME_SECS,
};

fn request(username: &str, email: &str, password: &str) -> RegisterRequest {
    RegisterRequest {
        username: username.to_string(),
        email: email.to_string(),
        password: password.to_string(),
    }
}

fn stored(hash: &str) -> StoredUser {
    StoredUser {
        id: "u-1".to_string(),
        username: "alice".to_string(),
        email: "alice@example.com".to_string(),
        password_hash: hash.to_string(),
        created_at: "2024-01-01T00:00:00Z".to_string(),
    }
}

fn user() -> User {
    User {
        id: "u-1".to_string(),
        username: "alice".to_string(),
        email: "alice@example.com".to_string(),
        created_at: "2024-01-01T00:00:00Z".to_string(),
    }
}

#[test]
fn registration_is_validated_in_order() {
    let (u, m) = request(" alice ", " alice@example.com ", "Secret123").validate().unwrap();
    assert_eq!(u, "alice");
    assert_eq!(m, "alice@example.com");

    let e = request("al", "bad", "x").validate().unwrap_err();
    assert_eq!(e.kind, AuthErrorKind::BadRequest);
    assert_eq!(e.status(), 400);
    assert_eq!(e.message, "Username must be at least 3 characters long");

    let e = request("alice", "bad", "x").validate().unwrap_err();
    assert_eq!(e.message, "Invalid email format");

    let e = request("alice", "a@b.co", "short").validate().unwrap_err();
    assert_eq!(e.message, "Password must be at least 8 characters long");
}

#[test]
fn conflict_is_409() {
    let e = registration_conflict();
    assert_eq!(e.status(), 409);
    assert_eq!(e.message, "Username or email already exists");
}

#[test]
fn registered_password_logs_in() {
    let hash = hash_new_password("Secret123").unwrap();
    assert_ne!(hash, "Secret123");
    let u = check_login(Some(stored(&hash)), "Secret123").unwrap();
    assert_eq!(u.id, "u-1");
    assert_eq!(u.username, "alice");
    assert_eq!(u.email, "alice@example.com");
    assert_eq!(u.created_at, "2024-01-01T00:00:00Z");
}

#[test]
fn wrong_password_is_refused() {
    let hash = hash_new_password("Secret123").unwrap();
    let e = check_login(Some(stored(&hash)), "Secret124").unwrap_err();
    assert_eq!(e.kind, AuthErrorKind::Unauthorized);
    assert_eq!(e.status(), 401);
    assert_eq!(e.message, "Invalid username or password");
}

#[test]
fn unknown_user_is_refused() {
    let e = check_login(None, "whatever").unwrap_err();
    assert_eq!(e.kind, AuthErrorKind::Unauthorized);
    assert_eq!(e.message, "Invalid username or password");
}

#[test]
fn unreadable_hash_is_an_internal_error() {
    let e = check_login(Some(stored("not a bcrypt hash")), "Secret123").unwrap_err();
    assert_eq!(e.kind, AuthErrorKind::Internal);
    assert_eq!(e.status(), 500);
    assert_eq!(e.message, "Authentication error");
}

#[test]
fn claims_expire_a_day_later() {
    let c = Claims::for_user(&user(), 1_700_000_000);
    assert_eq!(c.user_id, "u-1");
    assert_eq!(c.username, "alice");
    assert_eq!(c.exp, 1_700_000_000 + TOKEN_LIFETIME_SECS as usize);
    assert_eq!(TOKEN_LIFETIME_SECS, 86400);
}

#[test]
fn claims_at_a_given_time() {
    let c = Claims::claims_at(&user(), 1_700_000_000).unwrap();
    assert_eq!(c.user_id, "u-1");
    assert_eq!(c.username, "alice");
    assert_eq!(c.exp, 1_700_086_400);
    // A time before 1970 gives an expiry written as `as` writes it.
    let c = Claims::claims_at(&user(), -100_000).unwrap();
    assert_eq!(c.exp, (-13_600i64) as usize);
    assert!(Claims::claims_at(&user(), i64::MAX).is_none());
    assert!(Claims::claims_at(&user(), i64::MAX - 86_400).is_some());
}

#[test]
fn claims_issued_now() {
    let before = chrono::Utc::now().timestamp();
    let c = Claims::issue(&user()).unwrap();
    let after = chrono::Utc::now().timestamp();
    assert_eq!(c.user_id, "u-1");
    assert!(c.exp as i64 >= before + 86_400 && c.exp as i64 <= after + 86_400);
}

#[test]
fn secret_defaults() {
    assert_eq!(jwt_secret(None), "your-secret-key-change-in-production");
    assert_eq!(jwt_secret(Some("s3cr3t".to_string())), "s3cr3t");
}

#[test]
fn bearer_tokens() {
    assert_eq!(bearer_token(Some(b"Bearer abc.def".to_vec())).unwrap(), "abc.def");
    assert_eq!(bearer_token(Some(b"Bearer ".to_vec())).unwrap(), "");

    let e = bearer_token(None).unwrap_err();
    assert_eq!(e.status(), 401);
    assert_eq!(e.message, "Missing authorization header");

    let e = bearer_token(Some(b"Basic abc".to_vec())).unwrap_err();
    assert_eq!(e.message, "Invalid authorization format");

    let e = bearer_token(Some(b"bearer abc".to_vec())).unwrap_err();
    assert_eq!(e.message, "Invalid authorization format");

    let e = bearer_token(Some(vec![b'B', 0xff])).unwrap_err();
    assert_eq!(e.message, "Invalid authorization header");
}

#[test]
fn profile_update_plans_columns_in_order() {
    let update = ProfileUpdate {
        username: Some("bobby".to_string()),
        email: Some("b@c.d".to_string()),
        preferences: Some("{\"theme\":\"dark\"}".to_string()),
    };
    let fields = update.plan().unwrap();
    assert_eq!(fields.len(), 3);
    assert!(matches!(&fields[0], ProfileField::Username(n) if n == "bobby"));
    assert!(matches!(&fields[1], ProfileField::Email(m) if m == "b@c.d"));
    assert!(matches!(&fields[2], ProfileField::Preferences(p) if p == "{\"theme\":\"dark\"}"));
}

#[test]
fn profile_update_refusals() {
    let e = ProfileUpdate { username: Some("ab".to_string()), email: None, preferences: None }
        .plan()
        .unwrap_err();
    assert_eq!(e.status(), 400);
    assert_eq!(e.message, "Username must be between 3 and 50 characters");

    let e = ProfileUpdate { username: None, email: Some("nowhere".to_string()), preferences: None }
        .plan()
        .unwrap_err();
    assert_eq!(e.message, "Invalid email format");

    let e = ProfileUpdate { username: None, email: None, preferences: None }.plan().unwrap_err();
    assert_eq!(e.message, "No valid fields to update");
}

#[test]
fn profile_update_outcomes() {
    let e = profile_update_outcome(0).unwrap_err();
    assert_eq!(e.kind, AuthErrorKind::NotFound);
    assert_eq!(e.status(), 404);
    assert_eq!(e.message, "User not found");
    assert!(profile_update_outcome(1).is_ok());
}

#[test]
fn bearer_header_round_trip() {
    for token in ["abc", "x.y.z", "with space", ""] {
        let header = format!("Bearer {}", token).into_bytes();
        assert_eq!(bearer_token(Some(header)).unwrap(), token);
    }
}
