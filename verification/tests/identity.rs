use identity_core::account::{AccountService, LoginOutcome, RegisterOutcome};
use identity_core::api::{
    check_jws_token, default_image_path, do_json, image_response, profile_data_name,
    profile_data_suid, profile_image_path, safe_user_json, upload_image_path, users_json,
};
use identity_core::email::check_email;
use identity_core::headers::HeaderMap;
use identity_core::origin_control::origin_control;
use identity_core::store::IdentityStore;
use identity_core::token::{decode_at, issue_at};
use identity_core::user::{
    authenticate, generate_suid, generate_uuid, get_expiration_time, AuthorizationStatus,
    SafeUser, User, UserClaims,
};
use identity_core::utils::{get_headers_checked, get_required_headers, get_unix_epoch_time, hash};

fn secret() -> Vec<u8> {
    b"Secret123".to_vec()
}

fn service() -> AccountService {
    AccountService::new(secret())
}

#[test]
fn valid_emails_accepted() {
    assert!(check_email("ana@example.com"));
    assert!(check_email("a@b.c"));
    assert!(check_email("first.last+tag@sub-domain.co.uk"));
    assert!(check_email("  ana@example.com  "));
    assert!(check_email("A_B-C+d.e@x-1.y"));
}

#[test]
fn invalid_emails_rejected() {
    assert!(!check_email("no-at-sign.example.com"));
    assert!(!check_email("missing@dotless"));
    assert!(!check_email("@example.com"));
    assert!(!check_email("a@.com"));
    assert!(!check_email("a@b."));
    assert!(!check_email(""));
    assert!(!check_email("two@@b.c"));
    assert!(!check_email("spa ce@b.c"));
}

#[test]
fn hash_is_deterministic_and_spreads() {
    assert_eq!(hash("secret1"), hash("secret1"));
    assert_ne!(hash("secret1"), hash("secret2"));
    assert_eq!(hash("").len(), 64);
    // SHA3-256 of the empty string, in lowercase hexadecimal.
    assert_eq!(
        hash(""),
        "a7ffc6f8bf1ed76651c14756a061d662f580ff4de43b49fa82d80a4b80f8434a"
    );
}

#[test]
fn register_then_username_taken() {
    let mut svc = service();
    let r1 = svc.register("ana", "Ana", "secret1", "ana@example.com");
    assert_eq!(r1, RegisterOutcome::Success);
    let r2 = svc.register("ana", "Other", "secret2", "other@example.com");
    assert_eq!(r2, RegisterOutcome::UsernameTaken);
}

#[test]
fn register_then_email_taken() {
    let mut svc = service();
    assert_eq!(
        svc.register("ana", "Ana", "secret1", "ana@example.com"),
        RegisterOutcome::Success
    );
    assert_eq!(
        svc.register("bob", "Bob", "secret2", "ana@example.com"),
        RegisterOutcome::EmailTaken
    );
}

#[test]
fn register_rejects_bad_email() {
    let mut svc = service();
    assert_eq!(
        svc.register("ana", "Ana", "secret1", "not-an-email"),
        RegisterOutcome::InvalidEmail
    );
    assert_eq!(svc.store.count(), 0);
}

#[test]
fn login_flows() {
    let mut svc = service();
    assert_eq!(
        svc.register("ana", "Ana", "secret1", "ana@example.com"),
        RegisterOutcome::Success
    );
    match svc.login("x@y.com", "whatever") {
        LoginOutcome::EmailNotFound => {}
        other => panic!("expected EmailNotFound, got {:?}", other),
    }
    match svc.login("ana@example.com", "wrong") {
        LoginOutcome::InvalidCredentials => {}
        other => panic!("expected InvalidCredentials, got {:?}", other),
    }
    let stored_suid = svc.store.find_by_username("ana").unwrap().suid.clone();
    match svc.login("ana@example.com", "secret1") {
        LoginOutcome::Success { token, suid } => {
            assert!(!token.is_empty());
            assert_eq!(suid, stored_suid);
        }
        other => panic!("expected Success, got {:?}", other),
    }
}

#[test]
fn issued_token_verifies_with_same_claims() {
    let mut svc = service();
    assert_eq!(
        svc.register("ana", "Ana", "secret1", "ana@example.com"),
        RegisterOutcome::Success
    );
    let rec = svc.store.find_by_username("ana").unwrap();
    let uid = rec.uid.clone();
    let suid = rec.suid.clone();
    let token = match svc.login("ana@example.com", "secret1") {
        LoginOutcome::Success { token, .. } => token,
        other => panic!("expected Success, got {:?}", other),
    };
    let claims = User::decode__JWT__token(&token, &secret()).expect("fresh token must verify");
    assert_eq!(claims.username, "ana");
    assert_eq!(claims.uid, uid);
    assert_eq!(claims.suid, suid);
    assert!((claims.exp as u64) >= get_unix_epoch_time());
}

#[test]
fn claims_with_escapes_round_trip() {
    let claims = UserClaims {
        username: "an\"a\\b/c".to_string(),
        uid: "uid-1".to_string(),
        suid: "suid-1".to_string(),
        exp: usize::MAX,
    };
    let token = issue_at(&claims, b"k");
    let back = decode_at(&token, b"k", 0).expect("token must decode");
    assert_eq!(back.username, claims.username);
    assert_eq!(back.uid, claims.uid);
    assert_eq!(back.suid, claims.suid);
    assert_eq!(back.exp, claims.exp);
}

#[test]
fn expired_token_fails() {
    let claims = UserClaims {
        username: "ana".to_string(),
        uid: "u".to_string(),
        suid: "s".to_string(),
        exp: 1000,
    };
    let token = issue_at(&claims, b"k");
    assert!(decode_at(&token, b"k", 1000).is_ok());
    assert!(decode_at(&token, b"k", 1001).is_err());
    assert!(User::decode__JWT__token(&token, b"k").is_err());
}

#[test]
fn generate_jwt_issues_verifiable_token() {
    let user = User {
        username: "ana".to_string(),
        displayname: "Ana".to_string(),
        password: hash("secret1"),
        email: "ana@example.com".to_string(),
        uid: generate_uuid(),
        suid: generate_suid(),
    };
    let token = User::generate_JWT(user.clone(), &secret()).expect("signing must succeed");
    let claims = User::decode__JWT__token(&token, &secret()).expect("fresh token must verify");
    assert_eq!(claims.username, "ana");
}

#[test]
fn tampered_token_rejected() {
    let claims = UserClaims {
        username: "ana".to_string(),
        uid: "u".to_string(),
        suid: "s".to_string(),
        exp: usize::MAX,
    };
    let token = issue_at(&claims, b"k");
    let mut tampered = token.clone();
    let last = tampered.pop().unwrap();
    tampered.push(if last == 'A' { 'B' } else { 'A' });
    assert!(decode_at(&tampered, b"k", 0).is_err());
    // a different secret must not verify it either
    assert!(decode_at(&token, b"other", 0).is_err());
}

#[test]
fn extract_authorization_statuses() {
    let mut svc = service();
    assert_eq!(
        svc.register("ana", "Ana", "secret1", "ana@example.com"),
        RegisterOutcome::Success
    );
    let token = match svc.login("ana@example.com", "secret1") {
        LoginOutcome::Success { token, .. } => token,
        other => panic!("expected Success, got {:?}", other),
    };

    let mut headers = HeaderMap::new();
    headers.insert("authorization".to_string(), format!("Bearer {}", token));
    match authenticate(&headers, &secret()) {
        AuthorizationStatus::Authorized(c) => assert_eq!(c.username, "ana"),
        other => panic!("expected Authorized, got {:?}", other),
    }

    let empty = HeaderMap::new();
    match authenticate(&empty, &secret()) {
        AuthorizationStatus::Error => {}
        other => panic!("expected Error, got {:?}", other),
    }

    let mut bad = HeaderMap::new();
    bad.insert("authorization".to_string(), format!("Bearer {}x", token));
    match authenticate(&bad, &secret()) {
        AuthorizationStatus::Unauthorized => {}
        other => panic!("expected Unauthorized, got {:?}", other),
    }

    // the alternate-cased key is honoured too
    let mut alt = HeaderMap::new();
    alt.insert("Authorization".to_string(), format!("Bearer {}", token));
    match authenticate(&alt, &secret()) {
        AuthorizationStatus::Authorized(c) => assert_eq!(c.username, "ana"),
        other => panic!("expected Authorized, got {:?}", other),
    }
}

#[test]
fn safe_view_drops_private_fields() {
    let user = User {
        username: "ana".to_string(),
        displayname: "Ana".to_string(),
        password: hash("secret1"),
        email: "ana@example.com".to_string(),
        uid: generate_uuid(),
        suid: generate_suid(),
    };
    let digest = user.password.clone();
    let email = user.email.clone();
    let uid = user.uid.clone();
    let suid = user.suid.clone();
    let safe = User::to_safe(user);
    assert_eq!(safe.username, "ana");
    assert_eq!(safe.displayname, "Ana");
    assert_eq!(safe.suid, suid);
    let json = safe_user_json(&safe);
    assert!(!json.contains(&digest));
    assert!(!json.contains(&email));
    assert!(!json.contains(&uid));
}

#[test]
fn safe_user_json_exact() {
    let safe = SafeUser {
        username: "an\"a".to_string(),
        displayname: "Ana".to_string(),
        suid: "s1".to_string(),
    };
    assert_eq!(
        safe_user_json(&safe),
        "{\"username\":\"an\\\"a\",\"displayname\":\"Ana\",\"suid\":\"s1\"}"
    );
}

#[test]
fn do_json_exact() {
    assert_eq!(
        do_json(400, "Invalid headers"),
        "{\"status\": 400, \"message\": \"Invalid headers\"}"
    );
    assert_eq!(do_json(0, ""), "{\"status\": 0, \"message\": \"\"}");
}

#[test]
fn profile_lookups() {
    let mut svc = service();
    assert_eq!(
        svc.register("ana", "Ana", "secret1", "ana@example.com"),
        RegisterOutcome::Success
    );
    let suid = svc.store.find_by_username("ana").unwrap().suid.clone();
    let by_suid = profile_data_suid(&svc.store, &suid).expect("must find by suid");
    assert_eq!(by_suid.username, "ana");
    let by_name = profile_data_name(&svc.store, "ana").expect("must find by name");
    assert_eq!(by_name.suid, suid);
    assert!(profile_data_suid(&svc.store, "missing").is_none());
    assert!(profile_data_name(&svc.store, "missing").is_none());
}

#[test]
fn check_jws_token_reports_suid() {
    let claims = UserClaims {
        username: "ana".to_string(),
        uid: "u".to_string(),
        suid: "s1".to_string(),
        exp: usize::MAX,
    };
    let token = issue_at(&claims, &secret());
    let body = check_jws_token(&token, &secret()).expect("valid token");
    assert_eq!(body, "{\"suid\":\"s1\"}");
    assert!(check_jws_token("not-a-token", &secret()).is_none());
}

#[test]
fn store_listing_and_deletion() {
    let mut svc = service();
    assert_eq!(
        svc.register("ana", "Ana", "secret1", "ana@example.com"),
        RegisterOutcome::Success
    );
    assert_eq!(
        svc.register("bob", "Bob", "secret2", "bob@example.com"),
        RegisterOutcome::Success
    );
    let rec = svc.store.find_by_username("ana").unwrap();
    let expected_ana = format!(
        "{{\"username\":\"ana\",\"displayname\":\"Ana\",\"password\":\"{}\",\"email\":\"ana@example.com\",\"uid\":\"{}\",\"suid\":\"{}\"}}",
        hash("secret1"),
        rec.uid,
        rec.suid
    );
    let listing = users_json(&svc.store);
    assert!(listing.starts_with('['));
    assert!(listing.ends_with(']'));
    assert!(listing.contains(&expected_ana));
    assert!(listing.contains("\"username\":\"bob\""));

    let suid = svc.store.find_by_username("ana").unwrap().suid.clone();
    assert_eq!(svc.store.delete_by_suid(&suid), 1);
    assert_eq!(svc.store.delete_by_suid(&suid), 0);
    assert_eq!(svc.store.count(), 1);
    assert_eq!(svc.store.delete_all(), 1);
    assert_eq!(svc.store.count(), 0);
}

#[test]
fn header_utilities() {
    let mut headers = HeaderMap::new();
    headers.insert("email".to_string(), "ana@example.com".to_string());
    headers.insert("password".to_string(), "secret1".to_string());
    let keys = vec!["email".to_string(), "password".to_string()];
    let vals = get_headers_checked(&headers, &keys).expect("all present");
    assert_eq!(vals, vec!["ana@example.com".to_string(), "secret1".to_string()]);
    let missing = vec!["email".to_string(), "token".to_string()];
    assert!(get_headers_checked(&headers, &missing).is_none());

    assert_eq!(
        get_required_headers("create_account"),
        vec!["username", "displayname", "password", "email"]
    );
    assert_eq!(get_required_headers("login"), vec!["email", "password"]);
    assert_eq!(get_required_headers("check_jws_token"), vec!["token"]);
    assert!(get_required_headers("unknown").is_empty());
}

#[test]
fn origin_control_requires_host() {
    let mut with_host = HeaderMap::new();
    with_host.insert("Host".to_string(), "example.com".to_string());
    assert_eq!(origin_control(&with_host), Ok(()));

    let mut empty_host = HeaderMap::new();
    empty_host.insert("Host".to_string(), "".to_string());
    assert_eq!(origin_control(&empty_host), Err(401));

    let none = HeaderMap::new();
    assert_eq!(origin_control(&none), Err(401));
}

#[test]
fn identifier_generation() {
    let uid = generate_uuid();
    let suid = generate_suid();
    assert_eq!(uid.len(), 36);
    assert_eq!(suid.len(), 32);
    assert_ne!(generate_uuid(), uid);
    assert_ne!(generate_suid(), suid);
    assert_eq!(uid.matches('-').count(), 4);
    assert!(!suid.contains('-'));
}

#[test]
fn expiration_is_thirty_days_out() {
    let before = get_unix_epoch_time();
    let exp = get_expiration_time() as u64;
    let after = get_unix_epoch_time();
    assert!(exp >= before + 2592000);
    assert!(exp <= after + 2592000);
}

#[test]
fn image_paths_and_response() {
    assert_eq!(upload_image_path("abc"), "uploads/abc.png");
    assert_eq!(profile_image_path("ana"), "uploads/ana.jpg");
    assert_eq!(default_image_path(), "static/images/default-user.jpg");

    let body = image_response(&b"hello".to_vec());
    let expected_header =
        b"HTTP/1.1 200 OK\r\nContent-type: image/png\r\nTransfer-Encoding: chunked\r\n\r\n";
    assert!(body.starts_with(expected_header));
    let chunked = &body[expected_header.len()..];
    assert_eq!(chunked, b"5\r\nhello\r\n0\r\n\r\n");
}
