use idempotent_proxy::auth::{ecdsa_sign, ed25519_sign, TokenError};
use idempotent_proxy::dispatch::{plan_for, proxy, Action, Event, Flight, Inbound, Reply};
use idempotent_proxy::handler::{extract_header, is_hop, AppState, AuthError};
use base64::Engine;

fn app() -> AppState {
    AppState {
        agents: vec![],
        url_vars: vec![],
        header_vars: vec![],
        ecdsa_pub_keys: vec![],
        ed25519_pub_keys: vec![],
        cache_ttl: 60_000,
        poll_interval: 100,
        max_response_bytes: 2_097_152,
    }
}

fn bearer(token: &[u8]) -> String {
    format!("Bearer {}", base64::engine::general_purpose::URL_SAFE_NO_PAD.encode(token))
}

fn inbound(authorization: Option<&str>) -> Inbound {
    let mut headers = vec![
        ("idempotency-key".to_string(), b"k1".to_vec()),
        ("x-forwarded-host".to_string(), b"api.example.com".to_vec()),
    ];
    if let Some(value) = authorization {
        headers.push(("proxy-authorization".to_string(), value.as_bytes().to_vec()));
    }
    Inbound { method: "POST".to_string(), path: "/foo".to_string(), path_and_query: None, headers }
}

#[test]
fn handler_test_challenge() {
    let secret = [11u8; 32];
    let public = ed25519_dalek::SigningKey::from_bytes(&secret).verifying_key().to_bytes();
    let mut app = app();
    app.ed25519_pub_keys = vec![public];

    let token = ed25519_sign(&secret, 2_000, "alice".to_string());
    assert_eq!(app.verify_token_at(&bearer(&token), 1_000).unwrap(), "alice");
    let plan = plan_for(&app, inbound(Some(&bearer(&token))), 1_000).unwrap();
    assert_eq!(plan.key, "alice:POST:k1");
}

#[test]
fn test_challenge() {
    let secret = [21u8; 32];
    let key = k256::ecdsa::SigningKey::from_slice(&secret).unwrap();
    let mut app = app();
    app.ecdsa_pub_keys = vec![k256::ecdsa::VerifyingKey::from(&key).to_sec1_bytes().to_vec()];
    let token = ecdsa_sign(&secret, 2_000, "alice".to_string()).unwrap();
    assert_eq!(app.verify_token_at(&bearer(&token), 1_000).unwrap(), "alice");
}

#[test]
fn an_expired_token_is_answered_407() {
    let secret = [11u8; 32];
    let public = ed25519_dalek::SigningKey::from_bytes(&secret).verifying_key().to_bytes();
    let mut app = app();
    app.ed25519_pub_keys = vec![public];
    let token = ed25519_sign(&secret, 2_000, "alice".to_string());

    let (state, action) = proxy(
        &app,
        Flight::Arrived,
        Event::Request { inbound: inbound(Some(&bearer(&token))), now: 2_011 },
    );
    assert!(matches!(state, Flight::Done));
    match action {
        Action::Reply(Reply::Failure { status, message }) => {
            assert_eq!(status, 407);
            assert!(message.starts_with("proxy authentication"));
            assert_eq!(message, "proxy authentication verify failed: token expired");
        }
        _ => panic!("a refusal"),
    }
    // within the drift the token still counts
    assert!(plan_for(&app, inbound(Some(&bearer(&token))), 2_010).is_ok());
}

#[test]
fn tokens_are_refused_by_kind() {
    let secret = [11u8; 32];
    let public = ed25519_dalek::SigningKey::from_bytes(&secret).verifying_key().to_bytes();
    let mut app = app();
    app.ed25519_pub_keys = vec![public];
    let token = ed25519_sign(&[12u8; 32], 2_000, "alice".to_string());

    let err = app.verify_token_at("Basic abc", 0).unwrap_err();
    assert!(matches!(err, AuthError::Header));
    assert_eq!(err.message(), "invalid proxy-authorization header");
    let err = app.verify_token_at("", 0).unwrap_err();
    assert!(matches!(err, AuthError::Header));
    let err = app.verify_token_at("Bearer !!!", 0).unwrap_err();
    assert!(matches!(err, AuthError::Encoding(_)));
    assert!(!err.message().is_empty());
    let err = app.verify_token_at(&bearer(&token), 0).unwrap_err();
    assert!(matches!(err, AuthError::Token(TokenError::Ed25519Verify)));
    assert_eq!(err.message(), "proxy authentication verify failed: failed to verify Ed25519 signature");
    let err = app.verify_token_at(&bearer(b"junk"), 0).unwrap_err();
    assert_eq!(err.message(), "proxy authentication verify failed: failed to decode CBOR data");

    let none = self::app();
    let err = none.verify_token_at(&bearer(&token), 0).unwrap_err();
    assert!(matches!(err, AuthError::Unconfigured));
    assert_eq!(err.message(), "proxy authentication verify failed");
    // the clock of the machine is past the expiry by far
    assert!(app.verify_token(&bearer(&ed25519_sign(&secret, 2_000, "alice".to_string()))).is_err());

    // a request without the header is refused where keys are configured
    match plan_for(&app, inbound(None), 0) {
        Err(Reply::Failure { status, message }) => {
            assert_eq!((status, message.as_str()), (407, "invalid proxy-authorization header"))
        }
        _ => panic!("a refusal"),
    }
    // a malformed token is a bad request, a token that is not accepted is not
    let status_of = |authorization: &str| match plan_for(&app, inbound(Some(authorization)), 0) {
        Err(Reply::Failure { status, .. }) => status,
        _ => panic!("a refusal"),
    };
    assert_eq!(status_of("Basic abc"), 400);
    assert_eq!(status_of("Bearer !!!"), 400);
    assert_eq!(status_of(&bearer(b"junk")), 400);
    assert_eq!(status_of(&bearer(&token)), 407);
    assert_eq!(AuthError::Unconfigured.status(true), 407);
    assert_eq!(AuthError::Header.status(false), 407);
}

#[test]
fn ecdsa_keys_are_tried_before_ed25519_keys() {
    let ed_secret = [11u8; 32];
    let ed_public = ed25519_dalek::SigningKey::from_bytes(&ed_secret).verifying_key().to_bytes();
    let ec_secret = [21u8; 32];
    let ec_key = k256::ecdsa::SigningKey::from_slice(&ec_secret).unwrap();
    let ec_public = k256::ecdsa::VerifyingKey::from(&ec_key).to_sec1_bytes().to_vec();
    let mut app = app();
    app.ed25519_pub_keys = vec![ed_public];
    app.ecdsa_pub_keys = vec![ec_public];

    let ec_token = ecdsa_sign(&ec_secret, 2_000, "bob".to_string()).unwrap();
    assert_eq!(app.verify_token_at(&bearer(&ec_token), 0).unwrap(), "bob");
    let ed_token = ed25519_sign(&ed_secret, 2_000, "alice".to_string());
    let err = app.verify_token_at(&bearer(&ed_token), 0).unwrap_err();
    assert!(matches!(err, AuthError::Token(TokenError::Secp256k1Verify)));
}

#[test]
fn subjects_outside_the_allow_list_are_answered_403() {
    let secret = [11u8; 32];
    let public = ed25519_dalek::SigningKey::from_bytes(&secret).verifying_key().to_bytes();
    let mut app = app();
    app.ed25519_pub_keys = vec![public];
    app.agents = vec!["bob".to_string(), "carol".to_string()];
    let token = ed25519_sign(&secret, 2_000, "alice".to_string());
    match plan_for(&app, inbound(Some(&bearer(&token))), 0) {
        Err(Reply::Failure { status, message }) => {
            assert_eq!((status, message.as_str()), (403, "agent alice is not allowed"))
        }
        _ => panic!("a refusal"),
    }
    app.agents.push("alice".to_string());
    assert!(plan_for(&app, inbound(Some(&bearer(&token))), 0).is_ok());

    let mut open = self::app();
    open.agents = vec!["bob".to_string()];
    match plan_for(&open, inbound(None), 0) {
        Err(Reply::Failure { status, message }) => {
            assert_eq!((status, message.as_str()), (403, "agent ANON is not allowed"))
        }
        _ => panic!("a refusal"),
    }
}

#[test]
fn the_first_value_of_a_header_counts() {
    let headers = vec![
        ("a".to_string(), b"1".to_vec()),
        ("b".to_string(), vec![0xc3, 0xa9]),
        ("a".to_string(), b"2".to_vec()),
        ("b".to_string(), b"text".to_vec()),
    ];
    assert_eq!(extract_header(&headers, "a", "none".to_string()), "1");
    assert_eq!(extract_header(&headers, "b", "none".to_string()), "none");
    assert_eq!(extract_header(&headers, "c", "none".to_string()), "none");
    assert_eq!(extract_header(&headers, "A", String::new()), "");
    assert!(is_hop("host") && is_hop("x-forwarded-proto") && !is_hop("Host") && !is_hop("accept"));
}
