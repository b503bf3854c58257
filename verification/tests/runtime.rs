use miyu::runtime::state::{
    resource_key, LoginFailure, TurnEngineState, TurnResourceCache, WebAuth,
    MAX_CACHED_TURN_RESOURCE_CONFIGS,
};
use miyu::runtime::{random_id_from, safe_error_message, validate_content, MAX_CONTENT_CHARS};

#[test]
fn content_is_trimmed_and_checked() {
    assert_eq!(validate_content("  hello \n".to_string()).unwrap(), "hello");
    let empty = validate_content("   ".to_string()).err().unwrap();
    assert_eq!(empty.status, 400);
    assert_eq!(empty.message, "content cannot be empty");
    let long = validate_content("x".repeat(MAX_CONTENT_CHARS + 1)).err().unwrap();
    assert_eq!(long.status, 413);
    assert_eq!(long.message, "content cannot exceed 20000 characters");
    assert!(validate_content("x".repeat(MAX_CONTENT_CHARS)).is_ok());
    let control = validate_content("a\u{7}b".to_string()).err().unwrap();
    assert_eq!(control.message, "content contains unsupported control characters");
    assert_eq!(validate_content("a\tb\r\nc".to_string()).unwrap(), "a\tb\r\nc");
}

#[test]
fn error_messages_are_made_safe() {
    assert_eq!(safe_error_message("bad\u{1b}[31m thing\nline\ttab"), "bad[31m thing\nline\ttab");
    assert_eq!(safe_error_message("\u{0}\u{1}"), "operation failed");
    assert_eq!(safe_error_message(" \n "), "operation failed");
    assert_eq!(safe_error_message(&"é".repeat(1500)).chars().count(), 1000);
    assert_eq!(random_id_from("run", "abc"), "run_abc");
}

#[test]
fn engine_state_labels() {
    let mut engine = TurnEngineState::new();
    assert_eq!(engine.label(), "cold");
    engine.set(TurnEngineState::INITIALIZING);
    assert_eq!(engine.label(), "initializing");
    assert!(!engine.is_ready());
    engine.set(TurnEngineState::READY);
    assert!(engine.is_ready());
    assert_eq!(engine.label(), "ready");
    engine.set(TurnEngineState::FAILED);
    assert_eq!(engine.label(), "failed");
    engine.set(9);
    assert_eq!(engine.label(), "cold");
}

#[test]
fn resource_cache_evicts_the_least_recently_used() {
    let a = resource_key(b"{\"model\":\"a\"}");
    let b = resource_key(b"{\"model\":\"b\"}");
    assert_ne!(a, b);
    assert_eq!(a, resource_key(b"{\"model\":\"a\"}"));
    assert_eq!(
        a.to_vec(),
        blake3::hash(b"{\"model\":\"a\"}").as_bytes().to_vec(),
    );

    let mut cache: TurnResourceCache<u32> = TurnResourceCache::new();
    for i in 0..MAX_CACHED_TURN_RESOURCE_CONFIGS as u32 {
        let mut key = [0u8; 32];
        key[0] = i as u8;
        cache.store(key, i);
    }
    let mut first = [0u8; 32];
    first[0] = 0;
    assert_eq!(cache.lookup(&first), Some(&0));
    let mut extra = [0u8; 32];
    extra[0] = 200;
    cache.store(extra, 200);
    let mut second = [0u8; 32];
    second[0] = 1;
    assert_eq!(cache.lookup(&second), None);
    assert_eq!(cache.lookup(&first), Some(&0));
    assert_eq!(cache.lookup(&extra), Some(&200));
    cache.store(extra, 201);
    assert_eq!(cache.lookup(&extra), Some(&201));
    cache.clear();
    assert_eq!(cache.lookup(&extra), None);
}

#[test]
fn web_logins_are_throttled_per_peer() {
    let mut open = WebAuth::new(None);
    assert!(!open.required());
    assert!(open.is_authenticated(None));
    assert_eq!(open.login("1.2.3.4", "x", 0, "t".to_string()), Ok(String::new()));

    let mut auth = WebAuth::new(Some("secret"));
    assert!(auth.required());
    assert!(!auth.is_authenticated(None));
    for attempt in 0..5 {
        assert_eq!(
            auth.login("1.2.3.4", "wrong", attempt * 1_000, "t".to_string()),
            Err(LoginFailure::Invalid)
        );
    }
    assert_eq!(
        auth.login("1.2.3.4", "secret", 10_000, "t0".to_string()),
        Err(LoginFailure::RateLimited)
    );
    assert_eq!(auth.login("5.6.7.8", "secret", 10_000, "t1".to_string()), Ok("t1".to_string()));
    assert!(auth.is_authenticated(Some("t1")));
    assert_eq!(auth.login("1.2.3.4", "secret", 61_000, "t2".to_string()), Ok("t2".to_string()));
    for i in 0..64 {
        auth.login("5.6.7.8", "secret", 70_000, format!("n{i}")).unwrap();
    }
    assert!(!auth.is_authenticated(Some("t1")));
    assert!(auth.is_authenticated(Some("n63")));
}

#[test]
fn random_tokens_are_url_safe_base64_without_padding() {
    assert_eq!(miyu::runtime::random_token_from(&vec![0xfb, 0xff]), "-_8");
    assert_eq!(miyu::runtime::random_token_from(&vec![]), "");
    assert_eq!(miyu::runtime::random_token_from(&vec![0u8; 32]).len(), 43);
    let token = miyu::runtime::random_token_from(&vec![1, 2, 3]);
    assert_eq!(miyu::runtime::random_id_from("sess", &token), "sess_AQID");
}

#[test]
fn resource_keys_are_blake3_hashes() {
    let expected: [u8; 32] = [
        0xaf, 0x13, 0x49, 0xb9, 0xf5, 0xf9, 0xa1, 0xa6, 0xa0, 0x40, 0x4d, 0xea, 0x36, 0xdc, 0xc9, 0x49,
        0x9b, 0xcb, 0x25, 0xc9, 0xad, 0xc1, 0x12, 0xb7, 0xcc, 0x9a, 0x93, 0xca, 0xe4, 0x1f, 0x32, 0x62,
    ];
    assert_eq!(resource_key(b""), expected);
}
