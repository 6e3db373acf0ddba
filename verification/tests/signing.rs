use ftx_bot::sign;
use ftx_bot::text::parse_u64_text;
use ftx_bot::utils::{current_ts, millis_from, same_text, signature, signature_at, signing_message};

#[test]
fn current_ts_is_after_2021() {
    assert!(current_ts().unwrap() > 1_609_459_200_000);
}

#[test]
fn same_text_compares_contents() {
    assert!(same_text("rest", "rest"));
    assert!(!same_text("rest", "ws"));
    assert!(!same_text("", "a"));
}

#[test]
fn rest_message_has_method_api_and_endpoint() {
    assert_eq!(signing_message("1000", "/wallet/balances", "GET", "rest"), "1000GET/api/wallet/balances");
}

#[test]
fn other_api_message_is_websocket_login() {
    assert_eq!(signing_message("1000", "ws", "ws", "ws"), "1000websocket_login");
    assert_eq!(signing_message("1000", "/orders", "POST", "REST"), "1000websocket_login");
}

#[test]
fn signature_at_rest_request() {
    let (sig, ts) = signature_at("secret", 1000, "/wallet/balances", "GET", "rest");
    assert_eq!(ts, "1000");
    assert_eq!(sig, "5e1da5f6e48c6ed2fad26f8a72aa683b7406ae0623b131e0fbb9481d5fd9582a");
}

#[test]
fn signature_at_websocket_login() {
    let (sig, ts) = signature_at("secret", 1000, "ws", "ws", "ws");
    assert_eq!(ts, "1000");
    assert_eq!(sig, "59d646215641d1bf319523c65b3b0cd92526374a16b19149c0009c99342357a7");
}

#[test]
fn signature_at_empty_secret() {
    let (sig, _) = signature_at("", 0, "", "", "");
    // HMAC-SHA256 of "0websocket_login" under the empty key differs from that of the empty message
    assert_ne!(sig, "b613679a0814d9ec772f95d778c35fc5ff1697c493715653c6c712144292c5ad");
    assert_eq!(sig.len(), 64);
}

#[test]
fn signature_now_matches_its_timestamp() {
    let (sig, ts) = signature("secret", "/orders", "DELETE", "rest").unwrap();
    assert_eq!(sig.len(), 64);
    let t = parse_u64_text(&ts).expect("decimal timestamp");
    assert_eq!(signature_at("secret", t as u128, "/orders", "DELETE", "rest").0, sig);
}

#[test]
fn sign_signature_without_api_prefix() {
    let sig = sign::signature("secret", 1000, "/wallet/balances", "GET").unwrap();
    assert_eq!(sig, "f6807eb24337aa1e089b60469adf835e933e1d1252c815653c39076a6c7aa08e");
}

#[test]
fn sign_current_ts_is_the_clock() {
    let a = sign::current_ts().unwrap();
    let b = current_ts().unwrap();
    assert!(a <= b);
}

#[test]
fn millis_from_seconds_and_nanos() {
    assert_eq!(millis_from(0, 0), 0);
    assert_eq!(millis_from(1_650_000_000, 123_456_789), 1_650_000_000_123);
    assert_eq!(millis_from(2, 999_999_999), 2_999);
    assert_eq!(millis_from(u64::MAX, 999_999_999), u64::MAX as u128 * 1000 + 999);
}

#[test]
fn current_ts_agrees_with_std() {
    let before = std::time::SystemTime::now().duration_since(std::time::UNIX_EPOCH).unwrap().as_millis();
    let t = current_ts().unwrap();
    let after = std::time::SystemTime::now().duration_since(std::time::UNIX_EPOCH).unwrap().as_millis();
    assert!(before <= t && t <= after);
}
