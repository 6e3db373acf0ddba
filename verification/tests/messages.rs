use ftx_bot::rest_api::{auth_header, candles_url, market_url, modify_order_endpoint, order_endpoint, url};
use ftx_bot::utils::{current_ts, signature_at};
use ftx_bot::websocket;
use ftx_bot::ws::{auth_msg, login_request, subscribe, unsubscribe, ChannelRequest};

fn req(op: &str, channel: &str, market: &str) -> ChannelRequest {
    ChannelRequest { op: op.to_string(), channel: channel.to_string(), market: market.to_string() }
}

#[test]
fn subscribe_to_named_market() {
    assert_eq!(subscribe("ticker", Some("ETH-PERP")), req("subscribe", "ticker", "ETH-PERP"));
}

#[test]
fn subscribe_defaults_to_btc_perp() {
    assert_eq!(subscribe("trades", None), req("subscribe", "trades", "BTC-PERP"));
}

#[test]
fn unsubscribe_request() {
    assert_eq!(unsubscribe("ticker", "SOL-PERP"), req("unsubscribe", "ticker", "SOL-PERP"));
}

#[test]
fn subscribe_to_several_markets() {
    let markets = vec!["ETH-PERP", "SOL-PERP"];
    assert_eq!(
        websocket::subscribe("ticker", Some(&markets)),
        vec![req("subscribe", "ticker", "ETH-PERP"), req("subscribe", "ticker", "SOL-PERP")]
    );
}

#[test]
fn subscribe_to_no_market_list() {
    let empty: Vec<&str> = Vec::new();
    assert_eq!(websocket::subscribe("ticker", Some(&empty)), vec![req("subscribe", "ticker", "BTC-PERP")]);
    assert_eq!(websocket::subscribe("ticker", None), vec![req("subscribe", "ticker", "BTC-PERP")]);
}

#[test]
fn login_request_reads_timestamp() {
    let m = login_request("key", "sig".to_string(), "1650000000123").unwrap();
    assert_eq!(m.op, "login");
    assert_eq!(m.args.key, "key");
    assert_eq!(m.args.sign, "sig");
    assert_eq!(m.args.time, 1_650_000_000_123);
}

#[test]
fn login_request_refuses_bad_timestamp() {
    assert!(login_request("key", "sig".to_string(), "abc").is_none());
    assert!(login_request("key", "sig".to_string(), "18446744073709551616").is_none());
}

#[test]
fn auth_msg_signs_its_time() {
    let before = current_ts().unwrap();
    let m = auth_msg("key", "secret").unwrap();
    let after = current_ts().unwrap();
    assert_eq!(m.op, "login");
    assert_eq!(m.args.key, "key");
    assert!(before <= m.args.time as u128 && m.args.time as u128 <= after);
    assert_eq!(m.args.sign, signature_at("secret", m.args.time as u128, "ws", "ws", "ws").0);
}

#[test]
fn websocket_module_shares_requests() {
    assert_eq!(websocket::unsubscribe("ticker", "A"), req("unsubscribe", "ticker", "A"));
    assert!(websocket::auth_msg("k", "s").is_some());
}

#[test]
fn rest_urls() {
    assert_eq!(url("/wallet/balances"), "https://ftx.com/api/wallet/balances");
    assert_eq!(market_url("BTC-PERP"), "https://ftx.com/api/markets/BTC-PERP");
    assert_eq!(
        candles_url("BTC-PERP", "900", "20"),
        "https://ftx.com/api/markets/BTC-PERP/candles?resolution=900&limit=20"
    );
    assert_eq!(order_endpoint("42"), "/orders/42");
    assert_eq!(modify_order_endpoint("42"), "/orders/42/modify");
}

#[test]
fn auth_header_values() {
    let h = auth_header("key", "secret", "/wallet/balances", "GET").unwrap();
    assert_eq!(h.key, "key");
    let t: u128 = h.ts.parse().unwrap();
    assert_eq!(h.sign, signature_at("secret", t, "/wallet/balances", "GET", "rest").0);
}
