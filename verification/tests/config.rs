use std::time::Duration;

use helius_stream::{decimal_string, StreamConfig, StreamError};

#[test]
fn endpoints_and_default_threshold() {
    let m = StreamConfig::mainnet("k".to_string());
    assert_eq!(m.endpoint, "wss://mainnet.helius-rpc.com/");
    assert_eq!(m.api_key, "k");
    assert_eq!(m.staleness_threshold, Duration::from_millis(500));
    let d = StreamConfig::devnet("k".to_string());
    assert_eq!(d.endpoint, "wss://devnet.helius-rpc.com/");
    let c = StreamConfig::custom("wss://node.example/".to_string(), "k".to_string());
    assert_eq!(c.endpoint, "wss://node.example/");
    assert_eq!(c.staleness_threshold, Duration::from_millis(500));
}

#[test]
fn staleness_threshold_builder() {
    let c = StreamConfig::mainnet("k".to_string()).staleness_threshold(Duration::from_secs(2));
    assert_eq!(c.staleness_threshold, Duration::from_secs(2));
    assert_eq!(c.api_key, "k");
}

#[test]
fn ws_url_appends_key() {
    let m = StreamConfig::mainnet("abc".to_string());
    assert_eq!(m.ws_url(), "wss://mainnet.helius-rpc.com/?api-key=abc");
    let c = StreamConfig::custom("wss://node.example/?region=eu".to_string(), "abc".to_string());
    assert_eq!(c.ws_url(), "wss://node.example/?region=eu&api-key=abc");
}

#[test]
fn error_messages() {
    assert_eq!(StreamError::Connect("x".to_string()).message(), "connection failed: x");
    assert_eq!(StreamError::Subscribe("x".to_string()).message(), "subscribe failed: x");
    assert_eq!(
        StreamError::InvalidPubkey("a".to_string(), "b".to_string()).message(),
        "invalid base58 pubkey 'a': b"
    );
    assert_eq!(StreamError::Send("x".to_string()).message(), "websocket send failed: x");
    assert_eq!(StreamError::Recv("x".to_string()).message(), "websocket receive failed: x");
}

#[test]
fn decimal_rendering() {
    assert_eq!(decimal_string(0), "0");
    assert_eq!(decimal_string(7), "7");
    assert_eq!(decimal_string(10), "10");
    assert_eq!(decimal_string(1234567890), "1234567890");
    assert_eq!(decimal_string(u64::MAX), "18446744073709551615");
}
