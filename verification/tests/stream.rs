use std::time::Duration;

use helius_stream::{
    decode_base64, exceeds, pubkey_from_decoded, subscribe_request_text, HeliusStream, InboundJson, NextStep,
    Pubkey, StreamConfig, StreamError, StreamState, WsAccountValue, WsContext, WsEvent,
    WsNotification, WsParams, WsResult,
};

const USDC_MINT: &str = "EPjFWdd5AufqSSqeM2qN1xzybapC8G4wEGGkZwyTDt1v";
const USDC_BYTES: Pubkey = [
    198, 250, 122, 243, 190, 219, 173, 58, 61, 101, 243, 106, 171, 201, 116, 49, 177, 187, 228,
    194, 210, 246, 224, 228, 124, 166, 2, 3, 69, 47, 93, 97,
];

fn session() -> HeliusStream {
    HeliusStream::new(StreamConfig::mainnet("key".to_string()))
}

fn ack(request_id: u64, subscription_id: u64) -> WsEvent {
    WsEvent::Text(Some(InboundJson {
        result: Some(subscription_id),
        id: Some(request_id),
        notification: None,
    }))
}

fn notification(subscription: u64, slot: u64, lamports: u64, data: &str) -> WsEvent {
    WsEvent::Text(Some(InboundJson {
        result: None,
        id: None,
        notification: Some(WsNotification {
            method: Some("accountNotification".to_string()),
            params: Some(WsParams {
                result: Some(WsResult {
                    context: Some(WsContext { slot }),
                    value: Some(WsAccountValue {
                        lamports,
                        data: Some(vec![Some(data.to_string()), Some("base64".to_string())]),
                    }),
                }),
                subscription: Some(subscription),
            }),
        }),
    }))
}

fn deliver(s: &mut HeliusStream, event: WsEvent) -> helius_stream::AccountUpdate {
    match s.handle_event(event) {
        NextStep::Deliver(u) => u,
        other => panic!("expected an update, got {:?}", other),
    }
}

#[test]
fn new_stream_is_connected_and_empty() {
    let s = session();
    assert!(matches!(s.state(), StreamState::Connected { .. }));
    assert!(s.is_safe_for_simulation());
    assert_eq!(s.subscription_count(), 0);
    assert_eq!(s.pending_count(), 0);
    assert_eq!(s.health().total_updates(), 0);
    assert_eq!(s.config().api_key, "key");
}

#[test]
fn subscribe_builds_request_with_base58_address() {
    let mut s = session();
    let req = s.subscribe_account(USDC_BYTES).expect("new account");
    assert_eq!(req.id, 1);
    assert_eq!(req.pubkey, USDC_BYTES);
    assert_eq!(
        req.text,
        "{\"id\":1,\"jsonrpc\":\"2.0\",\"method\":\"accountSubscribe\",\"params\":[\"EPjFWdd5AufqSSqeM2qN1xzybapC8G4wEGGkZwyTDt1v\",{\"commitment\":\"processed\",\"encoding\":\"base64\"}]}"
    );
    // Not yet sent: nothing pending.
    assert_eq!(s.pending_count(), 0);
    s.subscription_sent(&req);
    assert_eq!(s.pending_count(), 1);
    assert!(s.is_tracked(&USDC_BYTES));
}

#[test]
fn zero_key_request_uses_all_ones_address() {
    let mut s = session();
    let req = s.subscribe_account([0u8; 32]).unwrap();
    assert!(req.text.contains("\"11111111111111111111111111111111\""));
}

#[test]
fn subscribing_twice_sends_once() {
    let mut s = session();
    let req = s.subscribe_account(USDC_BYTES).unwrap();
    s.subscription_sent(&req);
    assert!(s.subscribe_account(USDC_BYTES).is_none());
    // A second recording of the same request changes nothing.
    s.subscription_sent(&req);
    assert_eq!(s.pending_count(), 1);
    // Another account gets the next id.
    let other = s.subscribe_account([7u8; 32]).unwrap();
    assert_eq!(other.id, 2);
}

#[test]
fn unsent_request_can_be_asked_again() {
    let mut s = session();
    let first = s.subscribe_account(USDC_BYTES).unwrap();
    let again = s.subscribe_account(USDC_BYTES).unwrap();
    assert_eq!(first.id, 1);
    assert_eq!(again.id, 2);
}

#[test]
fn acknowledgement_moves_request_to_subscriptions() {
    let mut s = session();
    let req = s.subscribe_account(USDC_BYTES).unwrap();
    s.subscription_sent(&req);
    assert!(matches!(s.handle_event(ack(99, 5)), NextStep::Continue));
    assert_eq!(s.pending_count(), 1);
    assert!(matches!(s.handle_event(ack(req.id, 5)), NextStep::Continue));
    assert_eq!(s.pending_count(), 0);
    assert_eq!(s.subscription_count(), 1);
    assert!(s.is_tracked(&USDC_BYTES));
    assert!(s.subscribe_account(USDC_BYTES).is_none());
}

#[test]
fn notification_delivers_decoded_update() {
    let mut s = session();
    let req = s.subscribe_account(USDC_BYTES).unwrap();
    s.subscription_sent(&req);
    s.acknowledge(req.id, 42);
    let u = deliver(&mut s, notification(42, 1000, 5_000_000, "aGVsbG8="));
    assert_eq!(u.pubkey, USDC_BYTES);
    assert_eq!(u.lamports, 5_000_000);
    assert_eq!(u.data, b"hello".to_vec());
    assert_eq!(u.slot, 1000);
    assert_eq!(u.write_version, 1000);
    assert!(matches!(s.state(), StreamState::Connected { .. }));
    assert_eq!(s.health().last_slot(), 1000);
}

#[test]
fn unknown_subscription_gets_zero_key_and_bad_base64_no_data() {
    let mut s = session();
    let u = deliver(&mut s, notification(7, 3, 1, "not base64!"));
    assert_eq!(u.pubkey, [0u8; 32]);
    assert!(u.data.is_empty());
}

#[test]
fn wide_gap_trips_the_breaker() {
    let mut s = session();
    deliver(&mut s, notification(0, 100, 0, ""));
    deliver(&mut s, notification(0, 110, 0, ""));
    assert_eq!(s.state(), &StreamState::Degraded { gap_slots: 9 });
    assert!(!s.is_safe_for_simulation());
    assert_eq!(s.health().total_gaps(), 1);
    assert_eq!(s.health().max_observed_gap(), 9);
    deliver(&mut s, notification(0, 111, 0, ""));
    assert!(matches!(s.state(), StreamState::Connected { .. }));
}

#[test]
fn narrow_gap_keeps_the_breaker_closed() {
    let mut s = session();
    deliver(&mut s, notification(0, 100, 0, ""));
    deliver(&mut s, notification(0, 103, 0, ""));
    assert_eq!(s.state(), &StreamState::Degraded { gap_slots: 2 });
    assert!(s.is_safe_for_simulation());
    deliver(&mut s, notification(0, 107, 0, ""));
    assert_eq!(s.state(), &StreamState::Degraded { gap_slots: 3 });
    assert!(!s.is_safe_for_simulation());
}

#[test]
fn gap_after_a_skip_of_four() {
    let mut s = session();
    deliver(&mut s, notification(0, 100, 0, ""));
    deliver(&mut s, notification(0, 105, 0, ""));
    assert_eq!(s.state(), &StreamState::Degraded { gap_slots: 4 });
    assert!(!s.is_safe_for_simulation());
}

#[test]
fn staleness_decision_on_a_given_reading() {
    let mut s = session();
    s.note_elapsed(Duration::from_millis(500));
    assert!(matches!(s.state(), StreamState::Connected { .. }));
    s.note_elapsed(Duration::from_micros(500_001));
    assert_eq!(s.state(), &StreamState::Stale { stale_for_ms: 500 });
    s.note_elapsed(Duration::from_secs(3));
    assert_eq!(s.state(), &StreamState::Stale { stale_for_ms: 3000 });
}

#[test]
fn exceeds_compares_lengths() {
    assert!(exceeds(&Duration::from_nanos(2), &Duration::from_nanos(1)));
    assert!(!exceeds(&Duration::from_nanos(1), &Duration::from_nanos(1)));
    assert!(!exceeds(&Duration::ZERO, &Duration::from_secs(1)));
}

#[test]
fn b58_within_ids_subscribes() {
    let mut s = session();
    let (pk, req) = s.subscribe_account_b58_within_ids(USDC_MINT).unwrap().unwrap();
    assert_eq!(pk, USDC_BYTES);
    assert!(req.unwrap().text.contains(USDC_MINT));
    assert!(matches!(
        s.subscribe_account_b58_within_ids("0OIl"),
        Some(Err(StreamError::InvalidPubkey(_, _)))
    ));
}

#[test]
fn notification_without_value_or_context() {
    let mut s = session();
    let event = WsEvent::Text(Some(InboundJson {
        result: None,
        id: None,
        notification: Some(WsNotification {
            method: Some("accountNotification".to_string()),
            params: Some(WsParams {
                result: Some(WsResult { context: None, value: None }),
                subscription: None,
            }),
        }),
    }));
    let u = deliver(&mut s, event);
    assert_eq!(u.slot, 0);
    assert_eq!(u.lamports, 0);
    assert!(u.data.is_empty());
}

#[test]
fn other_messages_are_skipped() {
    let mut s = session();
    assert!(matches!(s.handle_event(WsEvent::Text(None)), NextStep::Continue));
    assert!(matches!(s.handle_event(WsEvent::Other), NextStep::Continue));
    let wrong_method = WsEvent::Text(Some(InboundJson {
        result: None,
        id: None,
        notification: Some(WsNotification {
            method: Some("slotNotification".to_string()),
            params: Some(WsParams {
                result: Some(WsResult { context: Some(WsContext { slot: 9 }), value: None }),
                subscription: Some(1),
            }),
        }),
    }));
    assert!(matches!(s.handle_event(wrong_method), NextStep::Continue));
    let no_result = WsEvent::Text(Some(InboundJson {
        result: None,
        id: None,
        notification: Some(WsNotification {
            method: Some("accountNotification".to_string()),
            params: Some(WsParams { result: None, subscription: Some(1) }),
        }),
    }));
    assert!(matches!(s.handle_event(no_result), NextStep::Continue));
    assert_eq!(s.health().total_updates(), 0);
}

#[test]
fn ping_is_answered_with_its_payload() {
    let mut s = session();
    match s.handle_event(WsEvent::Ping(vec![1, 2, 3])) {
        NextStep::Reply(p) => assert_eq!(p, vec![1, 2, 3]),
        other => panic!("unexpected {:?}", other),
    }
}

#[test]
fn close_and_errors_fail_the_stream() {
    let mut s = session();
    assert!(matches!(s.handle_event(WsEvent::Close), NextStep::Finish));
    assert_eq!(s.state(), &StreamState::Failed { reason: "server close".to_string() });
    assert!(!s.is_safe_for_simulation());
    let mut t = session();
    assert!(matches!(t.handle_event(WsEvent::Error("reset".to_string())), NextStep::Finish));
    assert_eq!(t.state(), &StreamState::Failed { reason: "reset".to_string() });
}

#[test]
fn stale_marking() {
    let mut s = session();
    s.mark_stale(1234);
    assert_eq!(s.state(), &StreamState::Stale { stale_for_ms: 1234 });
    assert!(!s.is_safe_for_simulation());
    s.mark_stale((1u128 << 64) + 5);
    assert_eq!(s.state(), &StreamState::Stale { stale_for_ms: 5 });
    let mut fresh = session();
    fresh.check_staleness();
    assert!(matches!(fresh.state(), StreamState::Connected { .. }));
}

#[test]
fn reconnect_policy_is_reachable() {
    let mut s = session();
    assert_eq!(s.reconnect_policy_mut().next_delay_ms(), 100);
    assert_eq!(s.reconnect_policy_mut().attempt(), 1);
}

#[test]
fn subscribe_by_base58_address() {
    let mut s = session();
    let (pk, req) = s.subscribe_account_b58(USDC_MINT).unwrap();
    assert_eq!(pk, USDC_BYTES);
    assert_eq!(req.unwrap().id, 1);
}

#[test]
fn invalid_base58_is_refused() {
    let mut s = session();
    match s.subscribe_account_b58("0OIl") {
        Err(StreamError::InvalidPubkey(addr, why)) => {
            assert_eq!(addr, "0OIl");
            assert!(!why.is_empty());
        }
        other => panic!("unexpected {:?}", other),
    }
    match s.subscribe_account_b58("2g") {
        Err(StreamError::InvalidPubkey(addr, why)) => {
            assert_eq!(addr, "2g");
            assert_eq!(why, "expected 32 bytes, got 1");
        }
        other => panic!("unexpected {:?}", other),
    }
    assert_eq!(s.pending_count(), 0);
}

#[test]
fn decoded_key_lengths() {
    assert_eq!(pubkey_from_decoded("x", Ok(USDC_BYTES.to_vec())), Ok(USDC_BYTES));
    assert_eq!(
        pubkey_from_decoded("x", Ok(vec![1; 33])),
        Err(StreamError::InvalidPubkey("x".to_string(), "expected 32 bytes, got 33".to_string()))
    );
    assert_eq!(
        pubkey_from_decoded("x", Err("bad".to_string())),
        Err(StreamError::InvalidPubkey("x".to_string(), "bad".to_string()))
    );
}

#[test]
fn base64_payloads() {
    assert_eq!(decode_base64("aGVsbG8="), b"hello".to_vec());
    assert_eq!(decode_base64(""), Vec::<u8>::new());
    assert_eq!(decode_base64("@@@"), Vec::<u8>::new());
}

#[test]
fn request_text_for_large_id() {
    assert_eq!(
        subscribe_request_text(18446744073709551615, "abc"),
        "{\"id\":18446744073709551615,\"jsonrpc\":\"2.0\",\"method\":\"accountSubscribe\",\"params\":[\"abc\",{\"commitment\":\"processed\",\"encoding\":\"base64\"}]}"
    );
}

#[test]
fn zero_threshold_makes_stream_stale() {
    let cfg = StreamConfig::mainnet("k".to_string()).staleness_threshold(std::time::Duration::ZERO);
    let mut s = HeliusStream::new(cfg);
    let start = std::time::Instant::now();
    while start.elapsed() < std::time::Duration::from_millis(3) {}
    s.check_staleness();
    match s.state() {
        StreamState::Stale { stale_for_ms } => assert!(*stale_for_ms >= 3 && *stale_for_ms < 60_000),
        other => panic!("unexpected {:?}", other),
    }
}

#[test]
fn clock_readings_are_kept() {
    let wall = std::time::SystemTime::UNIX_EPOCH + Duration::from_secs(1_700_000_000);
    let at = std::time::Instant::now();
    let mut s = HeliusStream::new_at(StreamConfig::mainnet("k".to_string()), wall, at);
    assert_eq!(s.state(), &StreamState::Connected { since: wall });
    assert_eq!(s.health().last_update(), at);
    let later = at + Duration::from_secs(5);
    let wall2 = wall + Duration::from_secs(5);
    s.apply_update_at(0, 10, 1, vec![], later, wall2);
    assert_eq!(s.state(), &StreamState::Connected { since: wall2 });
    assert_eq!(s.health().last_update(), later);
    let step = s.handle_event_at(notification(0, 11, 1, ""), later + Duration::from_secs(1), wall);
    assert!(matches!(step, NextStep::Deliver(_)));
    assert_eq!(s.health().last_update(), later + Duration::from_secs(1));
    assert_eq!(s.state(), &StreamState::Connected { since: wall });
}

#[test]
fn counts_over_sends_and_acknowledgements() {
    let mut s = session();
    let keys: [Pubkey; 3] = [[1u8; 32], [2u8; 32], [3u8; 32]];
    let mut ids = vec![];
    for k in keys.iter() {
        let req = s.subscribe_account(*k).unwrap();
        s.subscription_sent(&req);
        ids.push(req.id);
    }
    assert_eq!(s.pending_count(), 3);
    s.acknowledge(ids[0], 70);
    s.acknowledge(ids[2], 71);
    assert_eq!(s.subscription_count(), 2);
    assert_eq!(s.pending_count(), 1);
    assert!(ids[0] < ids[1] && ids[1] < ids[2]);
}
