//! Session logic of a Helius account-subscription stream for Solana:
//! slot-gap detection, staleness tracking, reconnect backoff and the
//! circuit-breaker state machine, with the subscribe / acknowledge /
//! notify protocol kept as verified transitions.

mod clock;
mod codec;
mod error;
mod health;
mod protocol;
mod stream;
mod text;
mod types;

pub use clock::{duration_nanos, instant_gap};
pub use health::{
    after_delays, lemma_backoff_doubles, lemma_gap_exactly_when_slots_skipped, backoff_delay, capped_bound, exceeds, gaps_reported, lemma_attempt_counts_delays,
    lemma_counters_summarise_updates, replay, reported_gap, reported_gap_size, updates_since_gap, doublings, lemma_backoff_capped, lemma_backoff_monotone,
    lemma_backoff_saturates, lemma_consecutive_slot_is_clean, lemma_reset_delay_is_least,
    lemma_update_is_monotone, lemma_update_keeps_counters_consistent, uncapped_bound,
    BackoffModel, HealthCounters, ReconnectPolicy, StreamHealth,
};
pub use error::StreamError;
pub use text::{decimal, decimal_string, digit_char, push_decimal};
pub use types::{is_default_staleness, ws_url_text, AccountUpdate, Pubkey, StreamConfig, StreamState};
pub use codec::{lemma_payload_is_whole_decoding, is_base58_char, is_base58_text, base64_standard_decoding, bs58_decoding, bs58_encoding, decode_base64, payload_bytes};
pub use protocol::{
    pubkey_from_decoded, pubkey_result, pubkey_result_matches, reads_pubkey, subscribe_request_for,
    subscribe_request_json, subscribe_request_text, wrong_length_message, InboundJson, NextStep,
    SubscribeRequest, WsAccountValue, WsContext, WsEvent, WsNotification, WsParams, WsResult,
};
pub use stream::{
    b58_outcome, data_text, event_delivers, event_outcome, is_account_notification, is_safe_state,
    lemma_ack_subscribes_pending_account, lemma_bookkeeping_counts, lemma_ack_frame_completes_request, lemma_overdue_stream_goes_stale, lemma_delivered_data_is_whole_decoding, lemma_fresh_stream_counts, lemma_ops_keep_request_ids, lemma_request_ids_increase_over_run, acked_subscription, distinct_subscription_ids, lemma_op_keeps_wf, lemma_events_keep_request_ids, lemma_request_ids_increase, lemma_update_trips_breaker_on_wide_gap, lemma_end_of_stream_is_unsafe,
    lemma_recorded_request_covers_account, notified_account, notified_slot, notified_subscription,
    same_key, staleness_outcome, subscribe_outcome, update_outcome, zero_key, HeliusStream, SessionModel, SessionOp,
};
