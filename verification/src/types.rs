//! The values that a stream hands out and is configured with.

use std::time::{Duration, SystemTime};
use vstd::prelude::*;

use crate::clock::{duration_from_millis, duration_nanos};

verus! {

/// A Solana account public key: 32 raw bytes.
pub type Pubkey = [u8; 32];

/// An account update received from the stream.
#[derive(Debug, Clone)]
pub struct AccountUpdate {
    pub pubkey: Pubkey,
    pub lamports: u64,
    pub data: Vec<u8>,
    pub slot: u64,
    pub write_version: u64,
}

/// Configuration for a single stream connection.
#[derive(Debug, Clone)]
pub struct StreamConfig {
    pub endpoint: String,
    pub api_key: String,
    pub staleness_threshold: Duration,
}

/// Whether `d` is the staleness threshold that every constructor starts
/// with: 500 ms.
pub open spec fn is_default_staleness(d: Duration) -> bool {
    duration_nanos(d) == 500_000_000
}

/// The WebSocket URL of an endpoint with an API key: the key is appended as
/// the query parameter `api-key`, after `&` when the endpoint already holds
/// a `?`, after `?` otherwise.
pub open spec fn ws_url_text(endpoint: Seq<char>, api_key: Seq<char>) -> Seq<char> {
    endpoint + (if endpoint.contains('?') { seq!['&'] } else { seq!['?'] }) + "api-key="@ + api_key
}

fn text_contains(s: &str, c: char) -> (found: bool)
    ensures
        found == s@.contains(c),
{
    let n = s.unicode_len();
    let mut i: usize = 0;
    while i < n
        invariant
            n == s@.len(),
            i <= n,
            forall|j: int| 0 <= j < i ==> s@[j] != c,
        decreases n - i,
    {
        if s.get_char(i) == c {
            return true;
        }
        i = i + 1;
    }
    false
}

impl StreamConfig {
    /// Default mainnet endpoint.
    pub fn mainnet(api_key: String) -> (cfg: Self)
        ensures
            cfg.endpoint@ == "wss://mainnet.helius-rpc.com/"@,
            cfg.api_key == api_key,
            is_default_staleness(cfg.staleness_threshold),
    {
        StreamConfig {
            endpoint: String::from_str("wss://mainnet.helius-rpc.com/"),
            api_key,
            staleness_threshold: duration_from_millis(500),
        }
    }

    /// Default devnet endpoint.
    pub fn devnet(api_key: String) -> (cfg: Self)
        ensures
            cfg.endpoint@ == "wss://devnet.helius-rpc.com/"@,
            cfg.api_key == api_key,
            is_default_staleness(cfg.staleness_threshold),
    {
        StreamConfig {
            endpoint: String::from_str("wss://devnet.helius-rpc.com/"),
            api_key,
            staleness_threshold: duration_from_millis(500),
        }
    }

    /// Custom endpoint (e.g., an enterprise / dedicated node URL).
    pub fn custom(endpoint: String, api_key: String) -> (cfg: Self)
        ensures
            cfg.endpoint == endpoint,
            cfg.api_key == api_key,
            is_default_staleness(cfg.staleness_threshold),
    {
        StreamConfig { endpoint, api_key, staleness_threshold: duration_from_millis(500) }
    }

    /// How long without an update before the stream is considered stale.
    /// Default: 500ms.
    pub fn staleness_threshold(self, d: Duration) -> (cfg: Self)
        ensures
            cfg.endpoint == self.endpoint,
            cfg.api_key == self.api_key,
            cfg.staleness_threshold == d,
    {
        let mut cfg = self;
        cfg.staleness_threshold = d;
        cfg
    }

    /// The URL to connect to: the endpoint with the API key as query
    /// parameter.
    pub fn ws_url(&self) -> (url: String)
        ensures
            url@ == ws_url_text(self.endpoint@, self.api_key@),
    {
        let has_query = text_contains(self.endpoint.as_str(), '?');
        let mut url = String::new();
        url.append(self.endpoint.as_str());
        if has_query {
            proof {
                reveal_strlit("&");
            }
            url.append("&");
        } else {
            proof {
                reveal_strlit("?");
            }
            url.append("?");
        }
        url.append("api-key=");
        url.append(self.api_key.as_str());
        url
    }
}

/// Current operational state of the stream.
#[derive(Debug, Clone, PartialEq)]
pub enum StreamState {
    Disconnected,
    Connecting { attempt: u32 },
    Connected { since: SystemTime },
    Degraded { gap_slots: u64 },
    Stale { stale_for_ms: u64 },
    Failed { reason: String },
}

} // verus!
