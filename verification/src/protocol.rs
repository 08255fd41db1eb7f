//! The JSON-RPC messages of an account subscription: the subscribe request
//! the stream sends, and the plain values it reads from what arrives.

use vstd::prelude::*;

use crate::codec::{bs58_decoding, bs58_encoding, is_base58_text};
use crate::error::StreamError;
use crate::text::{decimal, push_decimal};
use crate::types::{AccountUpdate, Pubkey};

verus! {

/// The `context` of an account notification.
#[derive(Debug, Clone)]
pub struct WsContext {
    pub slot: u64,
}

/// The `value` of an account notification. `data` holds the items of the
/// JSON `data` field when it is an array (`None` when it is not), each item
/// as its text when it is a JSON string (`None` when it is not).
#[derive(Debug, Clone)]
pub struct WsAccountValue {
    pub lamports: u64,
    pub data: Option<Vec<Option<String>>>,
}

/// The `result` of an account notification.
#[derive(Debug, Clone)]
pub struct WsResult {
    pub context: Option<WsContext>,
    pub value: Option<WsAccountValue>,
}

/// The `params` of an account notification.
#[derive(Debug, Clone)]
pub struct WsParams {
    pub result: Option<WsResult>,
    pub subscription: Option<u64>,
}

/// A message read in the shape of an account notification.
#[derive(Debug, Clone)]
pub struct WsNotification {
    pub method: Option<String>,
    pub params: Option<WsParams>,
}

/// A text message that is valid JSON: its top-level `result` and `id` where
/// they are unsigned integers, and the message read as a notification where
/// it has that shape.
#[derive(Debug, Clone)]
pub struct InboundJson {
    pub result: Option<u64>,
    pub id: Option<u64>,
    pub notification: Option<WsNotification>,
}

/// What one read of the socket delivered.
#[derive(Debug, Clone)]
pub enum WsEvent {
    /// A text frame: its JSON content, or `None` when it is not JSON.
    Text(Option<InboundJson>),
    /// A ping frame with its payload.
    Ping(Vec<u8>),
    /// The server closed the connection.
    Close,
    /// The read failed; the error's text.
    Error(String),
    /// Any other frame (binary, pong, raw).
    Other,
}

/// What the reader does after an event.
#[derive(Debug, Clone)]
pub enum NextStep {
    /// Read the next message.
    Continue,
    /// Answer with a pong carrying this payload (its outcome is ignored),
    /// then read the next message.
    Reply(Vec<u8>),
    /// Hand this update to the caller.
    Deliver(AccountUpdate),
    /// Stop reading: the stream has ended.
    Finish,
}

/// A subscribe request to send: its request id, the account, and the
/// JSON text of the request.
#[derive(Debug, Clone)]
pub struct SubscribeRequest {
    pub id: u64,
    pub pubkey: Pubkey,
    pub text: String,
}

/// The JSON text of an `accountSubscribe` request with id `id` for the
/// base58 address `addr`, asking for base64 data at `processed`
/// commitment. Keys stand in lexicographic order and nothing is
/// whitespace.
pub open spec fn subscribe_request_json(id: u64, addr: Seq<char>) -> Seq<char> {
    "{\"id\":"@ + decimal(id as nat)
        + ",\"jsonrpc\":\"2.0\",\"method\":\"accountSubscribe\",\"params\":[\""@ + addr
        + "\",{\"commitment\":\"processed\",\"encoding\":\"base64\"}]}"@
}

/// The request text for subscribing `pubkey` under request id `id`.
pub open spec fn subscribe_request_for(id: u64, pubkey: Pubkey) -> Seq<char> {
    subscribe_request_json(id, bs58_encoding(pubkey@))
}

/// Writes the `accountSubscribe` request text for id `id` and the base58
/// address `addr` (whose characters need no escaping in JSON).
pub fn subscribe_request_text(id: u64, addr: &str) -> (text: String)
    requires
        is_base58_text(addr@),
    ensures
        text@ == subscribe_request_json(id, addr@),
{
    let mut text = String::new();
    text.append("{\"id\":");
    push_decimal(&mut text, id);
    text.append(",\"jsonrpc\":\"2.0\",\"method\":\"accountSubscribe\",\"params\":[\"");
    text.append(addr);
    text.append("\",{\"commitment\":\"processed\",\"encoding\":\"base64\"}]}");
    text
}

/// The message explaining that a decoded address has the wrong length.
pub open spec fn wrong_length_message(len: nat) -> Seq<char> {
    "expected 32 bytes, got "@ + decimal(len)
}

/// What reading a base58 address gives, from what decoding it gave: the
/// key when the decoding succeeded with exactly 32 bytes, an
/// `InvalidPubkey` error naming the address otherwise.
pub open spec fn pubkey_result(addr: Seq<char>, decoded: Result<Seq<u8>, Seq<char>>) -> Result<
    Seq<u8>,
    (Seq<char>, Seq<char>),
> {
    match decoded {
        Err(why) => Err((addr, why)),
        Ok(bytes) => if bytes.len() == 32 {
            Ok(bytes)
        } else {
            Err((addr, wrong_length_message(bytes.len())))
        },
    }
}

/// Whether a result matches what [`pubkey_result`] says of an address and
/// a decoding.
pub open spec fn pubkey_result_matches(
    r: Result<Pubkey, StreamError>,
    addr: Seq<char>,
    decoded: Result<Seq<u8>, Seq<char>>,
) -> bool {
    match (r, pubkey_result(addr, decoded)) {
        (Ok(pk), Ok(bytes)) => pk@ == bytes,
        (Err(StreamError::InvalidPubkey(a, why)), Err((a2, why2))) => a@ == a2 && why@ == why2,
        _ => false,
    }
}

/// Turns the outcome of decoding the base58 address `addr` into a key: the
/// decoded bytes when there are exactly 32 of them, else an
/// `InvalidPubkey` error carrying the address and the reason.
pub fn pubkey_from_decoded(addr: &str, decoded: Result<Vec<u8>, String>) -> (r: Result<
    Pubkey,
    StreamError,
>)
    ensures
        pubkey_result_matches(
            r,
            addr@,
            match decoded {
                Ok(bytes) => Ok(bytes@),
                Err(why) => Err(why@),
            },
        ),
{
    match decoded {
        Err(why) => Err(StreamError::InvalidPubkey(addr.to_string(), why)),
        Ok(bytes) => {
            if bytes.len() != 32 {
                let mut why = String::new();
                why.append("expected 32 bytes, got ");
                push_decimal(&mut why, bytes.len() as u64);
                return Err(StreamError::InvalidPubkey(addr.to_string(), why));
            }
            let mut pk: Pubkey = [0u8; 32];
            let mut i: usize = 0;
            while i < 32
                invariant
                    bytes@.len() == 32,
                    i <= 32,
                    forall|j: int| 0 <= j < i ==> pk@[j] == bytes@[j],
                decreases 32 - i,
            {
                pk[i] = bytes[i];
                i = i + 1;
            }
            assert(pk@ =~= bytes@);
            Ok(pk)
        },
    }
}

/// Whether `r` is what reading the base58 address `addr` gives.
pub open spec fn reads_pubkey(r: Result<Pubkey, StreamError>, addr: Seq<char>) -> bool {
    pubkey_result_matches(r, addr, bs58_decoding(addr))
}

} // verus!
