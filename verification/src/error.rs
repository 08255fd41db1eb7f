//! The errors that the stream reports.

use vstd::prelude::*;

verus! {

/// Everything that can go wrong on a stream.
#[derive(Debug, Clone, PartialEq, Eq)]
pub enum StreamError {
    Connect(String),
    Subscribe(String),
    InvalidPubkey(String, String),
    Send(String),
    Recv(String),
}

impl StreamError {
    /// The human-readable message of the error.
    pub open spec fn message_text(&self) -> Seq<char> {
        match self {
            StreamError::Connect(m) => "connection failed: "@ + m@,
            StreamError::Subscribe(m) => "subscribe failed: "@ + m@,
            StreamError::InvalidPubkey(addr, why) => "invalid base58 pubkey '"@ + addr@ + "': "@
                + why@,
            StreamError::Send(m) => "websocket send failed: "@ + m@,
            StreamError::Recv(m) => "websocket receive failed: "@ + m@,
        }
    }

    /// The human-readable message of the error, e.g.
    /// `connection failed: <cause>`.
    pub fn message(&self) -> (text: String)
        ensures
            text@ == self.message_text(),
    {
        let mut text = String::new();
        match self {
            StreamError::Connect(m) => {
                text.append("connection failed: ");
                text.append(m.as_str());
            },
            StreamError::Subscribe(m) => {
                text.append("subscribe failed: ");
                text.append(m.as_str());
            },
            StreamError::InvalidPubkey(addr, why) => {
                text.append("invalid base58 pubkey '");
                text.append(addr.as_str());
                text.append("': ");
                text.append(why.as_str());
            },
            StreamError::Send(m) => {
                text.append("websocket send failed: ");
                text.append(m.as_str());
            },
            StreamError::Recv(m) => {
                text.append("websocket receive failed: ");
                text.append(m.as_str());
            },
        }
        text
    }
}

} // verus!
