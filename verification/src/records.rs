//! The records kept on the bus: agents, conversations, messages, receipts,
//! rate windows and lock owners.

use vstd::prelude::*;

verus! {

/// A claimed agent.
pub struct Agent {
    pub v: u16,
    pub id: String,
    pub mention: String,
    pub workspace: Option<String>,
    pub capabilities: Vec<String>,
    pub pid: u32,
    pub host: String,
    pub last_seen_at: String,
    pub ttl_seconds: u64,
    pub expires_at: String,
    pub current_state: String,
    pub state_note: Option<String>,
    pub state_updated_at: String,
    /// The passport public key the claim is bound to.
    pub pubkey: Option<String>,
}

/// Per-conversation send limits.
pub struct Rate {
    pub window_seconds: u64,
    pub max_messages_per_sender: u64,
    pub max_message_bytes: usize,
}

/// A conversation's metadata.
pub struct Meta {
    pub v: u16,
    pub id: String,
    pub participants: Vec<String>,
    pub channel: bool,
    pub private: bool,
    pub state: String,
    pub created_at: String,
    pub updated_at: String,
    pub retention_days: u64,
    pub rate: Rate,
}

/// The sender's retraction of an ask.
pub struct Withdrawal {
    pub by: String,
    pub at: String,
    pub reason: Option<String>,
}

/// A message in a conversation.
pub struct Message {
    pub v: u16,
    pub id: String,
    pub conversation_id: String,
    pub kind: String,
    pub from: String,
    pub to: Vec<String>,
    pub mentions: Vec<String>,
    pub subject: String,
    pub body: String,
    pub created_at: String,
    pub requires_ack: bool,
    pub needs_response_from: Vec<String>,
    pub subject_id: Option<String>,
    pub after: Option<String>,
    /// Set when the sender retracts the ask; the message is then no longer an
    /// open ask for anyone.
    pub withdrawn: Option<Withdrawal>,
}

/// One status change of a receipt.
pub struct ReceiptEvent {
    pub status: String,
    pub at: String,
    pub note: Option<String>,
}

/// An agent's acknowledgement state for one message.
pub struct Receipt {
    pub v: u16,
    pub message_id: String,
    pub conversation_id: String,
    pub agent: String,
    pub status: String,
    pub updated_at: String,
    pub note: Option<String>,
    pub read_at: Option<String>,
    pub history: Vec<ReceiptEvent>,
}

/// A sender's rate window.
pub struct SenderRate {
    pub window_start: String,
    pub count: u64,
    pub last_sent_at: Option<String>,
}

/// The owner record of a lock directory.
pub struct LockOwner {
    pub v: u16,
    pub token: String,
    pub pid: u32,
    pub host: String,
    pub acquired_at: String,
    pub expires_at: String,
}

/// A watcher's cursor state.
pub struct WatchState {
    pub v: u16,
    pub agent: String,
    pub pid: u32,
    pub host: String,
    pub started_at: String,
    pub updated_at: String,
    pub last_event_id: Option<String>,
    pub shutdown_at: Option<String>,
}

} // verus!
