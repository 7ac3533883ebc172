//! raft: a filesystem-backed coordination bus for local agents.
//!
//! This crate holds the bus's rules: identifier grammar, obligation
//! bookkeeping, capability tokens, signed identities, the canonical record
//! encoding, the local UI's HTTP guard and the health checks. The command-line
//! program that reads and writes the bus directory lives beside it.

pub mod error;
pub mod text;
pub mod util;
pub mod lists;
pub mod naming;
pub mod suggest;
pub mod hex;
pub mod json;
pub mod crypto;
pub mod time;
pub mod capability;
pub mod identity;
pub mod sets;
pub mod http;
pub mod storage;
pub mod records;
pub mod bus;
pub mod rooms;
pub mod rates;
pub mod send;
pub mod display;
pub mod doctor;
pub mod audit;
pub mod checks;
pub mod survey;
pub mod mesh;
pub mod order;
pub mod asks;
pub mod listing;
pub mod thread;
pub mod history;
pub mod presence;
pub mod uiroute;
pub mod request;
