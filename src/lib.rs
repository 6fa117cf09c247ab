//! A privileged session broker: it hands out one-time handshake tokens,
//! keeps a durable table of authorized mount collections, plans and rolls
//! back mount sequences, and keeps at most one session per user.

pub mod auth;
pub mod cli;
pub mod crypto;
pub mod handshake;
pub mod mount;
pub mod node;
pub mod session;
pub mod status;
pub mod terminal;
