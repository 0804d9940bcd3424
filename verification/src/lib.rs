//! `paytp_merchant` — the merchant side of the PayTP baseline profile.
//!
//! The crate holds the merchant's decisions: which payments are honoured, which
//! channel messages are accepted, what a settlement round owes, and which of
//! these decisions were already taken. Parsing, signatures and the settlement
//! rail are the caller's; their results come in as plain values, and every
//! effect on them goes out as a value the caller carries out.

pub mod bytes;
pub mod table;
pub mod bignat;
pub mod framing;
pub mod log;
pub mod medium;
pub mod one_decision;
mod sealed;
pub mod store;
pub mod text;
pub mod meed;
pub mod rail;
pub mod disposition;
pub mod keys;
pub mod channel;
pub mod carriage;
pub mod attest_endpoint;
pub mod http;
pub mod measure;
pub mod decimal;
pub mod redeem;
pub mod twoleg;
