//! A registry of names and payment-code mailboxes with an append-only signal
//! log, plus the pure pieces an offline reader needs: storage-key derivation
//! and a strict decoder for the binary records the store emits.

pub mod error;
pub mod encoding;
pub mod base58;
pub mod registry;
pub mod laws;
pub mod keys;
pub mod codec;
pub mod reader;
