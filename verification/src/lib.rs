//! Client-side core of the OFSCP authenticated transport: request and
//! handshake signing, the wire envelope protocol, the reconnecting
//! connection state machine, the per-host connection registry, and the
//! per-channel message ledger.

pub mod crypto;
pub mod envelope;
pub mod ledger;
pub mod models;
pub mod policy;
pub mod registry;
pub mod signing;
pub mod state;
pub mod text;
pub mod urls;
pub mod wire;
