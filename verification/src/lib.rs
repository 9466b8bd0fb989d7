//! A payment-relay ledger: payment intents are validated, their memo is
//! recorded, a settlement instruction is produced for the network, and
//! completed transactions are kept in an append-only history.

pub mod error;
pub mod identity;
pub mod record;
pub mod text;
pub mod wire;
mod scan;
mod reader;
pub mod codec;
pub mod store;
pub mod ledger;
pub mod relay;
pub mod contract;
