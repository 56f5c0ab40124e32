//! Core of a cross-chain bridge: an inbound channel processor with
//! nonce-based replay protection and fee apportionment, backed by a
//! multi-asset ledger with verified overflow/underflow safety and a
//! proved conservation law (per-asset issuance equals the sum of all
//! account balances).

pub mod types;
pub mod assets;
pub mod ledger;
pub mod fraction;
pub mod envelope;
pub mod inbound;
