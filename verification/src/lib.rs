//! A local secrets vault: per-entry key derivation and authenticated
//! encryption of secret fields, a time-limited session that guards access,
//! and the lifecycle of credential and passkey entries.

pub mod error;
pub mod cipher;
pub mod clock;
pub mod consistency;
pub mod entropy;
pub mod generator;
pub mod ident;
pub mod order;
pub mod record;
pub mod round_trip;
pub mod session;
pub mod store;
pub mod text;
pub mod transfer;
pub mod vault;
