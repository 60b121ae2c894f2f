//! Control-plane library for a multi-tenant VPN/tunnel panel.
//!
//! The crate models the authoritative user store, the ephemeral presence
//! store, the upstream VLESS client lists, the reconciling bulk
//! synchronizer, the protocol-sniffing proxy bridges and the command
//! channel.  Every state transition is a verified function: the
//! surrounding process (sockets, database, key-value store, OS accounts)
//! feeds plain values in and carries the returned actions out.

pub mod text;
pub mod config;
pub mod user;
pub mod store;
pub mod upstream;
pub mod email;
pub mod reconcile;
pub mod observer;
pub mod sniff;
pub mod uuid;
pub mod registry;
pub mod bridge;
pub mod xhttp;
pub mod channel;
pub mod atomic_write;
pub mod sessions;
