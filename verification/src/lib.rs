//! Daemon-side engine of a DNS-over-HTTPS host-name resolution service.
//!
//! The library holds the logic of the daemon: the typed model of upstream
//! replies, hostname normalization, the persistent store's semantics, the
//! upstream request shapes of the two supported providers, and the resolver
//! pipeline that ties them together. The surrounding process (bus endpoint,
//! HTTPS transport, database file, configuration file) hands plain values in
//! and takes plain values back.

use vstd::prelude::*;

pub mod engine;
pub mod error;
pub mod codec;
pub mod dns;
pub mod hostname;
pub mod ip;
pub mod providers;
pub mod settings;
pub mod store;
pub mod sysinfo;

verus! {

} // verus!
