//! The verified core of a desktop client for an OPNsense firewall.
//!
//! At its centre stands credential protection: a PIN-gated session cache
//! ([`pin_cache`]), an authenticated cipher keyed by the PIN ([`cipher`]),
//! and the store of connection profiles that keeps API secrets encrypted at
//! rest ([`db`], with its model in [`model`] and its laws in [`laws`]).
//! Around it stand the decisions the client makes about what the firewall
//! answers: merging device tables, caching the packet log, arranging
//! interfaces, wording failures. Reading files and talking to the network is
//! left to the application that uses this library.

pub mod alias;
pub mod cipher;
pub mod commands;
pub mod crypto;
pub mod db;
pub mod devices;
pub mod error;
pub mod firewall_logs;
pub mod http_client;
pub mod interfaces;
pub mod invariants;
pub mod laws;
pub mod model;
pub mod order;
pub mod pin_cache;
pub mod profile;
pub mod system_resources;
pub mod text;
pub mod traffic;
pub mod unbound;
pub mod update_checker;
pub mod wol;
