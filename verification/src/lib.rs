//! Presence detection for a flat local network segment: repeated discovery
//! rounds are unioned into a noise-tolerant snapshot, discovered addresses
//! are resolved to stable identities through a configured hardware-address
//! directory, consecutive snapshots are differenced, and each joined or left
//! host yields at most one notification decision and one log record.
pub mod addr;
pub mod cli;
pub mod config;
pub mod db;
pub mod net;
pub mod run;
