//! Nomad server core: the verified decision logic behind a private
//! wallet-to-node bridge over Nostr.

pub mod text;
pub mod config;
pub mod json;
pub mod encoding;
pub mod protocol;
pub mod keyed;
pub mod ratelimit;
pub mod replay;
pub mod store;
pub mod pairing;
pub mod chain;
pub mod handlers;
pub mod history;
pub mod router;
pub mod watcher;
pub mod backend;
pub mod ui;
pub mod identity;
pub mod laws;
