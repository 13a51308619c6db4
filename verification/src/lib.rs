//! Local-network peer-to-peer messaging core: node identity, a live peer
//! registry driven by discovery events, a versioned wire codec for text
//! messages, and best-effort broadcast with per-peer failure isolation.
//! A single command actor owns the registry and serializes all access.

pub mod actor;
pub mod broadcast;
pub mod codec;
pub mod identity;
pub mod message;
pub mod registry;
