//! Event-graph storage and propagation for a peer-to-peer social network.
//!
//! Events are fixed-layout signed headers, addressed by the BLAKE3 digest of
//! their canonical encoding, linked to at most two parents of the same
//! author. The database keeps them with their content state, tracks the
//! parents that are referenced but not yet stored, the heads of each author,
//! and the follow graph; the head walk decides what to fetch from a peer.

pub mod ids;
pub mod crypto;
pub mod event;
pub mod verify;
pub mod table;
pub mod db;
pub mod storage;
pub mod head_checker;
pub mod laws;
pub mod rpc;
