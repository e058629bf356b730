//! Verified core of onion-poc: chunked XChaCha20-Poly1305 file sharing over
//! onion services, share links, peer discovery and the small protocols that
//! glue the pieces together.

pub mod base64url;
pub mod config;
pub mod crypto;
pub mod discovery;
pub mod download;
pub mod gui;
pub mod ids;
pub mod link;
pub mod server;
pub mod share;
pub mod text;
pub mod tor;
pub mod tracker;
pub mod tracker_proto;
pub mod ui;
pub mod wizard;
