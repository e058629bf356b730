//! Application settings.

use vstd::prelude::*;
use crate::ids::{file_id_to_string, new_file_id, uuid_text};
use crate::text::{decimal, push_chars, push_decimal, str_chars, string_from_chars};

verus! {

/// The node's persistent settings (stored as JSON by the application).
#[derive(Clone, Debug)]
pub struct AppConfig {
    /// The user accepted the terms of use.
    pub terms_accepted: bool,
    /// Path of the tor binary (empty: the `tor` found on `PATH`).
    pub tor_path: String,
    /// Anonymous id of this node.
    pub node_id: String,
    /// Legacy field kept for compatibility with old builds.
    pub tracker_url: String,
    /// Whether shared files are announced in the public lobby.
    pub share_publicly: bool,
    /// Multicast address used for LAN discovery.
    pub discovery_multicast_addr: String,
    /// UDP port used for LAN discovery.
    pub discovery_port: u16,
    /// Trusted onion addresses (bootstrap nodes) of the global network.
    pub bootstrap_peers: Vec<String>,
}

/// The executable that `tor_bin` names for a configured path.
pub open spec fn tor_bin_of(tor_path: Seq<char>) -> Seq<char> {
    if tor_path.len() == 0 { "tor"@ } else { tor_path }
}

impl Default for AppConfig {
    /// Terms not accepted, the `tor` on `PATH`, a fresh random node id (a
    /// hyphenated UUID), the public lobby on, multicast group 239.255.77.77
    /// port 41075, and one example bootstrap peer.
    fn default() -> (c: Self)
        ensures
            !c.terms_accepted,
            c.tor_path@.len() == 0,
            exists|id: Seq<u8>| id.len() == 16 && c.node_id@ == #[trigger] uuid_text(id),
            c.tracker_url@.len() == 0,
            c.share_publicly,
            c.discovery_multicast_addr@ == "239.255.77.77"@,
            c.discovery_port == 41075,
            c.bootstrap_peers@.len() == 1,
            c.bootstrap_peers@[0]@ == "http://zxcy4abcedfg...xyz.onion"@,
    {
        let id = new_file_id();
        let node_id = file_id_to_string(&id);
        assert(id@.len() == 16 && node_id@ == uuid_text(id@));
        let mut peers: Vec<String> = Vec::new();
        peers.push("http://zxcy4abcedfg...xyz.onion".to_owned());
        AppConfig {
            terms_accepted: false,
            tor_path: String::new(),
            node_id,
            tracker_url: String::new(),
            share_publicly: true,
            discovery_multicast_addr: "239.255.77.77".to_owned(),
            discovery_port: 41075,
            bootstrap_peers: peers,
        }
    }
}

impl AppConfig {
    /// The tor executable to run: the configured path, or `tor` when none is set.
    pub fn tor_bin(&self) -> (s: &str)
        ensures
            s@ == tor_bin_of(self.tor_path@),
    {
        if self.tor_path.as_str().is_empty() {
            "tor"
        } else {
            self.tor_path.as_str()
        }
    }

    /// `tor_bin` as an owned string.
    pub fn effective_tor_path(&self) -> (s: String)
        ensures
            s@ == tor_bin_of(self.tor_path@),
    {
        self.tor_bin().to_owned()
    }

    /// `"<multicast addr>:<port>"`.
    pub fn discovery_multicast_socket(&self) -> (s: String)
        ensures
            s@ == self.discovery_multicast_addr@ + ":"@ + decimal(self.discovery_port as nat),
    {
        let mut out = str_chars(self.discovery_multicast_addr.as_str());
        push_chars(&mut out, &str_chars(":"));
        push_decimal(&mut out, self.discovery_port as u64);
        string_from_chars(&out)
    }
}

} // verus!
