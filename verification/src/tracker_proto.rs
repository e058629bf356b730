//! Messages about which files which nodes offer, as exchanged between nodes
//! and shown in the lobby.

use vstd::prelude::*;
use crate::crypto::FileId;

verus! {

/// A file as one node announces it.
#[derive(Debug, Clone)]
pub struct AnnouncedFile {
    pub file_id: FileId,
    pub name: String,
    pub size: u64,
    pub link: String,
    pub content_hash: String,
}

/// Where one copy of a file can be fetched.
#[derive(Debug, Clone)]
pub struct PeerLocation {
    pub node_id: String,
    pub onion: String,
    pub file_id: FileId,
    pub link: String,
}

/// A file of the network lobby, with every known copy of it.
#[derive(Debug, Clone)]
pub struct NetworkFile {
    pub name: String,
    pub size: u64,
    pub link: String,
    pub content_hash: String,
    pub peer_count: usize,
    pub peers: Vec<PeerLocation>,
}

/// What the node knows of the network: how many nodes are online and which
/// files they offer.
#[derive(Debug, Clone)]
pub struct NetworkLobby {
    pub online_nodes: usize,
    pub files: Vec<NetworkFile>,
}

/// The messages a node sends to a tracker over a websocket.
#[derive(Debug, Clone)]
pub enum WsClientMessage {
    Announce { node_id: String, onion: String, files: Vec<AnnouncedFile> },
}

/// The messages a tracker sends to a node over a websocket.
#[derive(Debug, Clone)]
pub enum WsServerMessage {
    Lobby { lobby: NetworkLobby },
}

/// What a node answers when another asks it for gossip.
#[derive(Debug, Clone)]
pub struct GossipMessage {
    pub node_id: String,
    pub onion: String,
    pub files: Vec<AnnouncedFile>,
    pub known_peers: Vec<String>,
}

/// An announced file, as values.
pub struct AnnouncedFileV {
    pub file_id: Seq<u8>,
    pub name: Seq<char>,
    pub size: u64,
    pub link: Seq<char>,
    pub content_hash: Seq<char>,
}

/// A peer location, as values.
pub struct PeerLocationV {
    pub node_id: Seq<char>,
    pub onion: Seq<char>,
    pub file_id: Seq<u8>,
    pub link: Seq<char>,
}

/// A lobby file, as values.
pub struct NetworkFileV {
    pub name: Seq<char>,
    pub size: u64,
    pub link: Seq<char>,
    pub content_hash: Seq<char>,
    pub peer_count: usize,
    pub peers: Seq<PeerLocationV>,
}

impl View for AnnouncedFile {
    type V = AnnouncedFileV;

    open spec fn view(&self) -> AnnouncedFileV {
        AnnouncedFileV {
            file_id: self.file_id@,
            name: self.name@,
            size: self.size,
            link: self.link@,
            content_hash: self.content_hash@,
        }
    }
}

impl View for PeerLocation {
    type V = PeerLocationV;

    open spec fn view(&self) -> PeerLocationV {
        PeerLocationV {
            node_id: self.node_id@,
            onion: self.onion@,
            file_id: self.file_id@,
            link: self.link@,
        }
    }
}

/// The values of a sequence of announced files.
pub open spec fn announced_view(s: Seq<AnnouncedFile>) -> Seq<AnnouncedFileV> {
    s.map_values(|f: AnnouncedFile| f@)
}

/// The values of a sequence of peer locations.
pub open spec fn locations_view(s: Seq<PeerLocation>) -> Seq<PeerLocationV> {
    s.map_values(|p: PeerLocation| p@)
}

impl View for NetworkFile {
    type V = NetworkFileV;

    open spec fn view(&self) -> NetworkFileV {
        NetworkFileV {
            name: self.name@,
            size: self.size,
            link: self.link@,
            content_hash: self.content_hash@,
            peer_count: self.peer_count,
            peers: locations_view(self.peers@),
        }
    }
}

/// The values of a sequence of lobby files.
pub open spec fn files_view(s: Seq<NetworkFile>) -> Seq<NetworkFileV> {
    s.map_values(|f: NetworkFile| f@)
}

} // verus!
