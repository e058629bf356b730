use onion_poc::config::AppConfig;
use onion_poc::crypto::{self, CryptoError};
use onion_poc::discovery::{self, DiscoveryAnnouncement, PeerTable, SeenPeer};
use onion_poc::download::{self, ChunkAssembly, ChunkStep, DownloadError};
use onion_poc::ids;
use onion_poc::link::{LinkError, ShareLink, UrlParts};
use onion_poc::server::{RouteError, AppState};
use onion_poc::share::{check_chunk_size, share_file_name, Share, ShareError};
use onion_poc::tor::{self, BootstrapStep, ReplyLine};
use onion_poc::tracker::{PingReq, PublicFile, TrackerState};
use onion_poc::tracker_proto::{AnnouncedFile, GossipMessage, NetworkFile, PeerLocation};
use onion_poc::server::Manifest;
use onion_poc::gui::shared::{Activity, DownloadRequest, DownloadUpdate, GuiControl, SharedFileInfo, SharedState, TorInitState};
use onion_poc::server::GlobalStats;
use onion_poc::ui;

const ID: [u8; 16] = [
    0x55, 0x0e, 0x84, 0x00, 0xe2, 0x9b, 0x41, 0xd4, 0xa7, 0x16, 0x44, 0x66, 0x55, 0x44, 0x00, 0x00,
];

fn key(b: u8) -> crypto::FileKey {
    [b; 32]
}

#[test]
fn key_text_of_zero_key() {
    let s = crypto::key_to_b64url(&[0u8; 32]);
    assert_eq!(s, "A".repeat(43));
    assert_eq!(crypto::key_from_b64url(&s), Ok([0u8; 32]));
}

#[test]
fn key_text_of_sample_key() {
    let mut k = [0u8; 32];
    for (i, b) in k.iter_mut().enumerate() {
        *b = (i * 7 + 3) as u8;
    }
    let s = crypto::key_to_b64url(&k);
    assert_eq!(s, "AwoRGB8mLTQ7QklQV15lbHN6gYiPlp2kq7K5wMfO1dw");
    assert_eq!(crypto::key_from_b64url(&s), Ok(k));
}

#[test]
fn key_from_bad_text() {
    assert_eq!(crypto::key_from_b64url("!!!!"), Err(CryptoError::InvalidBase64));
    assert_eq!(crypto::key_from_b64url("AAAA"), Err(CryptoError::InvalidKeyLength));
    // padded text is refused by the unpadded alphabet
    assert_eq!(crypto::key_from_b64url(&("A".repeat(43) + "=")), Err(CryptoError::InvalidBase64));
    // a final symbol with stray low bits is not canonical
    assert_eq!(crypto::key_from_b64url(&("A".repeat(42) + "B")), Err(CryptoError::InvalidBase64));
}

#[test]
fn little_endian_index_bytes() {
    assert_eq!(crypto::u64_to_le(0x0102030405060708), [8, 7, 6, 5, 4, 3, 2, 1]);
    assert_eq!(crypto::u64_to_le(0), [0; 8]);
}

#[test]
fn aad_is_id_then_index() {
    let a = crypto::aad(&ID, 0x0a0b);
    assert_eq!(&a[..16], &ID[..]);
    assert_eq!(&a[16..], &[0x0b, 0x0a, 0, 0, 0, 0, 0, 0]);
}

#[test]
fn nonce_is_keyed_hash_prefix() {
    let k = key(9);
    let n = crypto::nonce_for_chunk(&k, 5);
    let h = blake3::keyed_hash(&k, &5u64.to_le_bytes());
    assert_eq!(&n[..], &h.as_bytes()[..24]);
    assert_eq!(n, crypto::nonce_for_chunk(&k, 5));
    assert_ne!(n, crypto::nonce_for_chunk(&k, 6));
}

#[test]
fn ciphertext_is_sixteen_bytes_longer() {
    let c = crypto::encrypt_chunk(&key(1), &ID, 3, b"hello").unwrap();
    assert_eq!(c.len(), 5 + 16);
    // deterministic for the same key, file and index
    assert_eq!(c, crypto::encrypt_chunk(&key(1), &ID, 3, b"hello").unwrap());
}

#[test]
fn decrypt_at_other_index_or_file_fails() {
    let c = crypto::encrypt_chunk(&key(1), &ID, 3, b"hello").unwrap();
    assert_eq!(crypto::decrypt_chunk(&key(1), &ID, 4, &c), Err(CryptoError::DecryptFailed));
    let mut other = ID;
    other[0] ^= 1;
    assert_eq!(crypto::decrypt_chunk(&key(1), &other, 3, &c), Err(CryptoError::DecryptFailed));
    assert_eq!(crypto::decrypt_chunk(&key(1), &ID, 3, &c[..10]), Err(CryptoError::DecryptFailed));
    let mut flipped = c.clone();
    flipped[0] ^= 0x80;
    assert_eq!(crypto::decrypt_chunk(&key(1), &ID, 3, &flipped), Err(CryptoError::DecryptFailed));
}

#[test]
fn content_hash_of_empty_input() {
    assert_eq!(
        crypto::content_hash_hex(b""),
        "af1349b9f5f9a1a6a0404dea36dcc9499bcb25c9adc112b7cc9a93cae41f3262"
    );
}

#[test]
fn hex_is_lower_case() {
    assert_eq!(crypto::to_hex(&[0x00, 0xab, 0x7f, 0xff]), "00ab7fff");
}

#[test]
fn file_id_text_is_hyphenated() {
    assert_eq!(tor::tor_dir_name(&ID), "tor-550e8400-e29b-41d4-a716-446655440000");
    assert_eq!(ids::parse_file_id("550e8400-e29b-41d4-a716-446655440000"), Some(ID));
    assert_eq!(ids::parse_file_id("not-a-uuid"), None);
    assert!(ids::same_id(&ID, &ID));
    assert!(!ids::same_id(&ID, &[0u8; 16]));
}

fn sample_link() -> ShareLink {
    ShareLink { onion: "abcdef.onion".to_string(), file_id: ID, key: [0u8; 32] }
}

#[test]
fn link_text() {
    assert_eq!(
        sample_link().to_string(),
        format!("opoc://abcdef.onion/s/550e8400-e29b-41d4-a716-446655440000#{}", "A".repeat(43))
    );
}

#[test]
fn link_roundtrip() {
    let l = sample_link();
    let back = ShareLink::parse(&l.to_string()).unwrap();
    assert_eq!(back.onion, l.onion);
    assert_eq!(back.file_id, l.file_id);
    assert_eq!(back.key, l.key);
}

#[test]
fn link_roundtrip_many_keys() {
    let hosts = [
        "abcdefghijklmnopqrstuvwxyz234567abcdefghijklmnopqrstuvwx.onion",
        "a-b.c9.onion",
        ".onion",
    ];
    for (n, h) in hosts.iter().enumerate() {
        for seed in 0u8..40 {
            let mut k = [0u8; 32];
            for (i, b) in k.iter_mut().enumerate() {
                *b = seed.wrapping_mul(37).wrapping_add((i as u8).wrapping_mul(91)) ^ (n as u8);
            }
            let id = [seed.wrapping_mul(13); 16];
            let l = ShareLink { onion: h.to_string(), file_id: id, key: k };
            let back = ShareLink::parse(&l.to_string()).unwrap();
            assert_eq!((back.onion.as_str(), back.file_id, back.key), (*h, id, k));
        }
    }
}

#[test]
fn link_errors() {
    let id = "550e8400-e29b-41d4-a716-446655440000";
    let k = "A".repeat(43);
    assert_eq!(ShareLink::parse("not_a_valid_link").unwrap_err(), LinkError::InvalidUrl);
    assert_eq!(ShareLink::parse(&format!("http://x.onion/s/{}#{}", id, k)).unwrap_err(), LinkError::WrongScheme);
    assert_eq!(ShareLink::parse(&format!("opoc://example.com/s/{}#{}", id, k)).unwrap_err(), LinkError::NotOnion);
    assert_eq!(ShareLink::parse(&format!("opoc://x.onion/t/{}#{}", id, k)).unwrap_err(), LinkError::BadPath);
    assert_eq!(ShareLink::parse(&format!("opoc://x.onion/s/{}/more#{}", id, k)).unwrap_err(), LinkError::BadPath);
    assert_eq!(ShareLink::parse(&format!("opoc://x.onion/s/nope#{}", k)).unwrap_err(), LinkError::InvalidFileId);
    assert_eq!(ShareLink::parse(&format!("opoc://x.onion/s/{}", id)).unwrap_err(), LinkError::MissingKey);
    assert_eq!(
        ShareLink::parse(&format!("opoc://x.onion/s/{}#AAAA", id)).unwrap_err(),
        LinkError::InvalidKey(CryptoError::InvalidKeyLength)
    );
    assert_eq!(
        ShareLink::parse(&format!("opoc://x.onion/s/{}#%%", id)).unwrap_err(),
        LinkError::InvalidKey(CryptoError::InvalidBase64)
    );
    assert_eq!(
        ShareLink::parse("onion://aaaaaaaaaaaaaaaaaaaaaaaaaaaaaaaaaaaaaaaaaaaaaaaaaaaaaaa.onion:8080/550e8400-e29b-41d4-a716-446655440000#AAAAAAAAAAAAAAAAAAAAAAAAAAAAAAAAAAAAAAAAAAAAAA==").unwrap_err(),
        LinkError::WrongScheme
    );
}

#[test]
fn link_from_parts() {
    let parts = UrlParts {
        scheme: "opoc".to_string(),
        host: None,
        path_segments: None,
        fragment: None,
    };
    assert_eq!(ShareLink::from_url_parts(&parts).unwrap_err(), LinkError::MissingHost);
    let parts = UrlParts {
        scheme: "opoc".to_string(),
        host: Some("h.onion".to_string()),
        path_segments: None,
        fragment: None,
    };
    assert_eq!(ShareLink::from_url_parts(&parts).unwrap_err(), LinkError::MissingPath);
    let parts = UrlParts {
        scheme: "opoc".to_string(),
        host: Some("h.onion".to_string()),
        path_segments: Some(vec!["s".to_string(), "550e8400-e29b-41d4-a716-446655440000".to_string()]),
        fragment: Some("A".repeat(43)),
    };
    let l = ShareLink::from_url_parts(&parts).unwrap();
    assert_eq!(l.onion, "h.onion");
    assert_eq!(l.file_id, ID);
    assert_eq!(l.key, [0u8; 32]);
}

#[test]
fn multicast_socket_text() {
    let cfg = AppConfig::default();
    assert_eq!(cfg.discovery_multicast_socket(), "239.255.77.77:41075");
    assert_eq!(cfg.effective_tor_path(), "tor");
    assert!(cfg.share_publicly);
    assert_eq!(cfg.node_id.len(), 36);
    assert_eq!(cfg.bootstrap_peers, vec!["http://zxcy4abcedfg...xyz.onion".to_string()]);
}

fn data(n: usize) -> Vec<u8> {
    (0..n).map(|i| (i * 31 % 251) as u8).collect()
}

#[test]
fn share_chunking() {
    assert_eq!(Share::new("f".into(), data(10), 1024, key(1)).err(), Some(ShareError::ChunkTooSmall));
    let empty = Share::with_id(ID, "e".into(), vec![], 16384, key(1));
    assert_eq!(empty.total_chunks, 0);
    assert_eq!(empty.chunk_plain(0).err(), Some(ShareError::ChunkOutOfRange));
    let d = data(2 * 16384 + 1);
    let s = Share::with_id(ID, "f.bin".into(), d.clone(), 16384, key(2));
    assert_eq!(s.total_chunks, 3);
    assert_eq!(s.file_size, d.len() as u64);
    assert_eq!(s.chunk_plain(0).unwrap(), &d[..16384]);
    assert_eq!(s.chunk_plain(2).unwrap(), &d[32768..]);
    assert_eq!(s.chunk_plain(3).err(), Some(ShareError::ChunkOutOfRange));
    assert_eq!(s.content_hash, crypto::content_hash_hex(&d));
    assert_eq!(s.chunk_hashes.len(), 3);
    assert_eq!(s.chunk_hashes[1], crypto::content_hash_hex(&d[16384..32768]));
    let mut joined = Vec::new();
    for i in 0..s.total_chunks {
        let c = s.chunk_cipher(i).unwrap();
        let p = crypto::decrypt_chunk(&s.key, &s.file_id, i, &c).unwrap();
        assert!(download::verify_plain_chunk(&p, &s.chunk_hashes[i as usize]).is_ok());
        joined.extend_from_slice(&p);
    }
    assert_eq!(joined, d);
    assert!(download::verify_file(&joined, &s.content_hash).is_ok());
    let exact = Share::new("x".into(), data(16384), 16384, key(3)).unwrap();
    assert_eq!(exact.total_chunks, 1);
}

fn announced(id: u8, hash: &str) -> AnnouncedFile {
    AnnouncedFile {
        file_id: [id; 16],
        name: format!("file-{}", hash),
        size: 10,
        link: format!("link-{}", id),
        content_hash: hash.to_string(),
    }
}

#[test]
fn lobby_merges_copies_by_hash() {
    let mut peers = PeerTable::new();
    peers.insert(
        "peer-a".to_string(),
        SeenPeer { last_seen_ms: 1000, onion: "a.onion".into(), files: vec![announced(1, "h1"), announced(2, "h2")] },
    );
    peers.insert(
        "peer-b".to_string(),
        SeenPeer { last_seen_ms: 1000, onion: "b.onion".into(), files: vec![announced(3, "h1"), announced(3, "h1")] },
    );
    let local = DiscoveryAnnouncement {
        version: discovery::DISCOVERY_VERSION,
        node_id: "me".into(),
        onion: "me.onion".into(),
        files: vec![announced(9, "h3")],
        sent_at_unix: 0,
    };
    let lobby = discovery::aggregate_lobby(&"me".to_string(), Some(&local), &peers);
    assert_eq!(lobby.online_nodes, 3);
    assert_eq!(lobby.files.len(), 3);
    assert_eq!(lobby.files[0].content_hash, "h3");
    assert_eq!(lobby.files[1].content_hash, "h1");
    assert_eq!(lobby.files[1].peer_count, 2);
    assert_eq!(lobby.files[1].peers[0].node_id, "peer-a");
    assert_eq!(lobby.files[1].peers[1].node_id, "peer-b");
    assert_eq!(lobby.files[1].peers[1].onion, "b.onion");
    assert_eq!(lobby.files[2].peer_count, 1);

    let lobby = discovery::aggregate_lobby(&String::new(), None, &peers);
    assert_eq!(lobby.online_nodes, 2);
    let lobby = discovery::aggregate_lobby(&"me".to_string(), None, &peers);
    assert_eq!(lobby.online_nodes, 3);
}

#[test]
fn peer_table_upsert_and_prune() {
    let mut peers = PeerTable::new();
    peers.insert("a".into(), SeenPeer { last_seen_ms: 0, onion: "a1".into(), files: vec![] });
    peers.insert("b".into(), SeenPeer { last_seen_ms: 100_000, onion: "b".into(), files: vec![] });
    peers.insert("a".into(), SeenPeer { last_seen_ms: 50_000, onion: "a2".into(), files: vec![] });
    assert_eq!(peers.len(), 2);
    assert_eq!(peers.entries()[0].node_id, "a");
    assert_eq!(peers.entries()[0].peer.onion, "a2");
    let lobby = discovery::refresh_lobby(&mut peers, &String::new(), None, 170_000);
    assert_eq!(peers.len(), 1);
    assert_eq!(peers.entries()[0].node_id, "b");
    assert_eq!(lobby.online_nodes, 1);
    let _ = discovery::refresh_lobby(&mut peers, &String::new(), None, 220_000);
    assert_eq!(peers.len(), 0);
}

#[test]
fn announcements_from_self_or_other_versions_are_ignored() {
    let mut peers = PeerTable::new();
    let me = "me".to_string();
    let msg = |node: &str, version: u8| DiscoveryAnnouncement {
        version,
        node_id: node.into(),
        onion: "o".into(),
        files: vec![announced(1, "h")],
        sent_at_unix: 7,
    };
    assert!(!discovery::accept_announcement(&mut peers, msg("me", 1), &me, 5));
    assert!(!discovery::accept_announcement(&mut peers, msg("x", 2), &me, 5));
    assert_eq!(peers.len(), 0);
    assert!(discovery::accept_announcement(&mut peers, msg("x", 1), &me, 5));
    assert_eq!(peers.len(), 1);
    assert_eq!(peers.entries()[0].peer.last_seen_ms, 5);
    let g = GossipMessage { node_id: "me".into(), onion: "o".into(), files: vec![], known_peers: vec![] };
    assert!(!discovery::accept_gossip(&mut peers, g, &me, 9));
    let g = GossipMessage { node_id: "y".into(), onion: "oy".into(), files: vec![], known_peers: vec![] };
    assert!(discovery::accept_gossip(&mut peers, g, &me, 9));
    assert_eq!(peers.len(), 2);
}

#[test]
fn local_announcement() {
    let files = vec![announced(1, "h")];
    let none = discovery::build_local_announce(false, &Some("o".into()), true, &files, &"n".into(), 1);
    assert!(none.is_none());
    assert!(discovery::build_local_announce(true, &None, true, &files, &"n".into(), 1).is_none());
    let a = discovery::build_local_announce(true, &Some("o".into()), true, &files, &"n".into(), 1).unwrap();
    assert_eq!(a.version, 1);
    assert_eq!(a.files.len(), 1);
    assert_eq!(a.onion, "o");
    let a = discovery::build_local_announce(true, &Some("o".into()), false, &files, &"n".into(), 1).unwrap();
    assert!(a.files.is_empty());
}

#[test]
fn server_routes() {
    let mut st = AppState::new("node".into());
    let d = data(20000);
    let s = Share::with_id(ID, "f".into(), d.clone(), 16384, key(4));
    assert_eq!(st.register(&ID, 0).unwrap_err(), RouteError::NotFound);
    assert_eq!(st.manifest(&ID).unwrap_err(), RouteError::NotFound);
    st.add_share(s);
    assert_eq!(st.share_count(), 1);
    let m = st.manifest(&ID).unwrap();
    assert_eq!(m.total_chunks, 2);
    assert_eq!(m.cipher, "XChaCha20-Poly1305");
    assert_eq!(m.chunk_hashes.len(), 2);
    assert_eq!(st.chunk(&ID, 2).unwrap_err(), RouteError::NotFound);
    let c = st.chunk(&ID, 1).unwrap();
    assert_eq!(crypto::decrypt_chunk(&key(4), &ID, 1, &c).unwrap(), &d[16384..]);
    let r = st.register(&ID, 1000).unwrap();
    assert_eq!(st.stats().total_sessions, 1);
    assert_eq!(st.ping(&r.session_id, 2000), 1);
    assert_eq!(st.ping(&[7u8; 16], 3000), 2);
    assert_eq!(st.online_count(8500), 1);
    assert_eq!(st.online_count(20000), 0);
    st.record_bytes(100);
    assert_eq!(st.stats().total_bytes_sent, 100);
    assert_eq!(st.stats().chunks_served, 1);
    let files = st.list_files();
    assert_eq!(files.len(), 1);
    assert_eq!(files[0].file_size, 20000);
    st.set_onion_addr("srv.onion".into());
    let g = st.gossip();
    assert_eq!(g.node_id, "node");
    assert_eq!(g.files[0].link, "http://srv.onion/s/550e8400-e29b-41d4-a716-446655440000/manifest");
    st.remove_share(&ID);
    assert_eq!(st.share_count(), 0);
    assert_eq!(st.chunk(&ID, 0).unwrap_err(), RouteError::NotFound);
}

#[test]
fn share_link_for_share() {
    let s = Share::with_id(ID, "f".into(), data(5), 16384, [0u8; 32]);
    assert_eq!(
        ShareLink::for_share(&"abcdef.onion".to_string(), &s),
        sample_link().to_string()
    );
}

#[test]
fn tor_control_protocol() {
    assert_eq!(tor::classify_reply_line("250 OK"), ReplyLine::Done);
    assert_eq!(tor::classify_reply_line("250-ServiceID=abc"), ReplyLine::More);
    assert_eq!(tor::classify_reply_line("552 Unrecognized key"), ReplyLine::Failed);
    assert_eq!(tor::classify_reply_line("451 x"), ReplyLine::Failed);
    assert_eq!(tor::classify_reply_line("25"), ReplyLine::More);
    let mut lines = Vec::new();
    assert_eq!(tor::reply_step(&mut lines, "250-ServiceID= xyz \r\n"), ReplyLine::More);
    assert_eq!(tor::reply_step(&mut lines, "250 OK\r\n"), ReplyLine::Done);
    assert_eq!(lines, vec!["250-ServiceID= xyz ".to_string(), "250 OK".to_string()]);
    assert_eq!(tor::service_id_from_reply(&lines), Some("xyz".to_string()));
    assert_eq!(tor::service_id_from_reply(&vec!["250 OK".to_string()]), None);
    assert_eq!(tor::authenticate_command(&[0xde, 0xad]), "AUTHENTICATE dead");
    assert_eq!(tor::add_onion_command(8080), "ADD_ONION NEW:ED25519-V3 Port=80,127.0.0.1:8080");
    assert_eq!(tor::del_onion_command("abc"), "DEL_ONION abc");
    assert_eq!(tor::command_line("X"), "X\r\n");
}

#[test]
fn tor_process_choices() {
    assert_eq!(tor::local_addr(9050), "127.0.0.1:9050");
    assert_eq!(tor::local_addr(0), "127.0.0.1:0");
    let args = tor::tor_args(1, 65535, "/d");
    assert_eq!(
        args,
        vec![
            "--SocksPort", "127.0.0.1:1", "--ControlPort", "127.0.0.1:65535", "--CookieAuthentication", "1",
            "--DataDirectory", "/d", "--Log", "notice stdout",
        ]
    );
    assert!(tor::is_bootstrap_line("Feb 1 [notice] Bootstrapped 100% (done): Done"));
    assert!(!tor::is_bootstrap_line("Bootstrapped 10%"));
    assert_eq!(tor::bootstrap_step(true, true, 1_000_000, 1), BootstrapStep::Ready);
    assert_eq!(tor::bootstrap_step(false, true, 2, 1), BootstrapStep::TimedOut);
    assert_eq!(tor::bootstrap_step(true, false, 1, 1), BootstrapStep::Wait);
    assert_eq!(tor::tor_dir_name(&ID), "tor-550e8400-e29b-41d4-a716-446655440000");
}

#[test]
fn tracker_lobby() {
    let mut t = TrackerState::new();
    let f = |n: &str| PublicFile { name: n.into(), size: 1, link: "l".into() };
    assert_eq!(t.ping(PingReq { node_id: "a".into(), files: vec![f("x")] }, 0), 1);
    assert_eq!(t.ping(PingReq { node_id: "b".into(), files: vec![f("y"), f("z")] }, 60_000), 2);
    assert_eq!(t.ping(PingReq { node_id: "a".into(), files: vec![f("w")] }, 10_000), 2);
    let l = t.lobby(100_000);
    assert_eq!(l.online_nodes, 2);
    assert_eq!(l.files.iter().map(|p| p.name.as_str()).collect::<Vec<_>>(), vec!["w", "y", "z"]);
    let l = t.lobby(130_000);
    assert_eq!(l.online_nodes, 1);
    assert_eq!(l.files.len(), 2);
}

#[test]
fn uptime_and_sizes() {
    let mut s = SharedState::default();
    s.start_time = Some(5_000);
    assert_eq!(s.uptime_str(5_000 + 3_661_999), "01:01:01");
    assert_eq!(s.uptime_str(5_000 + 360_000_000), "100:00:00");
    assert_eq!(s.uptime_str(5_000 + 59_000), "00:00:59");
    assert_eq!(s.uptime_str(4_000), "00:00:00");
    assert_eq!(SharedState::fmt_bytes(1536), "1.5 KB");
    assert_eq!(SharedState::fmt_bytes(1024 * 1024 - 1), "1024.0 KB");
    assert_eq!(SharedState::fmt_bytes(5 * 1024 * 1024 * 1024 / 2), "2.50 GB");
    assert_eq!(SharedState::fmt_bytes(1234567), "1.18 MB");
    for b in [0u64, 1, 1023, 1024, 1100, 1126, 1127, 4096, 1048575, 1048576, 3_000_000, 1 << 30, 123_456_789_012, u64::MAX, (1 << 53) + 1, u64::MAX - 2047] {
        let expected = if b >= 1 << 30 {
            format!("{:.2} GB", b as f64 / (1u64 << 30) as f64)
        } else if b >= 1 << 20 {
            format!("{:.2} MB", b as f64 / (1u64 << 20) as f64)
        } else if b >= 1024 {
            format!("{:.1} KB", b as f64 / 1024.0)
        } else {
            format!("{} B", b)
        };
        assert_eq!(SharedState::fmt_bytes(b), expected, "{}", b);
    }
}

#[test]
fn search_and_peers() {
    assert!(ui::matches_query("Backup.ZIP", ""));
    assert!(ui::matches_query("Backup.ZIP", "zip"));
    assert!(ui::matches_query("Foto ÁGUA", "água"));
    assert!(!ui::matches_query("Backup.ZIP", "tar"));
    assert_eq!(ui::normalize_bootstrap_peer("  abc.onion \n"), Some("http://abc.onion".to_string()));
    assert_eq!(ui::normalize_bootstrap_peer("https://x.onion"), Some("https://x.onion".to_string()));
    assert_eq!(ui::normalize_bootstrap_peer(" \t "), None);
    let mut peers = vec!["http://a.onion".to_string()];
    assert!(!ui::add_bootstrap_peer(&mut peers, "a.onion"));
    assert!(ui::add_bootstrap_peer(&mut peers, "b.onion"));
    assert!(!ui::add_bootstrap_peer(&mut peers, "   "));
    assert_eq!(peers, vec!["http://a.onion".to_string(), "http://b.onion".to_string()]);
    assert_eq!(ui::gossip_url("http://a.onion//"), "http://a.onion/network/gossip");
    assert_eq!(ui::gossip_url("http://a.onion"), "http://a.onion/network/gossip");
}

#[test]
fn download_choices() {
    assert_eq!(download::verify_plain_chunk(b"x", "0000"), Err(DownloadError::CorruptedChunk));
    assert_eq!(download::verify_file(b"", "00"), Err(DownloadError::CorruptedFile));
    assert!(download::should_use_proxy("http://abc.onion/s", true));
    assert!(!download::should_use_proxy("http://abc.onion/s", false));
    assert!(!download::should_use_proxy("http://example.com", true));
    assert_eq!(download::swarm_concurrency(0), 2);
    assert_eq!(download::swarm_concurrency(5), 5);
    assert_eq!(download::swarm_concurrency(20), 8);
    assert_eq!(download::swarm_peer(7, 2, 4), 1);
    assert_eq!(download::swarm_peer(u64::MAX, 3, 5), ((u64::MAX as u128 + 3) % 5) as usize);
    assert!(download::report_progress(0, 100));
    assert!(download::report_progress(99, 100));
    assert!(!download::report_progress(5, 100));
    assert_eq!(download::share_base_url("x.onion", &ID), "http://x.onion/s/550e8400-e29b-41d4-a716-446655440000");
    assert_eq!(download::route_url("b", "manifest"), "b/manifest");
    assert_eq!(download::chunk_url("b", 12), "b/chunk/12");
    assert_eq!(download::socks_proxy_url("127.0.0.1:9050"), "socks5h://127.0.0.1:9050");
}

#[test]
fn swarm_download_rebuilds_file_in_any_order() {
    let d = data(3 * 16384 + 100);
    let s = Share::with_id(ID, "f.bin".into(), d.clone(), 16384, key(4));
    let mut parts = ChunkAssembly::new(s.total_chunks);
    assert_eq!(parts.len(), 4);
    assert_eq!(parts.arrived(), 0);
    assert_eq!(parts.assemble(), Err(DownloadError::MissingChunk));
    for i in (0..s.total_chunks).rev() {
        let c = s.chunk_cipher(i).unwrap();
        match download::swarm_chunk_step(&s.key, &s.file_id, i, Some(&c), &s.chunk_hashes[i as usize], 0, 3) {
            ChunkStep::Done(p) => parts.insert(i, p),
            other => panic!("unexpected step {:?}", other),
        }
    }
    assert_eq!(parts.arrived(), 4);
    let out = parts.assemble().unwrap();
    assert_eq!(out, d);
    assert!(download::verify_file(&out, &s.content_hash).is_ok());
}

#[test]
fn swarm_chunk_steps() {
    let d = data(100);
    let s = Share::with_id(ID, "f".into(), d.clone(), 16384, key(5));
    let c = s.chunk_cipher(0).unwrap();
    let h = &s.chunk_hashes[0];
    // the request failed: ask the next peer, or give up after the last one
    assert!(matches!(download::swarm_chunk_step(&s.key, &ID, 0, None, h, 0, 2), ChunkStep::NextPeer));
    assert!(matches!(download::swarm_chunk_step(&s.key, &ID, 0, None, h, 1, 2), ChunkStep::Fail(DownloadError::ChunkUnavailable)));
    // wrong key, wrong index, other file id: the chunk does not open
    assert!(matches!(download::swarm_chunk_step(&key(6), &ID, 0, Some(&c), h, 0, 2), ChunkStep::NextPeer));
    assert!(matches!(download::swarm_chunk_step(&s.key, &ID, 1, Some(&c), h, 1, 2), ChunkStep::Fail(DownloadError::ChunkUnavailable)));
    assert!(matches!(download::swarm_chunk_step(&s.key, &[1u8; 16], 0, Some(&c), h, 0, 1), ChunkStep::Fail(DownloadError::ChunkUnavailable)));
    // opens, but not to the bytes the manifest lists: stop
    let other = crypto::content_hash_hex(b"other");
    assert!(matches!(download::swarm_chunk_step(&s.key, &ID, 0, Some(&c), &other, 0, 2), ChunkStep::Fail(DownloadError::CorruptedChunk)));
    assert_eq!(download::open_chunk(&s.key, &ID, 0, &c, h), Ok(d.clone()));
    assert_eq!(download::open_chunk(&s.key, &ID, 0, &c, &other), Err(DownloadError::CorruptedChunk));
    let mut bad = c.clone();
    bad[0] ^= 1;
    assert_eq!(download::open_chunk(&s.key, &ID, 0, &bad, h), Err(DownloadError::Decrypt));
}

fn lobby_file(hash: &str, peers: usize) -> NetworkFile {
    NetworkFile {
        name: format!("n-{}", hash),
        size: 1,
        link: String::new(),
        content_hash: hash.to_string(),
        peer_count: peers,
        peers: (0..peers)
            .map(|i| PeerLocation { node_id: format!("node{}", i), onion: format!("p{}.onion", i), file_id: [i as u8; 16], link: String::new() })
            .collect(),
    }
}

#[test]
fn swarm_lookup_and_manifest() {
    let files = vec![lobby_file("aa", 0), lobby_file("bb", 2), lobby_file("bb", 1)];
    assert_eq!(download::find_swarm_file(&files, "cc"), Err(DownloadError::NotInSwarm));
    assert_eq!(download::find_swarm_file(&files, "aa"), Err(DownloadError::NoPeers));
    assert_eq!(download::find_swarm_file(&files, "bb"), Ok(1));
    assert_eq!(download::find_swarm_file(&vec![], "bb"), Err(DownloadError::NotInSwarm));
    let m = Manifest {
        file_id: ID,
        file_name: "f".into(),
        file_size: 5,
        chunk_size: 16384,
        total_chunks: 1,
        cipher: "XChaCha20-Poly1305".into(),
        content_hash: "bb".into(),
        chunk_hashes: vec!["h".into()],
    };
    assert_eq!(download::check_swarm_manifest(&m, "bb"), Ok(()));
    assert_eq!(download::check_swarm_manifest(&m, "aa"), Err(DownloadError::SwarmHashMismatch));
    let m2 = Manifest { chunk_hashes: vec![], ..m.clone() };
    assert_eq!(download::check_swarm_manifest(&m2, "bb"), Err(DownloadError::IncompleteManifest));
    assert_eq!(download::check_manifest(&m2), Err(DownloadError::IncompleteManifest));
    assert_eq!(download::check_manifest(&m), Ok(()));
}

#[test]
fn download_progress_numbers() {
    assert_eq!(download::eta_seconds(1000, 400, 100), Some(6));
    assert_eq!(download::eta_seconds(1000, 400, 0), None);
    assert_eq!(download::eta_seconds(1000, 1000, 7), None);
    assert_eq!(download::eta_seconds(10, 20, 7), None);
    assert_eq!(download::progress_permille(0, 0), 0);
    assert_eq!(download::progress_permille(1, 3), 333);
    assert_eq!(download::progress_permille(3, 3), 1000);
    assert_eq!(download::progress_permille(u64::MAX, u64::MAX), 1000);
}

#[test]
fn window_commands() {
    let mut s = SharedState::default();
    assert!(s.toggle_tor());
    assert!(matches!(s.control_queue.last(), Some(GuiControl::StartTor)));
    assert!(!s.share_paths(vec![std::path::PathBuf::from("/tmp/a")]));
    assert_eq!(s.control_queue.len(), 1);
    s.tor_started("abc.onion".into(), "127.0.0.1:9050".into(), 1_000);
    assert!(s.tor_active);
    assert_eq!(s.onion_addr.as_deref(), Some("abc.onion"));
    assert_eq!(s.tor_init, TorInitState::Ready);
    assert!(s.tor_init.is_settled());
    assert!(s.share_paths(vec![std::path::PathBuf::from("/tmp/a"), std::path::PathBuf::from("/tmp/b")]));
    assert!(!s.toggle_tor());
    let cmds = s.take_controls();
    assert!(s.control_queue.is_empty());
    assert_eq!(cmds.len(), 4);
    assert!(matches!(&cmds[1], GuiControl::AddFile(p) if p.as_os_str() == "/tmp/a"));
    assert!(matches!(&cmds[2], GuiControl::AddFile(p) if p.as_os_str() == "/tmp/b"));
    assert!(matches!(&cmds[3], GuiControl::StopTor));
    s.tor_stopped();
    assert!(!s.tor_active);
    assert!(s.onion_addr.is_none() && s.tor_socks_addr.is_none() && s.start_time.is_none());
    assert_eq!(s.tor_init, TorInitState::Idle);
    assert!(!TorInitState::Starting { progress: 820, message: "x".into() }.is_settled());
    assert_eq!(TorInitState::default(), TorInitState::Idle);
    assert!(!TorInitState::default().is_settled());
    assert!(TorInitState::Error("boom".into()).is_settled());
    assert!(!s.start_if_ready(true, false));
    assert!(s.start_if_ready(true, true));
    assert!(matches!(s.control_queue.last(), Some(GuiControl::StartTor)));
    s.tor_already_running("x.onion".into());
    assert!(s.tor_active);
    s.apply_stats(&GlobalStats { total_sessions: 3, total_bytes_sent: 7, chunks_served: 2 });
    assert_eq!((s.total_sessions, s.total_bytes, s.chunks_served), (3, 7, 2));
}

fn shared_file(id: u8) -> SharedFileInfo {
    SharedFileInfo { file_id: [id; 16], name: format!("f{}", id), size: 1, link: String::new(), content_hash: String::new(), downloads: 0, added_at: 0 }
}

#[test]
fn shared_files_and_downloads() {
    let mut s = SharedState::default();
    s.shared_files = vec![shared_file(1), shared_file(2), shared_file(1), shared_file(3)];
    s.remove_shared_file(&[1; 16]);
    assert_eq!(s.shared_files.iter().map(|f| f.name.as_str()).collect::<Vec<_>>(), vec!["f2", "f3"]);
    s.start_download([9; 16], "l".into());
    s.start_download([8; 16], "m".into());
    assert_eq!(s.active_downloads[0].name, "Aguardando...");
    assert_eq!(s.active_downloads[0].status, "Conectando ao tracker/peer...");
    let upd = DownloadUpdate { progress: Some(500), bytes_downloaded: Some(10), total_bytes: Some(20), name: Some("f.bin".into()), status: None, error: None, done: None, speed: Some(4), start: Some(77), eta: Some(Some(3)) };
    assert!(s.update_download(&[8; 16], upd));
    let d = &s.active_downloads[1];
    assert_eq!((d.progress, d.bytes_downloaded, d.total_bytes, d.speed_bytes_per_sec, d.start_time, d.eta_seconds), (500, 10, 20, 4, Some(77), Some(3)));
    assert_eq!(d.name, "f.bin");
    assert_eq!(d.link, "m");
    assert_eq!(d.status, "Conectando ao tracker/peer...");
    assert_eq!(s.active_downloads[0].name, "Aguardando...");
    let fail = DownloadUpdate { progress: None, bytes_downloaded: None, total_bytes: None, name: None, status: Some("Falha no download".into()), error: Some("x".into()), done: None, speed: Some(0), start: None, eta: Some(None) };
    assert!(s.update_download(&[9; 16], fail));
    assert!(s.active_downloads[0].is_done);
    assert_eq!(s.active_downloads[0].error.as_deref(), Some("x"));
    let none = DownloadUpdate { progress: Some(1), bytes_downloaded: None, total_bytes: None, name: None, status: None, error: None, done: None, speed: None, start: None, eta: None };
    assert!(!s.update_download(&[7; 16], none));
}

#[test]
fn swarm_asks_every_peer_once() {
    for n in 1usize..7 {
        for idx in [0u64, 1, 5, 17, u64::MAX] {
            let mut seen: Vec<usize> = (0..n).map(|a| download::swarm_peer(idx, a, n)).collect();
            seen.sort();
            assert_eq!(seen, (0..n).collect::<Vec<_>>());
        }
    }
}

#[test]
fn merge_keeps_old_entries_and_never_repeats_a_copy() {
    let mut lobby: Vec<NetworkFile> = Vec::new();
    discovery::merge_files(&mut lobby, &"n1".to_string(), &"o1".to_string(), &vec![announced(1, "h1"), announced(2, "h2")]);
    let before = lobby.clone();
    discovery::merge_files(
        &mut lobby,
        &"n2".to_string(),
        &"o2".to_string(),
        &vec![announced(5, "h2"), announced(5, "h2"), announced(6, "h3")],
    );
    discovery::merge_files(&mut lobby, &"n1".to_string(), &"o1".to_string(), &vec![announced(1, "h1")]);
    assert_eq!(lobby.len(), 3);
    for (old, new) in before.iter().zip(lobby.iter()) {
        assert_eq!((old.name.as_str(), old.size, old.link.as_str(), old.content_hash.as_str()), (new.name.as_str(), new.size, new.link.as_str(), new.content_hash.as_str()));
        for (a, b) in old.peers.iter().zip(new.peers.iter()) {
            assert_eq!((a.node_id.as_str(), a.file_id), (b.node_id.as_str(), b.file_id));
        }
    }
    assert_eq!(lobby[0].peers.len(), 1);
    assert_eq!(lobby[1].peers.len(), 2);
    assert_eq!(lobby[1].peer_count, 2);
    assert_eq!(lobby[2].content_hash, "h3");
    assert_eq!(lobby[2].peers[0].node_id, "n2");
}

#[test]
fn hashes_have_64_digits() {
    assert_eq!(crypto::content_hash_hex(b"").len(), 64);
    assert_eq!(crypto::content_hash_hex(b"abc").len(), 64);
    assert!(download::verify_plain_chunk(b"abc", "").is_err());
    assert!(download::verify_file(b"abc", "").is_err());
}

#[test]
fn share_names_and_chunk_sizes() {
    assert_eq!(share_file_name("report.pdf"), "report.pdf");
    assert_eq!(share_file_name("/tmp/data/report.pdf"), "report.pdf");
    assert_eq!(share_file_name("dir/sub/"), "sub");
    assert_eq!(share_file_name(""), "shared.bin");
    assert_eq!(share_file_name(".."), "shared.bin");
    assert_eq!(share_file_name("/"), "shared.bin");
    assert_eq!(check_chunk_size(16384), Ok(()));
    assert_eq!(check_chunk_size(16383), Err(ShareError::ChunkTooSmall));
}

#[test]
fn window_buttons() {
    let mut s = SharedState::default();
    let dir = || Some(std::path::PathBuf::from("/tmp"));
    assert_eq!(s.request_download("opoc://x".into(), dir()), DownloadRequest::Disabled);
    s.tor_started("a.onion".into(), "127.0.0.1:9050".into(), 0);
    assert_eq!(s.request_download(String::new(), dir()), DownloadRequest::NeedLink);
    assert_eq!(s.request_download("opoc://x".into(), None), DownloadRequest::NeedFolder);
    assert!(s.control_queue.is_empty());
    assert_eq!(s.request_download("opoc://x".into(), dir()), DownloadRequest::Queued);
    assert!(matches!(s.control_queue.last(), Some(GuiControl::DownloadItem(l, d)) if l == "opoc://x" && d.as_os_str() == "/tmp"));
    assert!(!s.request_remove(0));
    s.shared_files = vec![shared_file(4)];
    assert!(s.request_remove(0));
    assert!(matches!(s.control_queue.last(), Some(GuiControl::RemoveFile(id)) if *id == [4; 16]));
    assert!(!s.request_bootstrap_peer(String::new()));
    assert!(s.request_bootstrap_peer("p.onion".into()));
    assert_eq!(s.control_queue.len(), 3);

    let mut d = SharedState::default();
    assert_eq!(d.recent_activity(), vec![Activity::Nothing]);
    d.chunks_served = 4;
    assert_eq!(d.recent_activity(), vec![Activity::Nothing]);
    d.total_sessions = 2;
    assert_eq!(d.recent_activity(), vec![Activity::Sessions(2), Activity::ChunksServed(4)]);
    d.shared_files = vec![shared_file(1), shared_file(2)];
    d.total_sessions = 0;
    assert_eq!(d.recent_activity(), vec![Activity::ChunksServed(4), Activity::ActiveFiles(2)]);
}

#[test]
fn link_roundtrip_upper_case_host() {
    let l = ShareLink { onion: "ABCdef_~-x.onion".to_string(), file_id: ID, key: [7u8; 32] };
    let back = ShareLink::parse(&l.to_string()).unwrap();
    assert_eq!((back.onion.as_str(), back.file_id, back.key), ("ABCdef_~-x.onion", ID, [7u8; 32]));
}

#[test]
fn worker_reports() {
    let mut s = SharedState::default();
    s.tor_starting();
    assert_eq!(s.tor_init, TorInitState::Starting { progress: 820, message: "Criando Onion Service…".into() });
    s.tor_start_failed("no tor");
    assert_eq!(
        s.tor_init,
        TorInitState::Error("Falha ao iniciar Tor: no tor.\nVerifique se o Tor está instalado: https://www.torproject.org".into())
    );
    s.add_file_failed("denied");
    assert_eq!(s.tor_init, TorInitState::Error("Erro ao adicionar arquivo: denied".into()));
    let share = Share::with_id(ID, "f.bin".into(), data(10), 16384, key(1));
    s.file_shared(&share, "opoc://l".into(), 42);
    let f = &s.shared_files[0];
    assert_eq!((f.file_id, f.name.as_str(), f.size, f.link.as_str(), f.downloads, f.added_at), (ID, "f.bin", 10, "opoc://l", 0, 42));
    assert_eq!(f.content_hash, share.content_hash);
    let mut cfg = AppConfig::default();
    s.accept_terms(&mut cfg);
    assert!(cfg.terms_accepted);
    assert!(matches!(s.control_queue.last(), Some(GuiControl::StartTor)));
}
