//! The state of the file server and the answers of its routes.

use vstd::prelude::*;
use crate::crypto::{content_hash, FileId};
use crate::ids::{file_id_to_string, new_file_id, same_id, uuid_text};
use crate::share::{chunk_bytes, Share, ShareError};
use crate::text::{push_chars, str_chars, string_from_chars};
use crate::tracker_proto::{announced_view, AnnouncedFile, AnnouncedFileV, GossipMessage};

verus! {

/// Cumulated server statistics.
#[derive(Clone, Copy, Debug)]
pub struct GlobalStats {
    pub total_sessions: u64,
    pub total_bytes_sent: u64,
    pub chunks_served: u64,
}

impl Default for GlobalStats {
    fn default() -> (s: Self)
        ensures
            s.total_sessions == 0,
            s.total_bytes_sent == 0,
            s.chunks_served == 0,
    {
        GlobalStats { total_sessions: 0, total_bytes_sent: 0, chunks_served: 0 }
    }
}

impl GlobalStats {
    /// Counts one more chunk served, of `bytes` bytes.
    pub fn record_bytes(&mut self, bytes: u64)
        requires
            old(self).chunks_served < u64::MAX,
            old(self).total_bytes_sent + bytes <= u64::MAX,
        ensures
            final(self).chunks_served == old(self).chunks_served + 1,
            final(self).total_bytes_sent == old(self).total_bytes_sent + bytes,
            final(self).total_sessions == old(self).total_sessions,
    {
        self.chunks_served += 1;
        self.total_bytes_sent += bytes;
    }
}

/// The answer of the presence route: how many downloaders are online.
#[derive(Debug, Clone, Copy)]
pub struct PresenceResponse {
    pub online: usize,
}

/// The answer of the register route.
#[derive(Debug, Clone, Copy)]
pub struct RegisterResponse {
    pub session_id: FileId,
}

/// The body of a ping request.
#[derive(Debug, Clone, Copy)]
pub struct PingRequest {
    pub session_id: FileId,
}

/// What a downloader needs to fetch and check a file.
#[derive(Debug, Clone)]
pub struct Manifest {
    pub file_id: FileId,
    pub file_name: String,
    pub file_size: u64,
    pub chunk_size: usize,
    pub total_chunks: u64,
    pub cipher: String,
    pub content_hash: String,
    pub chunk_hashes: Vec<String>,
}

/// One row of the file list.
#[derive(Debug, Clone)]
pub struct FileEntry {
    pub file_id: FileId,
    pub file_name: String,
    pub file_size: u64,
    pub total_chunks: u64,
    pub cipher: String,
    pub content_hash: String,
}

/// Why a route refuses a request.
#[derive(Debug, Clone, Copy, PartialEq, Eq, Structural)]
pub enum RouteError {
    /// No such file, or no such chunk (404).
    NotFound,
    /// The chunk could not be encrypted (500).
    Internal,
}

/// The cipher every share uses, as the manifest names it.
pub open spec fn cipher_name() -> Seq<char> {
    "XChaCha20-Poly1305"@
}

/// Whether the shares have distinct file ids.
pub open spec fn ids_distinct(s: Seq<Share>) -> bool {
    forall|i: int, j: int| 0 <= i < j < s.len() ==> s[i].file_id@ != s[j].file_id@
}

/// Whether some share has file id `id`.
pub open spec fn has_share(s: Seq<Share>, id: Seq<u8>) -> bool {
    exists|i: int| 0 <= i < s.len() && (#[trigger] s[i]).file_id@ == id
}

/// The position of the share with file id `id` (-1 if none).
pub open spec fn share_index(s: Seq<Share>, id: Seq<u8>) -> int {
    if has_share(s, id) {
        choose|i: int| 0 <= i < s.len() && (#[trigger] s[i]).file_id@ == id
    } else {
        -1
    }
}

/// The shares after `s` is added: it replaces the share with the same file
/// id in place, or is added at the end.
pub open spec fn share_add(shares: Seq<Share>, s: Share) -> Seq<Share> {
    if has_share(shares, s.file_id@) {
        shares.update(share_index(shares, s.file_id@), s)
    } else {
        shares.push(s)
    }
}

/// A share that was just added is the one found under its file id, and file
/// ids stay distinct.
pub proof fn lemma_add_then_get(shares: Seq<Share>, s: Share)
    requires
        ids_distinct(shares),
    ensures
        ids_distinct(share_add(shares, s)),
        has_share(share_add(shares, s), s.file_id@),
        share_add(shares, s)[share_index(share_add(shares, s), s.file_id@)] == s,
{
    let t = share_add(shares, s);
    if has_share(shares, s.file_id@) {
        let i = share_index(shares, s.file_id@);
        assert(t[i] == s);
    } else {
        assert(t[shares.len() as int] == s);
    }
    assert(has_share(t, s.file_id@));
    let j = share_index(t, s.file_id@);
    assert(t[j].file_id@ == s.file_id@);
}

/// A session that was just seen is present, with the time it was seen.
pub proof fn lemma_touch_then_present(s: Seq<(Seq<u8>, u64)>, id: Seq<u8>, now: u64)
    requires
        sessions_distinct(s),
    ensures
        sessions_distinct(session_touch(s, id, now)),
        has_session(session_touch(s, id, now), id),
        forall|i: int| 0 <= i < session_touch(s, id, now).len() && (#[trigger] session_touch(s, id, now)[i]).0 == id
            ==> session_touch(s, id, now)[i].1 == now,
{
    let t = session_touch(s, id, now);
    if has_session(s, id) {
        let c = choose|c: int| 0 <= c < s.len() && (#[trigger] s[c]).0 == id;
        assert(t[c].0 == id);
    } else {
        assert(t[s.len() as int].0 == id);
    }
}

/// Whether the sessions have distinct ids.
pub open spec fn sessions_distinct(s: Seq<(Seq<u8>, u64)>) -> bool {
    forall|i: int, j: int| 0 <= i < j < s.len() ==> s[i].0 != s[j].0
}

/// Whether some session has id `id`.
pub open spec fn has_session(s: Seq<(Seq<u8>, u64)>, id: Seq<u8>) -> bool {
    exists|i: int| 0 <= i < s.len() && (#[trigger] s[i]).0 == id
}

/// The sessions after session `id` is seen at `now`: its time is refreshed in
/// place, or it is added at the end.
pub open spec fn session_touch(s: Seq<(Seq<u8>, u64)>, id: Seq<u8>, now: u64) -> Seq<(Seq<u8>, u64)> {
    if has_session(s, id) {
        s.update(choose|i: int| 0 <= i < s.len() && (#[trigger] s[i]).0 == id, (id, now))
    } else {
        s.push((id, now))
    }
}

/// Whether a session last seen at `t` is still online at `now`.
pub open spec fn session_live(t: u64, now: u64, ttl: u64) -> bool {
    (if now >= t { now - t } else { 0 }) <= ttl
}

/// The server's state: the files it serves, the downloaders present, and
/// what it has served so far.
pub struct AppState {
    shares: Vec<Share>,
    sessions: Vec<(FileId, u64)>,
    ttl_ms: u64,
    stats: GlobalStats,
    node_id: String,
    onion_addr: Option<String>,
}

impl AppState {
    /// The files served, in the order they were added.
    pub closed spec fn shares(&self) -> Seq<Share> {
        self.shares@
    }

    /// The downloaders present: session id and last time seen (milliseconds).
    pub closed spec fn sessions(&self) -> Seq<(Seq<u8>, u64)> {
        self.sessions@.map_values(|e: (FileId, u64)| (e.0@, e.1))
    }

    /// How long a downloader stays online after its last ping (milliseconds).
    pub closed spec fn ttl_view(&self) -> u64 {
        self.ttl_ms
    }

    /// What the server has served so far.
    pub closed spec fn stats_view(&self) -> GlobalStats {
        self.stats
    }

    /// The id of the node that runs the server.
    pub closed spec fn node_view(&self) -> Seq<char> {
        self.node_id@
    }

    /// The onion address the server is reachable at, once known.
    pub closed spec fn onion_view(&self) -> Option<Seq<char>> {
        match self.onion_addr {
            Some(o) => Some(o@),
            None => None,
        }
    }

    /// How long a downloader stays online after its last ping (milliseconds).
    pub fn ttl_ms(&self) -> (t: u64)
        ensures
            t == self.ttl_view(),
    {
        self.ttl_ms
    }

    /// What the server has served so far.
    pub fn stats(&self) -> (s: GlobalStats)
        ensures
            s == self.stats_view(),
    {
        self.stats
    }

    /// The id of the node that runs the server.
    pub fn node_id(&self) -> (s: &String)
        ensures
            s@ == self.node_view(),
    {
        &self.node_id
    }

    /// The onion address the server is reachable at, once known.
    pub fn onion_addr(&self) -> (o: &Option<String>)
        ensures
            o is Some <==> self.onion_view() is Some,
            o matches Some(x) ==> Some(x@) == self.onion_view(),
    {
        &self.onion_addr
    }

    /// Records the onion address the server is reachable at.
    pub fn set_onion_addr(&mut self, onion: String)
        ensures
            final(self).onion_view() == Some(onion@),
            final(self).shares() == old(self).shares(),
            final(self).sessions() == old(self).sessions(),
            final(self).stats_view() == old(self).stats_view(),
            final(self).ttl_view() == old(self).ttl_view(),
            final(self).node_view() == old(self).node_view(),
    {
        self.onion_addr = Some(onion);
    }

    /// Counts one more chunk served, of `bytes` bytes.
    pub fn record_bytes(&mut self, bytes: u64)
        requires
            old(self).stats_view().chunks_served < u64::MAX,
            old(self).stats_view().total_bytes_sent + bytes <= u64::MAX,
        ensures
            final(self).stats_view().chunks_served == old(self).stats_view().chunks_served + 1,
            final(self).stats_view().total_bytes_sent == old(self).stats_view().total_bytes_sent + bytes,
            final(self).stats_view().total_sessions == old(self).stats_view().total_sessions,
            final(self).shares() == old(self).shares(),
            final(self).sessions() == old(self).sessions(),
            final(self).ttl_view() == old(self).ttl_view(),
            final(self).node_view() == old(self).node_view(),
            final(self).onion_view() == old(self).onion_view(),
    {
        self.stats.record_bytes(bytes);
    }

    /// The state's invariant: ids are distinct and every share is well formed.
    pub open spec fn wf(&self) -> bool {
        &&& ids_distinct(self.shares())
        &&& forall|i: int| 0 <= i < self.shares().len() ==> (#[trigger] self.shares()[i]).wf()
        &&& sessions_distinct(self.sessions())
    }

    /// A server with no files and no downloaders; downloaders stay online for
    /// six seconds after their last ping.
    pub fn new(node_id: String) -> (s: AppState)
        ensures
            s.wf(),
            s.shares().len() == 0,
            s.sessions().len() == 0,
            s.ttl_view() == 6000,
            s.stats_view().total_sessions == 0,
            s.stats_view().total_bytes_sent == 0,
            s.stats_view().chunks_served == 0,
            s.node_view() == node_id@,
            s.onion_view() is None,
    {
        let s = AppState {
            shares: Vec::new(),
            sessions: Vec::new(),
            ttl_ms: 6000,
            stats: GlobalStats::default(),
            node_id,
            onion_addr: None,
        };
        assert(s.sessions() =~= Seq::<(Seq<u8>, u64)>::empty());
        s
    }

    fn find_share(&self, id: &FileId) -> (r: Option<usize>)
        ensures
            match r {
                Some(i) => i < self.shares().len() && self.shares()[i as int].file_id@ == id@,
                None => !has_share(self.shares(), id@),
            },
    {
        let mut i: usize = 0;
        while i < self.shares.len()
            invariant
                i <= self.shares@.len(),
                forall|k: int| 0 <= k < i ==> self.shares@[k].file_id@ != id@,
            decreases self.shares.len() - i,
        {
            if same_id(&self.shares[i].file_id, id) {
                return Some(i);
            }
            i += 1;
        }
        None
    }

    /// The share with file id `id`, if it is served.
    pub fn get_share(&self, id: &FileId) -> (r: Option<&Share>)
        requires
            self.wf(),
        ensures
            has_share(self.shares(), id@) ==> (r matches Some(s) && *s == self.shares()[share_index(self.shares(), id@)]),
            !has_share(self.shares(), id@) ==> r is None,
    {
        match self.find_share(id) {
            Some(i) => {
                assert(has_share(self.shares(), id@));
                assert(share_index(self.shares(), id@) == i);
                Some(&self.shares[i])
            },
            None => None,
        }
    }

    /// Serves `share`, replacing the share with the same file id if there is one.
    pub fn add_share(&mut self, share: Share)
        requires
            old(self).wf(),
            share.wf(),
        ensures
            final(self).wf(),
            final(self).shares() == share_add(old(self).shares(), share),
            final(self).sessions() == old(self).sessions(),
            final(self).stats_view() == old(self).stats_view(),
            final(self).ttl_view() == old(self).ttl_view(),
            final(self).node_view() == old(self).node_view(),
            final(self).onion_view() == old(self).onion_view(),
    {
        match self.find_share(&share.file_id) {
            Some(i) => {
                assert(share_index(self.shares(), share.file_id@) == i);
                self.shares.set(i, share);
            },
            None => {
                self.shares.push(share);
            },
        }
    }

    /// Stops serving the file with id `id`.
    pub fn remove_share(&mut self, id: &FileId)
        requires
            old(self).wf(),
        ensures
            final(self).wf(),
            has_share(old(self).shares(), id@) ==>
                final(self).shares() == old(self).shares().remove(share_index(old(self).shares(), id@)),
            !has_share(old(self).shares(), id@) ==> final(self).shares() == old(self).shares(),
            !has_share(final(self).shares(), id@),
            final(self).sessions() == old(self).sessions(),
            final(self).stats_view() == old(self).stats_view(),
            final(self).ttl_view() == old(self).ttl_view(),
            final(self).node_view() == old(self).node_view(),
            final(self).onion_view() == old(self).onion_view(),
    {
        match self.find_share(id) {
            Some(i) => {
                assert(share_index(self.shares(), id@) == i);
                let _ = self.shares.remove(i);
                assert forall|k: int| 0 <= k < self.shares().len() implies (#[trigger] self.shares()[k]).file_id@ != id@ by {
                    if k < i {
                        assert(self.shares()[k] == old(self).shares()[k]);
                    } else {
                        assert(self.shares()[k] == old(self).shares()[k + 1]);
                    }
                }
            },
            None => {},
        }
    }

    /// The number of files served.
    pub fn share_count(&self) -> (n: usize)
        ensures
            n == self.shares().len(),
    {
        self.shares.len()
    }

    fn touch(&mut self, id: FileId, now_ms: u64)
        requires
            old(self).wf(),
        ensures
            final(self).wf(),
            final(self).sessions() == session_touch(old(self).sessions(), id@, now_ms),
            final(self).shares() == old(self).shares(),
            final(self).stats_view() == old(self).stats_view(),
            final(self).ttl_view() == old(self).ttl_view(),
            final(self).node_view() == old(self).node_view(),
            final(self).onion_view() == old(self).onion_view(),
    {
        let ghost f = |e: (FileId, u64)| (e.0@, e.1);
        let mut i: usize = 0;
        while i < self.sessions.len()
            invariant
                i <= self.sessions@.len(),
                self.sessions() == old(self).sessions(),
                self.shares() == old(self).shares(),
                self.stats == old(self).stats,
                self.ttl_ms == old(self).ttl_ms,
                self.node_id == old(self).node_id,
                self.onion_addr == old(self).onion_addr,
                self.wf(),
                forall|k: int| 0 <= k < i ==> self.sessions()[k].0 != id@,
            decreases self.sessions.len() - i,
        {
            if same_id(&self.sessions[i].0, &id) {
                assert(self.sessions()[i as int].0 == id@);
                assert(has_session(self.sessions(), id@));
                let ghost prev = self.sessions@;
                self.sessions.set(i, (id, now_ms));
                proof {
                    let c = choose|c: int| 0 <= c < old(self).sessions().len() && (#[trigger] old(self).sessions()[c]).0 == id@;
                    assert(c == i);
                    assert(self.sessions() =~= old(self).sessions().update(i as int, (id@, now_ms)));
                }
                return;
            }
            i += 1;
        }
        self.sessions.push((id, now_ms));
        assert(self.sessions() =~= old(self).sessions().push((id@, now_ms)));
    }

    /// The number of downloaders present (whether or not their time to live
    /// has run out).
    pub fn session_count(&self) -> (n: usize)
        ensures
            n == self.sessions().len(),
    {
        self.sessions.len()
    }

    /// Registers a new downloader of the file `file_id` under a fresh random
    /// session id. Refused (`NotFound`) when the file is not served.
    pub fn register(&mut self, file_id: &FileId, now_ms: u64) -> (r: Result<RegisterResponse, RouteError>)
        requires
            old(self).wf(),
            old(self).stats_view().total_sessions < u64::MAX,
        ensures
            final(self).wf(),
            !has_share(old(self).shares(), file_id@) ==> r == Err::<RegisterResponse, RouteError>(RouteError::NotFound)
                && final(self).sessions() == old(self).sessions() && final(self).stats_view() == old(self).stats_view(),
            has_share(old(self).shares(), file_id@) ==> (r matches Ok(resp)
                && final(self).sessions() == session_touch(old(self).sessions(), resp.session_id@, now_ms)
                && final(self).stats_view().total_sessions == old(self).stats_view().total_sessions + 1
                && final(self).stats_view().total_bytes_sent == old(self).stats_view().total_bytes_sent
                && final(self).stats_view().chunks_served == old(self).stats_view().chunks_served),
            final(self).shares() == old(self).shares(),
            final(self).ttl_view() == old(self).ttl_view(),
            final(self).node_view() == old(self).node_view(),
            final(self).onion_view() == old(self).onion_view(),
    {
        if self.find_share(file_id).is_none() {
            return Err(RouteError::NotFound);
        }
        let id = new_file_id();
        self.touch(id, now_ms);
        self.stats.total_sessions = self.stats.total_sessions + 1;
        Ok(RegisterResponse { session_id: id })
    }

    /// Marks session `session_id` as seen at `now_ms` (adding it if unknown),
    /// and returns the number of sessions.
    pub fn ping(&mut self, session_id: &FileId, now_ms: u64) -> (n: usize)
        requires
            old(self).wf(),
        ensures
            final(self).wf(),
            final(self).sessions() == session_touch(old(self).sessions(), session_id@, now_ms),
            n == final(self).sessions().len(),
            final(self).shares() == old(self).shares(),
            final(self).stats_view() == old(self).stats_view(),
            final(self).ttl_view() == old(self).ttl_view(),
            final(self).node_view() == old(self).node_view(),
            final(self).onion_view() == old(self).onion_view(),
    {
        self.touch(*session_id, now_ms);
        self.sessions.len()
    }

    /// Forgets the sessions not seen within the time to live, and returns how
    /// many remain.
    pub fn online_count(&mut self, now_ms: u64) -> (n: usize)
        requires
            old(self).wf(),
        ensures
            final(self).wf(),
            final(self).sessions() == old(self).sessions().filter(|e: (Seq<u8>, u64)| session_live(e.1, now_ms, old(self).ttl_view())),
            n == final(self).sessions().len(),
            final(self).shares() == old(self).shares(),
            final(self).stats_view() == old(self).stats_view(),
            final(self).ttl_view() == old(self).ttl_view(),
            final(self).node_view() == old(self).node_view(),
            final(self).onion_view() == old(self).onion_view(),
    {
        let ghost f = |e: (FileId, u64)| (e.0@, e.1);
        let ghost pred = |e: (Seq<u8>, u64)| session_live(e.1, now_ms, self.ttl_ms);
        let ghost orig = self.sessions();
        let ttl = self.ttl_ms;
        let mut rest: Vec<(FileId, u64)> = Vec::new();
        std::mem::swap(&mut rest, &mut self.sessions);
        assert(rest@.map_values(f) == orig);
        let mut kept: Vec<(FileId, u64)> = Vec::new();
        let ghost mut i: int = 0;
        while rest.len() > 0
            invariant
                0 <= i <= orig.len(),
                rest@.map_values(f) == orig.skip(i),
                kept@.map_values(f) == orig.take(i).filter(pred),
                sessions_distinct(orig),
                sessions_distinct(kept@.map_values(f)),
                forall|a: int| 0 <= a < kept@.len() ==> exists|j: int| 0 <= j < i && #[trigger] kept@.map_values(f)[a] == orig[j],
                forall|r: (Seq<u8>, u64)| #[trigger] pred(r) == session_live(r.1, now_ms, ttl),
                forall|x: (FileId, u64)| #[trigger] f(x) == (x.0@, x.1),
            decreases rest.len(),
        {
            assert(rest@.map_values(f).len() == rest@.len());
            assert(i < orig.len());
            let e = rest.remove(0);
            assert(orig.skip(i)[0] == f(e));
            proof {
                assert(orig.take(i + 1) =~= orig.take(i).push(orig[i]));
                orig.take(i).lemma_filter_push(orig[i], pred);
                assert(orig.skip(i + 1) =~= orig.skip(i).drop_first());
            }
            let live = if now_ms >= e.1 { now_ms - e.1 <= ttl } else { true };
            let ghost before = kept@.map_values(f);
            assert(pred(orig[i]) == live);
            if live {
                kept.push(e);
                proof {
                    assert(kept@.map_values(f) =~= before.push(orig[i]));
                    assert forall|a: int| 0 <= a < kept@.len() implies exists|j: int| 0 <= j < i + 1 && #[trigger] kept@.map_values(f)[a] == orig[j] by {
                        if a < before.len() {
                            let j = choose|j: int| 0 <= j < i && #[trigger] before[a] == orig[j];
                            assert(kept@.map_values(f)[a] == orig[j]);
                        } else {
                            assert(kept@.map_values(f)[a] == orig[i]);
                        }
                    }
                    assert forall|a: int, b: int| 0 <= a < b < kept@.map_values(f).len() implies
                        kept@.map_values(f)[a].0 != kept@.map_values(f)[b].0 by {
                        if b == before.len() {
                            let j = choose|j: int| 0 <= j < i && #[trigger] before[a] == orig[j];
                            assert(kept@.map_values(f)[a] == orig[j]);
                        } else {
                            assert(kept@.map_values(f)[a] == before[a]);
                            assert(kept@.map_values(f)[b] == before[b]);
                        }
                    }
                }
            }
            proof {
                i = i + 1;
                assert(rest@.map_values(f) =~= orig.skip(i));
                assert(kept@.map_values(f) =~= orig.take(i).filter(pred));
            }
        }
        assert(orig.take(i) =~= orig);
        self.sessions = kept;
        assert(self.sessions() =~= kept@.map_values(f));
        self.sessions.len()
    }
}


/// The manifest link of file `id` served at `onion`.
pub open spec fn manifest_link(onion: Seq<char>, id: Seq<u8>) -> Seq<char> {
    "http://"@ + onion + "/s/"@ + uuid_text(id) + "/manifest"@
}

/// The onion address a gossip answer names: the server's, or empty.
pub open spec fn onion_or_empty(o: Option<Seq<char>>) -> Seq<char> {
    match o {
        Some(x) => x,
        None => Seq::empty(),
    }
}

fn clone_strings(v: &Vec<String>) -> (r: Vec<String>)
    ensures
        r.deep_view() == v.deep_view(),
{
    let mut r: Vec<String> = Vec::new();
    let mut i: usize = 0;
    while i < v.len()
        invariant
            i <= v@.len(),
            r@.len() == i,
            forall|k: int| 0 <= k < i ==> #[trigger] r@[k]@ == v@[k]@,
        decreases v.len() - i,
    {
        r.push(v[i].clone());
        i += 1;
    }
    assert(r.deep_view() =~= v.deep_view());
    r
}

impl AppState {
    /// The manifest of file `id`, or `NotFound` when it is not served.
    pub fn manifest(&self, id: &FileId) -> (r: Result<Manifest, RouteError>)
        requires
            self.wf(),
        ensures
            !has_share(self.shares(), id@) ==> r == Err::<Manifest, RouteError>(RouteError::NotFound),
            has_share(self.shares(), id@) ==> (r matches Ok(m) && {
                let s = self.shares()[share_index(self.shares(), id@)];
                &&& m.file_id == s.file_id
                &&& m.file_name@ == s.file_name@
                &&& m.file_size == s.file_size
                &&& m.chunk_size == s.chunk_size
                &&& m.total_chunks == s.total_chunks
                &&& m.cipher@ == cipher_name()
                &&& m.content_hash@ == s.content_hash@
                &&& m.chunk_hashes.deep_view() == s.chunk_hashes.deep_view()
            }),
    {
        match self.get_share(id) {
            Some(s) => Ok(Manifest {
                file_id: s.file_id,
                file_name: s.file_name.clone(),
                file_size: s.file_size,
                chunk_size: s.chunk_size,
                total_chunks: s.total_chunks,
                cipher: "XChaCha20-Poly1305".to_owned(),
                content_hash: s.content_hash.clone(),
                chunk_hashes: clone_strings(&s.chunk_hashes),
            }),
            None => Err(RouteError::NotFound),
        }
    }

    /// The ciphertext of chunk `idx` of file `id`: `NotFound` when the file
    /// is not served or has no such chunk, `Internal` when encryption fails.
    pub fn chunk(&self, id: &FileId, idx: u64) -> (r: Result<Vec<u8>, RouteError>)
        requires
            self.wf(),
        ensures
            !has_share(self.shares(), id@) ==> r == Err::<Vec<u8>, RouteError>(RouteError::NotFound),
            has_share(self.shares(), id@) ==> {
                let s = self.shares()[share_index(self.shares(), id@)];
                let pt = chunk_bytes(s.contents(), s.chunk_size as nat, idx as nat);
                &&& idx >= s.total_chunks ==> r == Err::<Vec<u8>, RouteError>(RouteError::NotFound)
                &&& idx < s.total_chunks && crate::crypto::aead_len_ok(pt.len()) && pt.len() + 16 <= usize::MAX
                    ==> (r matches Ok(c) && c@ == crate::crypto::sealed_chunk(s.key@, s.file_id@, idx, pt))
                &&& idx < s.total_chunks && !(crate::crypto::aead_len_ok(pt.len()) && pt.len() + 16 <= usize::MAX)
                    ==> r == Err::<Vec<u8>, RouteError>(RouteError::Internal)
            },
    {
        let s = match self.get_share(id) {
            Some(s) => s,
            None => {
                return Err(RouteError::NotFound);
            },
        };
        if idx >= s.total_chunks {
            return Err(RouteError::NotFound);
        }
        match s.chunk_cipher(idx) {
            Ok(c) => Ok(c),
            Err(_) => Err(RouteError::Internal),
        }
    }

    /// One row per file served, in the order they were added.
    pub fn list_files(&self) -> (r: Vec<FileEntry>)
        requires
            self.wf(),
        ensures
            r@.len() == self.shares().len(),
            forall|i: int| 0 <= i < r@.len() ==> {
                let e = #[trigger] r@[i];
                let s = self.shares()[i];
                &&& e.file_id == s.file_id
                &&& e.file_name@ == s.file_name@
                &&& e.file_size == s.file_size
                &&& e.total_chunks == s.total_chunks
                &&& e.cipher@ == cipher_name()
                &&& e.content_hash@ == s.content_hash@
            },
    {
        let mut r: Vec<FileEntry> = Vec::new();
        let mut i: usize = 0;
        while i < self.shares.len()
            invariant
                i <= self.shares@.len(),
                r@.len() == i,
                forall|k: int| 0 <= k < i ==> {
                    let e = #[trigger] r@[k];
                    let s = self.shares@[k];
                    &&& e.file_id == s.file_id
                    &&& e.file_name@ == s.file_name@
                    &&& e.file_size == s.file_size
                    &&& e.total_chunks == s.total_chunks
                    &&& e.cipher@ == cipher_name()
                    &&& e.content_hash@ == s.content_hash@
                },
            decreases self.shares.len() - i,
        {
            let s = &self.shares[i];
            r.push(FileEntry {
                file_id: s.file_id,
                file_name: s.file_name.clone(),
                file_size: s.file_size,
                total_chunks: s.total_chunks,
                cipher: "XChaCha20-Poly1305".to_owned(),
                content_hash: s.content_hash.clone(),
            });
            i += 1;
        }
        r
    }

    /// What this node tells a peer that asks for gossip: its id, its onion
    /// address (empty while unknown) and every file it serves, each with its
    /// manifest link.
    pub fn gossip(&self) -> (g: GossipMessage)
        requires
            self.wf(),
        ensures
            g.node_id@ == self.node_view(),
            g.onion@ == onion_or_empty(self.onion_view()),
            g.known_peers@.len() == 0,
            g.files@.len() == self.shares().len(),
            forall|i: int| 0 <= i < g.files@.len() ==> {
                let f = #[trigger] g.files@[i];
                let s = self.shares()[i];
                &&& f.file_id == s.file_id
                &&& f.name@ == s.file_name@
                &&& f.size == s.file_size
                &&& f.link@ == manifest_link(onion_or_empty(self.onion_view()), s.file_id@)
                &&& f.content_hash@ == s.content_hash@
            },
    {
        let onion = match &self.onion_addr {
            Some(o) => o.clone(),
            None => String::new(),
        };
        let onion_chars = str_chars(onion.as_str());
        let mut files: Vec<AnnouncedFile> = Vec::new();
        let mut i: usize = 0;
        while i < self.shares.len()
            invariant
                i <= self.shares@.len(),
                onion@ == onion_or_empty(self.onion_view()),
                onion_chars@ == onion@,
                files@.len() == i,
                forall|k: int| 0 <= k < i ==> {
                    let f = #[trigger] files@[k];
                    let s = self.shares@[k];
                    &&& f.file_id == s.file_id
                    &&& f.name@ == s.file_name@
                    &&& f.size == s.file_size
                    &&& f.link@ == manifest_link(onion@, s.file_id@)
                    &&& f.content_hash@ == s.content_hash@
                },
            decreases self.shares.len() - i,
        {
            let s = &self.shares[i];
            let mut link = str_chars("http://");
            push_chars(&mut link, &onion_chars);
            push_chars(&mut link, &str_chars("/s/"));
            push_chars(&mut link, &str_chars(file_id_to_string(&s.file_id).as_str()));
            push_chars(&mut link, &str_chars("/manifest"));
            files.push(AnnouncedFile {
                file_id: s.file_id,
                name: s.file_name.clone(),
                size: s.file_size,
                link: string_from_chars(&link),
                content_hash: s.content_hash.clone(),
            });
            i += 1;
        }
        let known_peers: Vec<String> = Vec::new();
        GossipMessage { node_id: self.node_id.clone(), onion, files, known_peers }
    }
}

} // verus!
