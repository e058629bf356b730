//! The checks and choices a downloader makes.

use vstd::prelude::*;
use crate::crypto::{aead_len_ok, content_hash, content_hash_hex, decrypt_chunk, sealed_chunk, FileId, FileKey};
use crate::server::Manifest;
use crate::tracker_proto::{files_view, NetworkFile, NetworkFileV};
use crate::ids::{file_id_to_string, uuid_text};
use crate::share::{chunk_bytes, chunk_count, joined_chunks, lemma_chunks_cover_file};
use crate::text::{chars_eq, contains_chars, contains_seq, decimal, push_chars, push_decimal, str_chars, string_from_chars};

verus! {

/// Why a download stops.
#[derive(Debug, Clone, Copy, PartialEq, Eq, Structural)]
pub enum DownloadError {
    /// The manifest does not list one hash per chunk.
    IncompleteManifest,
    /// A chunk's content hash differs from the manifest's: corrupted or tampered.
    CorruptedChunk,
    /// The whole file's content hash differs from the manifest's.
    CorruptedFile,
    /// The chunk did not decrypt under the link's key: wrong key, wrong
    /// place, or tampered bytes.
    Decrypt,
    /// No peer of the swarm answered with the chunk.
    ChunkUnavailable,
    /// A chunk is still missing when the file is put together.
    MissingChunk,
    /// No file of the lobby has the content hash asked for.
    NotInSwarm,
    /// The lobby knows the file but no peer that offers it.
    NoPeers,
    /// The peer's manifest names another content hash than the lobby.
    SwarmHashMismatch,
}

/// Checks a decrypted chunk against the hash the manifest lists for it.
pub fn verify_plain_chunk(chunk: &[u8], expected_hash: &str) -> (r: Result<(), DownloadError>)
    ensures
        r is Ok <==> content_hash(chunk@) == expected_hash@,
        content_hash(chunk@).len() == 64,
        expected_hash@.len() != 64 ==> r is Err,
        r is Err ==> r == Err::<(), DownloadError>(DownloadError::CorruptedChunk),
{
    let actual = content_hash_hex(chunk);
    if chars_eq(&str_chars(actual.as_str()), &str_chars(expected_hash)) {
        Ok(())
    } else {
        Err(DownloadError::CorruptedChunk)
    }
}

/// Checks the whole downloaded file against the manifest's content hash.
pub fn verify_file(data: &[u8], expected_hash: &str) -> (r: Result<(), DownloadError>)
    ensures
        r is Ok <==> content_hash(data@) == expected_hash@,
        content_hash(data@).len() == 64,
        expected_hash@.len() != 64 ==> r is Err,
        r is Err ==> r == Err::<(), DownloadError>(DownloadError::CorruptedFile),
{
    let actual = content_hash_hex(data);
    if chars_eq(&str_chars(actual.as_str()), &str_chars(expected_hash)) {
        Ok(())
    } else {
        Err(DownloadError::CorruptedFile)
    }
}

/// Checks that the manifest lists one hash per chunk.
pub fn check_manifest(m: &Manifest) -> (r: Result<(), DownloadError>)
    ensures
        r is Ok <==> m.chunk_hashes@.len() == m.total_chunks,
        r is Err ==> r == Err::<(), DownloadError>(DownloadError::IncompleteManifest),
{
    if m.chunk_hashes.len() as u64 == m.total_chunks {
        Ok(())
    } else {
        Err(DownloadError::IncompleteManifest)
    }
}

/// Whether requests to `base_url` go through the tor SOCKS proxy: only for
/// onion addresses, and only when a proxy is known.
pub fn should_use_proxy(base_url: &str, has_socks: bool) -> (r: bool)
    ensures
        r == (contains_seq(base_url@, ".onion"@) && has_socks),
{
    contains_chars(&str_chars(base_url), &str_chars(".onion")) && has_socks
}

/// How many chunks a swarm download fetches at once: the number of peers,
/// but at least 2 and at most 8.
pub fn swarm_concurrency(peers: usize) -> (n: usize)
    ensures
        n == if peers < 2 { 2 } else if peers > 8 { 8 } else { peers },
{
    if peers < 2 {
        2
    } else if peers > 8 {
        8
    } else {
        peers
    }
}

/// The peer asked for chunk `idx` on attempt `attempt`: attempts go round
/// the peers, starting at a different peer for each chunk.
pub fn swarm_peer(idx: u64, attempt: usize, peers: usize) -> (i: usize)
    requires
        peers > 0,
    ensures
        i == (idx + attempt) % (peers as int),
        i < peers,
{
    let a = (idx % (peers as u64)) as usize;
    let b = attempt % peers;
    proof {
        vstd::arithmetic::div_mod::lemma_add_mod_noop(idx as int, attempt as int, peers as int);
        let m = peers as int;
        if a + b < m {
            vstd::arithmetic::div_mod::lemma_small_mod((a + b) as nat, m as nat);
        } else {
            vstd::arithmetic::div_mod::lemma_mod_sub_multiples_vanish((a + b) as int, m);
            vstd::arithmetic::div_mod::lemma_small_mod((a + b - m) as nat, m as nat);
        }
    }
    if a >= peers - b {
        a - (peers - b)
    } else {
        a + b
    }
}

/// A swarm download asks every peer for a chunk before giving up on it:
/// over attempts `0..peers`, `swarm_peer` names each peer exactly once.
pub proof fn lemma_swarm_tries_every_peer(idx: u64, peers: nat, target: nat)
    requires
        peers > 0,
        target < peers,
    ensures
        exists|a: nat| a < peers && #[trigger] ((idx + a) % (peers as int)) == target,
        forall|a: nat, b: nat| a < peers && b < peers && a != b
            ==> #[trigger] ((idx + a) % (peers as int)) != #[trigger] ((idx + b) % (peers as int)),
{
    let n = peers as int;
    vstd::arithmetic::div_mod::lemma_mod_bound(idx as int, n);
    let r = (idx as int) % n;
    let a: nat = if target as int >= r { (target - r) as nat } else { (target + n - r) as nat };
    vstd::arithmetic::div_mod::lemma_add_mod_noop(idx as int, a as int, n);
    vstd::arithmetic::div_mod::lemma_small_mod(a, peers);
    if target as int >= r {
        vstd::arithmetic::div_mod::lemma_small_mod(target, peers);
    } else {
        vstd::arithmetic::div_mod::lemma_mod_add_multiples_vanish(target as int, n);
        vstd::arithmetic::div_mod::lemma_small_mod(target, peers);
    }
    assert(((idx + a) % n) == target);
    assert forall|a: nat, b: nat| a < peers && b < peers && a != b
        implies #[trigger] ((idx + a) % n) != #[trigger] ((idx + b) % n) by {
        if (idx + a) % n == (idx + b) % n {
            vstd::arithmetic::div_mod::lemma_mod_equivalence((idx + a) as int, (idx + b) as int, n);
            vstd::arithmetic::div_mod::lemma_mod_equivalence(a as int, b as int, n);
            vstd::arithmetic::div_mod::lemma_small_mod(a, peers);
            vstd::arithmetic::div_mod::lemma_small_mod(b, peers);
        }
    }
}

/// Whether the command-line downloader reports progress after chunk `idx`:
/// every eighth chunk, and after the last.
pub fn report_progress(idx: u64, total: u64) -> (r: bool)
    ensures
        r == (idx % 8 == 0 || idx + 1 == total),
{
    idx % 8 == 0 || (idx < u64::MAX && idx + 1 == total)
}

/// The base URL of a shared file: `http://<onion>/s/<file_id>`.
pub fn share_base_url(onion: &str, file_id: &FileId) -> (s: String)
    ensures
        s@ == "http://"@ + onion@ + "/s/"@ + uuid_text(file_id@),
{
    let mut out = str_chars("http://");
    push_chars(&mut out, &str_chars(onion));
    push_chars(&mut out, &str_chars("/s/"));
    push_chars(&mut out, &str_chars(file_id_to_string(file_id).as_str()));
    string_from_chars(&out)
}

/// A route under a file's base URL: `<base>/<route>`.
pub fn route_url(base: &str, route: &str) -> (s: String)
    ensures
        s@ == base@ + "/"@ + route@,
{
    let mut out = str_chars(base);
    push_chars(&mut out, &str_chars("/"));
    push_chars(&mut out, &str_chars(route));
    string_from_chars(&out)
}

/// The URL of chunk `idx`: `<base>/chunk/<idx>`.
pub fn chunk_url(base: &str, idx: u64) -> (s: String)
    ensures
        s@ == base@ + "/chunk/"@ + decimal(idx as nat),
{
    let mut out = str_chars(base);
    push_chars(&mut out, &str_chars("/chunk/"));
    push_decimal(&mut out, idx);
    string_from_chars(&out)
}

/// The proxy URL of tor's SOCKS port: `socks5h://<addr>` (names resolved by tor).
pub fn socks_proxy_url(socks_addr: &str) -> (s: String)
    ensures
        s@ == "socks5h://"@ + socks_addr@,
{
    let mut out = str_chars("socks5h://");
    push_chars(&mut out, &str_chars(socks_addr));
    string_from_chars(&out)
}

/// The plaintext that `ct` opens to as chunk `index` of file `file_id` under
/// `key`, if there is one (there is at most one: the cipher is
/// deterministic).
pub open spec fn opened_chunk(key: Seq<u8>, file_id: Seq<u8>, index: u64, ct: Seq<u8>) -> Option<Seq<u8>> {
    if exists|p: Seq<u8>| sealed_chunk(key, file_id, index, p) == ct && aead_len_ok(p.len()) {
        Some(choose|p: Seq<u8>| sealed_chunk(key, file_id, index, p) == ct && aead_len_ok(p.len()))
    } else {
        None
    }
}

/// Decrypts a fetched chunk and checks it against the hash the manifest
/// lists for it: `Decrypt` when it does not open, `CorruptedChunk` when it
/// opens to bytes with another hash, and otherwise those bytes.
pub fn open_chunk(key: &FileKey, file_id: &FileId, index: u64, ciphertext: &[u8], expected_hash: &str) -> (r: Result<Vec<u8>, DownloadError>)
    ensures
        match opened_chunk(key@, file_id@, index, ciphertext@) {
            None => r == Err::<Vec<u8>, DownloadError>(DownloadError::Decrypt),
            Some(p) => if content_hash(p) == expected_hash@ {
                r matches Ok(v) && v@ == p
            } else {
                r == Err::<Vec<u8>, DownloadError>(DownloadError::CorruptedChunk)
            },
        },
        forall|p: Seq<u8>|
            #![trigger sealed_chunk(key@, file_id@, index, p)]
            sealed_chunk(key@, file_id@, index, p) == ciphertext@ && aead_len_ok(p.len()) ==> {
                &&& opened_chunk(key@, file_id@, index, ciphertext@) == Some(p)
                &&& content_hash(p) == expected_hash@ ==> (r matches Ok(v) && v@ == p)
                &&& content_hash(p) != expected_hash@ ==> r == Err::<Vec<u8>, DownloadError>(DownloadError::CorruptedChunk)
            },
        expected_hash@.len() != 64 ==> r is Err,
{
    let d = decrypt_chunk(key, file_id, index, ciphertext);
    match d {
        Ok(p) => {
            proof {
                let q = choose|q: Seq<u8>| sealed_chunk(key@, file_id@, index, q) == ciphertext@ && aead_len_ok(q.len());
                assert(sealed_chunk(key@, file_id@, index, p@) == ciphertext@ && aead_len_ok(p@.len()));
                assert(sealed_chunk(key@, file_id@, index, q) == ciphertext@);
            }
            match verify_plain_chunk(p.as_slice(), expected_hash) {
                Ok(()) => Ok(p),
                Err(e) => Err(e),
            }
        },
        Err(_) => {
            proof {
                if exists|p: Seq<u8>| sealed_chunk(key@, file_id@, index, p) == ciphertext@ && aead_len_ok(p.len()) {
                    let q = choose|q: Seq<u8>| sealed_chunk(key@, file_id@, index, q) == ciphertext@ && aead_len_ok(q.len());
                    assert(sealed_chunk(key@, file_id@, index, q) == ciphertext@);
                }
            }
            Err(DownloadError::Decrypt)
        },
    }
}

/// What a swarm downloader does after asking one peer for a chunk.
#[derive(Debug)]
pub enum ChunkStep {
    /// The chunk arrived and checked out: these are its plaintext bytes.
    Done(Vec<u8>),
    /// Ask the next peer.
    NextPeer,
    /// Stop the download.
    Fail(DownloadError),
}

/// The swarm downloader's decision after attempt `attempt` (of `peers`) to
/// fetch chunk `index`, given the peer's answer (`None` when the request
/// failed). An answer that opens and checks out is taken; one that opens to
/// bytes with the wrong hash stops the download; otherwise the next peer is
/// asked, and after the last one the chunk is unavailable.
pub fn swarm_chunk_step(
    key: &FileKey,
    file_id: &FileId,
    index: u64,
    answer: Option<&[u8]>,
    expected_hash: &str,
    attempt: usize,
    peers: usize,
) -> (s: ChunkStep)
    requires
        attempt < peers,
    ensures
        match answer {
            Some(ct) => match opened_chunk(key@, file_id@, index, ct@) {
                Some(p) => if content_hash(p) == expected_hash@ {
                    s matches ChunkStep::Done(v) && v@ == p
                } else {
                    s matches ChunkStep::Fail(e) && e == DownloadError::CorruptedChunk
                },
                None => if attempt + 1 < peers {
                    s is NextPeer
                } else {
                    s matches ChunkStep::Fail(e) && e == DownloadError::ChunkUnavailable
                },
            },
            None => if attempt + 1 < peers {
                s is NextPeer
            } else {
                s matches ChunkStep::Fail(e) && e == DownloadError::ChunkUnavailable
            },
        },
        forall|p: Seq<u8>|
            #![trigger sealed_chunk(key@, file_id@, index, p)]
            answer is Some && sealed_chunk(key@, file_id@, index, p) == answer->Some_0@ && aead_len_ok(p.len()) ==> {
                &&& content_hash(p) == expected_hash@ ==> (s matches ChunkStep::Done(v) && v@ == p)
                &&& content_hash(p) != expected_hash@ ==> (s matches ChunkStep::Fail(e) && e == DownloadError::CorruptedChunk)
            },
{
    if let Some(ct) = answer {
        match open_chunk(key, file_id, index, ct, expected_hash) {
            Ok(p) => {
                return ChunkStep::Done(p);
            },
            Err(DownloadError::Decrypt) => {},
            Err(e) => {
                return ChunkStep::Fail(e);
            },
        }
    }
    if attempt + 1 < peers {
        ChunkStep::NextPeer
    } else {
        ChunkStep::Fail(DownloadError::ChunkUnavailable)
    }
}

/// The position of the first lobby file with content hash `h`, if any.
pub open spec fn first_with_hash(l: Seq<NetworkFileV>, h: Seq<char>, from: int) -> int
    decreases l.len() - from,
{
    if from < 0 || from >= l.len() {
        -1
    } else if l[from].content_hash == h {
        from
    } else {
        first_with_hash(l, h, from + 1)
    }
}

/// Finds, for a swarm download, the lobby file with content hash
/// `content_hash`: the first one that has it, which must have a peer.
pub fn find_swarm_file(files: &Vec<NetworkFile>, content_hash: &str) -> (r: Result<usize, DownloadError>)
    ensures
        first_with_hash(files_view(files@), content_hash@, 0) == -1
            ==> r == Err::<usize, DownloadError>(DownloadError::NotInSwarm),
        first_with_hash(files_view(files@), content_hash@, 0) != -1 ==> {
            let i = first_with_hash(files_view(files@), content_hash@, 0);
            if files@[i].peers@.len() == 0 {
                r == Err::<usize, DownloadError>(DownloadError::NoPeers)
            } else {
                r == Ok::<usize, DownloadError>(i as usize)
            }
        },
{
    let ghost l = files_view(files@);
    let h = str_chars(content_hash);
    let mut i: usize = 0;
    while i < files.len()
        invariant
            i <= files@.len(),
            l == files_view(files@),
            h@ == content_hash@,
            first_with_hash(l, content_hash@, 0) == first_with_hash(l, content_hash@, i as int),
        decreases files.len() - i,
    {
        if chars_eq(&str_chars(files[i].content_hash.as_str()), &h) {
            assert(l[i as int].content_hash == content_hash@);
            if files[i].peers.len() == 0 {
                return Err(DownloadError::NoPeers);
            }
            return Ok(i);
        }
        i += 1;
    }
    Err(DownloadError::NotInSwarm)
}

/// Checks a peer's manifest for a swarm download: it must name the content
/// hash the lobby announced, then list one hash per chunk.
pub fn check_swarm_manifest(m: &Manifest, announced_hash: &str) -> (r: Result<(), DownloadError>)
    ensures
        m.content_hash@ != announced_hash@ ==> r == Err::<(), DownloadError>(DownloadError::SwarmHashMismatch),
        m.content_hash@ == announced_hash@ && m.chunk_hashes@.len() != m.total_chunks
            ==> r == Err::<(), DownloadError>(DownloadError::IncompleteManifest),
        m.content_hash@ == announced_hash@ && m.chunk_hashes@.len() == m.total_chunks ==> r is Ok,
{
    if !chars_eq(&str_chars(m.content_hash.as_str()), &str_chars(announced_hash)) {
        return Err(DownloadError::SwarmHashMismatch);
    }
    check_manifest(m)
}

/// Seconds left at `speed` bytes per second with `downloaded` of `total`
/// bytes in: none while the speed is zero or nothing is left.
pub fn eta_seconds(total: u64, downloaded: u64, speed: u64) -> (r: Option<u64>)
    ensures
        r == if speed > 0 && total > downloaded { Some(((total - downloaded) / (speed as int)) as u64) } else { None::<u64> },
{
    if speed > 0 && total > downloaded {
        Some((total - downloaded) / speed)
    } else {
        None
    }
}

/// Progress in thousandths after `done` of `total` chunks (`total` counted
/// as at least one).
pub fn progress_permille(done: u64, total: u64) -> (p: u64)
    requires
        done <= total,
    ensures
        p == (done * 1000) / (if total == 0 { 1 } else { total as int }),
        p <= 1000,
{
    let t: u64 = if total == 0 { 1 } else { total };
    let d = done as u128 * 1000;
    let q = d / (t as u128);
    proof {
        assert(done * 1000 <= t * 1000) by (nonlinear_arith)
            requires
                done <= t,
        ;
        vstd::arithmetic::div_mod::lemma_div_is_ordered((done * 1000) as int, (t * 1000) as int, t as int);
        vstd::arithmetic::div_mod::lemma_div_multiples_vanish(1000, t as int);
        assert(t * 1000 == 1000 * t) by (nonlinear_arith);
    }
    q as u64
}

/// A chunk slot, as values.
pub open spec fn slot_view(o: Option<Vec<u8>>) -> Option<Seq<u8>> {
    match o {
        Some(v) => Some(v@),
        None => None,
    }
}

/// Whether every chunk has arrived.
pub open spec fn all_arrived(s: Seq<Option<Seq<u8>>>) -> bool {
    forall|i: int| 0 <= i < s.len() ==> (#[trigger] s[i]) is Some
}

/// How many chunks have arrived.
pub open spec fn arrived_count(s: Seq<Option<Seq<u8>>>) -> nat {
    s.filter(|o: Option<Seq<u8>>| o is Some).len()
}

/// The chunks that have arrived, in index order, one after the other.
pub open spec fn joined_slots(s: Seq<Option<Seq<u8>>>) -> Seq<u8>
    decreases s.len(),
{
    if s.len() == 0 {
        Seq::empty()
    } else {
        joined_slots(s.drop_last()) + match s.last() {
            Some(p) => p,
            None => Seq::<u8>::empty(),
        }
    }
}

/// The chunks of a swarm download, which arrive in any order, kept in their
/// places until the file is put together.
pub struct ChunkAssembly {
    slots: Vec<Option<Vec<u8>>>,
}

impl View for ChunkAssembly {
    type V = Seq<Option<Seq<u8>>>;

    closed spec fn view(&self) -> Seq<Option<Seq<u8>>> {
        self.slots@.map_values(|o: Option<Vec<u8>>| slot_view(o))
    }
}

fn append_bytes(out: &mut Vec<u8>, b: &Vec<u8>)
    ensures
        final(out)@ == old(out)@ + b@,
{
    let mut i: usize = 0;
    while i < b.len()
        invariant
            i <= b@.len(),
            out@ == old(out)@ + b@.take(i as int),
        decreases b.len() - i,
    {
        out.push(b[i]);
        i += 1;
        assert(out@ =~= old(out)@ + b@.take(i as int));
    }
    assert(b@.take(b@.len() as int) =~= b@);
}

impl ChunkAssembly {
    /// Room for `total` chunks, none of them arrived.
    pub fn new(total: u64) -> (a: ChunkAssembly)
        requires
            total <= usize::MAX,
        ensures
            a@ == Seq::new(total as nat, |i: int| None::<Seq<u8>>),
    {
        let mut slots: Vec<Option<Vec<u8>>> = Vec::new();
        let mut i: u64 = 0;
        while i < total
            invariant
                i <= total,
                slots@.len() == i,
                forall|k: int| 0 <= k < i ==> (#[trigger] slots@[k]) is None,
            decreases total - i,
        {
            slots.push(None);
            i += 1;
        }
        let a = ChunkAssembly { slots };
        assert(a@ =~= Seq::new(total as nat, |i: int| None::<Seq<u8>>));
        a
    }

    /// The number of chunks of the file.
    pub fn len(&self) -> (n: usize)
        ensures
            n == self@.len(),
    {
        self.slots.len()
    }

    /// Puts the plaintext of chunk `index` in its place.
    pub fn insert(&mut self, index: u64, chunk: Vec<u8>)
        requires
            index < old(self)@.len(),
        ensures
            final(self)@ == old(self)@.update(index as int, Some(chunk@)),
    {
        let ghost c = chunk@;
        let ghost before = self.slots@;
        assert(old(self)@.len() == before.len());
        let n = self.slots.len();
        let i = index as usize;
        assert(i as int == index as int);
        let item = Some(chunk);
        assert(slot_view(item) == Some(c));
        self.slots.set(i, item);
        assert(self.slots@ == before.update(i as int, item));
        assert forall|k: int| 0 <= k < self@.len() implies #[trigger] self@[k] == old(self)@.update(index as int, Some(c))[k] by {
            assert(self@[k] == slot_view(self.slots@[k]));
            assert(old(self)@[k] == slot_view(before[k]));
            if k == index as int {
                assert(self.slots@[k] == item);
            } else {
                assert(self.slots@[k] == before[k]);
            }
        }
        assert(self@ =~= old(self)@.update(index as int, Some(c)));
    }

    /// How many chunks have arrived.
    pub fn arrived(&self) -> (n: usize)
        ensures
            n == arrived_count(self@),
    {
        let ghost s = self@;
        let ghost pred = |o: Option<Seq<u8>>| o is Some;
        let mut n: usize = 0;
        let mut i: usize = 0;
        while i < self.slots.len()
            invariant
                i <= s.len(),
                s == self@,
                s.len() == self.slots@.len(),
                pred == (|o: Option<Seq<u8>>| o is Some),
                n == s.take(i as int).filter(pred).len(),
                n <= i,
            decreases self.slots.len() - i,
        {
            proof {
                assert(s.take(i + 1) =~= s.take(i as int).push(s[i as int]));
                s.take(i as int).lemma_filter_push(s[i as int], pred);
                assert(s[i as int] == slot_view(self.slots@[i as int]));
            }
            let present = self.slots[i].is_some();
            if present {
                n += 1;
            }
            i += 1;
        }
        assert(s.take(s.len() as int) =~= s);
        n
    }

    /// The file: every chunk in index order, one after the other; or
    /// `MissingChunk` while a chunk has not arrived.
    pub fn assemble(&self) -> (r: Result<Vec<u8>, DownloadError>)
        ensures
            r is Ok <==> all_arrived(self@),
            r matches Ok(v) ==> v@ == joined_slots(self@),
            r is Err ==> r == Err::<Vec<u8>, DownloadError>(DownloadError::MissingChunk),
    {
        let ghost s = self@;
        let mut out: Vec<u8> = Vec::new();
        let mut i: usize = 0;
        while i < self.slots.len()
            invariant
                i <= s.len(),
                s == self@,
                s.len() == self.slots@.len(),
                forall|k: int| 0 <= k < i ==> (#[trigger] s[k]) is Some,
                out@ == joined_slots(s.take(i as int)),
            decreases self.slots.len() - i,
        {
            assert(s[i as int] == slot_view(self.slots@[i as int]));
            match &self.slots[i] {
                Some(c) => {
                    append_bytes(&mut out, c);
                    assert(s.take(i + 1).drop_last() =~= s.take(i as int));
                },
                None => {
                    return Err(DownloadError::MissingChunk);
                },
            }
            i += 1;
        }
        assert(s.take(s.len() as int) =~= s);
        Ok(out)
    }
}

proof fn lemma_joined_slots_chunks(s: Seq<Option<Seq<u8>>>, data: Seq<u8>, chunk: nat, n: nat)
    requires
        n <= s.len(),
        forall|i: int| 0 <= i < s.len() ==> s[i] == Some(chunk_bytes(data, chunk, i as nat)),
    ensures
        joined_slots(s.take(n as int)) == joined_chunks(data, chunk, n),
    decreases n,
{
    if n > 0 {
        lemma_joined_slots_chunks(s, data, chunk, (n - 1) as nat);
        assert(s.take(n as int).drop_last() =~= s.take(n - 1));
    } else {
        assert(s.take(0) =~= Seq::<Option<Seq<u8>>>::empty());
    }
}

/// A swarm download rebuilds the shared file: when chunk `i` of the
/// assembly holds the plaintext of chunk `i` of `data` (cut at `chunk`
/// bytes), for every one of the file's chunks, the assembled bytes are
/// `data`, whatever order the chunks arrived in.
pub proof fn lemma_assembly_rebuilds_file(s: Seq<Option<Seq<u8>>>, data: Seq<u8>, chunk: nat)
    requires
        chunk > 0,
        s.len() == chunk_count(data.len(), chunk),
        forall|i: int| 0 <= i < s.len() ==> s[i] == Some(chunk_bytes(data, chunk, i as nat)),
    ensures
        all_arrived(s),
        joined_slots(s) == data,
{
    lemma_joined_slots_chunks(s, data, chunk, s.len());
    assert(s.take(s.len() as int) =~= s);
    lemma_chunks_cover_file(data, chunk);
}

} // verus!
