//! A file offered for download, cut into fixed-size chunks.

use vstd::prelude::*;
use crate::crypto::{
    aead_len_ok, content_hash, content_hash_hex, encrypt_chunk, sealed_chunk, CryptoError, FileId,
    FileKey,
};
use crate::ids::new_file_id;
use crate::text::contains_seq;

verus! {

/// The smallest chunk size accepted (16 KiB).
pub const MIN_CHUNK_SIZE: usize = 16384;

/// Why a share could not be made or read.
#[derive(Debug, Clone, Copy, PartialEq, Eq, Structural)]
pub enum ShareError {
    /// The chunk size is below 16 KiB.
    ChunkTooSmall,
    /// The chunk index is not below the number of chunks.
    ChunkOutOfRange,
    /// Encrypting the chunk failed.
    Crypto(CryptoError),
}

/// Number of chunks of `size` bytes cut into pieces of `chunk` bytes.
pub open spec fn chunk_count(size: nat, chunk: nat) -> nat {
    if size == 0 { 0 } else { ((size + chunk - 1) / chunk as int) as nat }
}

/// The bytes of chunk `index`: from `index * chunk` up to the next boundary
/// or the end of the data, whichever comes first.
pub open spec fn chunk_bytes(data: Seq<u8>, chunk: nat, index: nat) -> Seq<u8> {
    let start = index * chunk;
    let end: int = if (index + 1) * chunk < data.len() { ((index + 1) * chunk) as int } else { data.len() as int };
    data.subrange(start as int, end as int)
}

/// The first `n` chunks, one after the other.
pub open spec fn joined_chunks(data: Seq<u8>, chunk: nat, n: nat) -> Seq<u8>
    decreases n,
{
    if n == 0 {
        Seq::empty()
    } else {
        joined_chunks(data, chunk, (n - 1) as nat) + chunk_bytes(data, chunk, (n - 1) as nat)
    }
}

proof fn lemma_joined_prefix(data: Seq<u8>, c: nat, n: nat)
    requires
        c > 0,
        n <= chunk_count(data.len(), c),
    ensures
        joined_chunks(data, c, n) == data.take(if n * c < data.len() { (n * c) as int } else { data.len() as int }),
    decreases n,
{
    if n > 0 {
        lemma_joined_prefix(data, c, (n - 1) as nat);
        lemma_chunk_start(data.len(), c, (n - 1) as nat);
        assert(((n - 1) as nat + 1) * c == (n - 1) as nat * c + c) by (nonlinear_arith);
        assert(n * c == (n - 1) as nat * c + c) by (nonlinear_arith)
            requires
                n > 0,
        ;
        let end = if n * c < data.len() { (n * c) as int } else { data.len() as int };
        assert(joined_chunks(data, c, n) =~= data.take(end));
    } else {
        assert(n * c == 0) by (nonlinear_arith) requires n == 0;
        assert(joined_chunks(data, c, 0) =~= data.take(0));
    }
}

/// Cutting a file into chunks loses nothing: its chunks, one after the
/// other, are the file. (A downloader that fetches every chunk in order and
/// concatenates the plaintexts rebuilds the file.)
pub proof fn lemma_chunks_cover_file(data: Seq<u8>, chunk: nat)
    requires
        chunk > 0,
    ensures
        joined_chunks(data, chunk, chunk_count(data.len(), chunk)) == data,
{
    let n = chunk_count(data.len(), chunk);
    lemma_joined_prefix(data, chunk, n);
    if data.len() > 0 {
        lemma_chunk_count(data.len(), chunk);
        let q = (data.len() - 1) / (chunk as int);
        vstd::arithmetic::div_mod::lemma_fundamental_div_mod((data.len() - 1) as int, chunk as int);
        vstd::arithmetic::div_mod::lemma_mod_bound((data.len() - 1) as int, chunk as int);
        assert(n * chunk == chunk * q + chunk) by (nonlinear_arith)
            requires
                n == q + 1,
        ;
    }
    assert(data.take(data.len() as int) =~= data);
}

/// Whether `p` is a bare file name: not empty, not `.` or `..`, and without
/// `/`, `\` or `:`, so that it is a single plain path component on every
/// platform.
pub open spec fn bare_file_name(p: Seq<char>) -> bool {
    &&& p.len() > 0
    &&& p != "."@
    &&& p != ".."@
    &&& forall|i: int| 0 <= i < p.len() ==> (#[trigger] p[i]) != '/' && p[i] != '\\' && p[i] != ':'
}

/// `pre/n`.
pub open spec fn slash_join(pre: Seq<char>, n: Seq<char>) -> Seq<char> {
    pre + "/"@ + n
}

/// Whether `path`, written `pre/n`, ends in the bare file name `n` in a way
/// that every platform reads alike: no `\` anywhere (a separator on Windows
/// only), and `pre` not starting with `//` (a UNC or device prefix on
/// Windows).
pub open spec fn plain_last_component(path: Seq<char>, pre: Seq<char>, n: Seq<char>) -> bool {
    &&& path == slash_join(pre, n)
    &&& bare_file_name(n)
    &&& forall|i: int| 0 <= i < path.len() ==> (#[trigger] path[i]) != '\\'
    &&& !(pre.len() >= 2 && pre[0] == '/' && pre[1] == '/')
}

/// Calls `std::path::Path::file_name` on `path`. The contract claims what
/// holds on every platform: a name that comes back is a non-empty piece of
/// the path; a bare file name is its own file name; `pre/n`, read alike on
/// every platform (`plain_last_component`), has `n` as its file name; an
/// empty path and `..` have none. Which component is the last one for
/// other paths depends on the platform's separators and prefixes and is
/// left unsaid.
#[verifier::external_body]
fn path_file_name(path: &str) -> (r: Option<String>)
    ensures
        r matches Some(n) ==> n@.len() > 0 && contains_seq(path@, n@),
        bare_file_name(path@) ==> r is Some && r->Some_0@ == path@,
        forall|pre: Seq<char>, n: Seq<char>|
            #![trigger slash_join(pre, n)]
            plain_last_component(path@, pre, n) ==> r is Some && r->Some_0@ == n,
        path@.len() == 0 || path@ == ".."@ ==> r is None,
{
    std::path::Path::new(path).file_name().map(|n| n.to_string_lossy().into_owned())
}

/// The name a share gets for the file at `path`: the path's last component,
/// or `shared.bin` when the path has none.
pub fn share_file_name(path: &str) -> (n: String)
    ensures
        n@ == "shared.bin"@ || (n@.len() > 0 && contains_seq(path@, n@)),
        bare_file_name(path@) ==> n@ == path@,
        forall|pre: Seq<char>, last: Seq<char>|
            #![trigger slash_join(pre, last)]
            plain_last_component(path@, pre, last) ==> n@ == last,
        path@.len() == 0 || path@ == ".."@ ==> n@ == "shared.bin"@,
{
    match path_file_name(path) {
        Some(n) => n,
        None => "shared.bin".to_string(),
    }
}

/// Checks the chunk size before anything is read: at least 16 KiB.
pub fn check_chunk_size(chunk_size: usize) -> (r: Result<(), ShareError>)
    ensures
        r is Ok <==> chunk_size >= MIN_CHUNK_SIZE,
        r is Err ==> r == Err::<(), ShareError>(ShareError::ChunkTooSmall),
{
    if chunk_size < MIN_CHUNK_SIZE {
        Err(ShareError::ChunkTooSmall)
    } else {
        Ok(())
    }
}

/// A shared file: its identity, its key, its chunking and its contents.
#[derive(Clone)]
pub struct Share {
    pub file_id: FileId,
    pub file_name: String,
    pub file_size: u64,
    pub chunk_size: usize,
    pub total_chunks: u64,
    pub key: FileKey,
    /// Content hash of the whole file.
    pub content_hash: String,
    /// Content hash of each plaintext chunk, in order.
    pub chunk_hashes: Vec<String>,
    /// The file's contents.
    pub data: Vec<u8>,
}

proof fn lemma_chunk_count(size: nat, c: nat)
    requires
        c > 0,
        size > 0,
    ensures
        chunk_count(size, c) == (size - 1) / (c as int) + 1,
        chunk_count(size, c) <= size,
{
    assert(((size - 1) + c) / (c as int) == (size - 1) / (c as int) + 1) by {
        vstd::arithmetic::div_mod::lemma_div_plus_one((size - 1) as int, c as int);
    }
    assert((size - 1) / (c as int) <= size - 1) by {
        vstd::arithmetic::div_mod::lemma_div_is_ordered_by_denominator((size - 1) as int, 1, c as int);
    }
}

proof fn lemma_chunk_start(size: nat, c: nat, index: nat)
    requires
        c > 0,
        index < chunk_count(size, c),
    ensures
        index * c < size,
{
    lemma_chunk_count(size, c);
    let q = (size - 1) / (c as int);
    vstd::arithmetic::div_mod::lemma_fundamental_div_mod((size - 1) as int, c as int);
    assert(index <= q);
    assert(index * c <= q * c) by {
        vstd::arithmetic::mul::lemma_mul_inequality(index as int, q, c as int);
    }
    assert(q * c == c * q) by {
        vstd::arithmetic::mul::lemma_mul_is_commutative(q, c as int);
    }
    assert((size - 1) % (c as int) >= 0) by {
        vstd::arithmetic::div_mod::lemma_mod_bound((size - 1) as int, c as int);
    }
}

impl Share {
    /// The share's invariant: the chunking, the hashes and the size agree
    /// with the contents.
    pub open spec fn wf(&self) -> bool {
        &&& self.chunk_size >= MIN_CHUNK_SIZE
        &&& self.file_size == self.data@.len()
        &&& self.total_chunks == chunk_count(self.data@.len(), self.chunk_size as nat)
        &&& self.content_hash@ == content_hash(self.data@)
        &&& self.chunk_hashes@.len() == self.total_chunks
        &&& forall|i: int| 0 <= i < self.total_chunks ==>
            #[trigger] self.chunk_hashes@[i]@ == content_hash(chunk_bytes(self.data@, self.chunk_size as nat, i as nat))
    }

    /// The file's contents.
    pub open spec fn contents(&self) -> Seq<u8> {
        self.data@
    }

    /// A share of `data` under a fresh random file id.
    ///
    /// Fails exactly when `chunk_size` is below 16 KiB.
    pub fn new(file_name: String, data: Vec<u8>, chunk_size: usize, key: FileKey) -> (r: Result<Share, ShareError>)
        ensures
            chunk_size < MIN_CHUNK_SIZE ==> r == Err::<Share, ShareError>(ShareError::ChunkTooSmall),
            chunk_size >= MIN_CHUNK_SIZE ==> (r matches Ok(s) && s.wf() && s.file_name@ == file_name@
                && s.key == key && s.chunk_size == chunk_size && s.contents() == data@),
    {
        if chunk_size < MIN_CHUNK_SIZE {
            return Err(ShareError::ChunkTooSmall);
        }
        let id = new_file_id();
        Ok(Share::with_id(id, file_name, data, chunk_size, key))
    }

    /// A share of `data` with the given file id.
    pub fn with_id(file_id: FileId, file_name: String, data: Vec<u8>, chunk_size: usize, key: FileKey) -> (s: Share)
        requires
            chunk_size >= MIN_CHUNK_SIZE,
        ensures
            s.wf(),
            s.file_id == file_id,
            s.file_name@ == file_name@,
            s.key == key,
            s.chunk_size == chunk_size,
            s.contents() == data@,
    {
        let size = data.len();
        let total: usize = if size == 0 { 0 } else { (size - 1) / chunk_size + 1 };
        proof {
            if size > 0 {
                lemma_chunk_count(size as nat, chunk_size as nat);
            }
        }
        let content = content_hash_hex(data.as_slice());
        let mut hashes: Vec<String> = Vec::new();
        let mut i: usize = 0;
        while i < total
            invariant
                chunk_size >= MIN_CHUNK_SIZE,
                size == data@.len(),
                total == chunk_count(size as nat, chunk_size as nat),
                total <= size,
                i <= total,
                hashes@.len() == i,
                forall|j: int| 0 <= j < i ==>
                    #[trigger] hashes@[j]@ == content_hash(chunk_bytes(data@, chunk_size as nat, j as nat)),
            decreases total - i,
        {
            proof {
                lemma_chunk_start(size as nat, chunk_size as nat, i as nat);
            }
            let start = i * chunk_size;
            let end = if size - start <= chunk_size { size } else { start + chunk_size };
            proof {
                assert((i + 1) * chunk_size == i * chunk_size + chunk_size) by (nonlinear_arith);
            }
            let piece = &data.as_slice()[start..end];
            assert(piece@ == chunk_bytes(data@, chunk_size as nat, i as nat));
            hashes.push(content_hash_hex(piece));
            i += 1;
        }
        Share {
            file_id,
            file_name,
            file_size: size as u64,
            chunk_size,
            total_chunks: total as u64,
            key,
            content_hash: content,
            chunk_hashes: hashes,
            data,
        }
    }

    /// The plaintext of chunk `chunk_index`.
    pub fn chunk_plain(&self, chunk_index: u64) -> (r: Result<&[u8], ShareError>)
        requires
            self.wf(),
        ensures
            chunk_index >= self.total_chunks ==> r == Err::<&[u8], ShareError>(ShareError::ChunkOutOfRange),
            chunk_index < self.total_chunks ==> (r matches Ok(b)
                && b@ == chunk_bytes(self.contents(), self.chunk_size as nat, chunk_index as nat)),
    {
        if chunk_index >= self.total_chunks {
            return Err(ShareError::ChunkOutOfRange);
        }
        let size = self.data.len();
        proof {
            lemma_chunk_count(size as nat, self.chunk_size as nat);
        }
        let i = chunk_index as usize;
        proof {
            lemma_chunk_start(size as nat, self.chunk_size as nat, i as nat);
            assert((i + 1) * self.chunk_size == i * self.chunk_size + self.chunk_size) by (nonlinear_arith);
        }
        let start = i * self.chunk_size;
        let end = if size - start <= self.chunk_size { size } else { start + self.chunk_size };
        let piece = &self.data.as_slice()[start..end];
        assert(piece@ == chunk_bytes(self.data@, self.chunk_size as nat, i as nat));
        Ok(piece)
    }

    /// The ciphertext of chunk `chunk_index`: its plaintext sealed under the
    /// share's key, file id and the index.
    pub fn chunk_cipher(&self, chunk_index: u64) -> (r: Result<Vec<u8>, ShareError>)
        requires
            self.wf(),
        ensures
            chunk_index >= self.total_chunks ==> r == Err::<Vec<u8>, ShareError>(ShareError::ChunkOutOfRange),
            chunk_index < self.total_chunks ==> {
                let pt = chunk_bytes(self.contents(), self.chunk_size as nat, chunk_index as nat);
                &&& aead_len_ok(pt.len()) && pt.len() + 16 <= usize::MAX ==> (r matches Ok(c) && c@ == sealed_chunk(self.key@, self.file_id@, chunk_index, pt))
                &&& !(aead_len_ok(pt.len()) && pt.len() + 16 <= usize::MAX) ==> r == Err::<Vec<u8>, ShareError>(ShareError::Crypto(CryptoError::EncryptFailed))
            },
    {
        let pt = match self.chunk_plain(chunk_index) {
            Ok(p) => p,
            Err(e) => {
                return Err(e);
            }
        };
        match encrypt_chunk(&self.key, &self.file_id, chunk_index, pt) {
            Ok(c) => Ok(c),
            Err(e) => Err(ShareError::Crypto(e)),
        }
    }
}

} // verus!
