//! Decentralised discovery: which nodes are online and which files they
//! offer, merged into one lobby keyed by content hash.

use vstd::prelude::*;
use crate::crypto::FileId;
use crate::ids::same_id;
use crate::tracker_proto::{
    announced_view, files_view, locations_view, AnnouncedFile, AnnouncedFileV, GossipMessage, NetworkFile,
    NetworkFileV, NetworkLobby,
    PeerLocation, PeerLocationV,
};

verus! {

/// Whether no two lobby files have the same content hash.
pub open spec fn distinct_hashes(l: Seq<NetworkFileV>) -> bool {
    forall|i: int, j: int| 0 <= i < j < l.len() ==> l[i].content_hash != l[j].content_hash
}

/// Whether every lobby file's peer count is its number of locations.
pub open spec fn counts_match(l: Seq<NetworkFileV>) -> bool {
    forall|i: int| 0 <= i < l.len() ==> (#[trigger] l[i]).peer_count == l[i].peers.len()
}

/// Whether `h` is the content hash of some lobby file.
pub open spec fn has_hash(l: Seq<NetworkFileV>, h: Seq<char>) -> bool {
    exists|i: int| 0 <= i < l.len() && (#[trigger] l[i]).content_hash == h
}

/// The position of the lobby file with content hash `h` (-1 if none).
pub open spec fn hash_index(l: Seq<NetworkFileV>, h: Seq<char>) -> int {
    if has_hash(l, h) {
        choose|i: int| 0 <= i < l.len() && (#[trigger] l[i]).content_hash == h
    } else {
        -1
    }
}

/// Whether the locations hold a copy of file `fid` at node `node`.
pub open spec fn has_location(ps: Seq<PeerLocationV>, node: Seq<char>, fid: Seq<u8>) -> bool {
    exists|k: int| 0 <= k < ps.len() && (#[trigger] ps[k]).node_id == node && ps[k].file_id == fid
}

/// The lobby entry made for the first copy seen of a file.
pub open spec fn new_entry(f: AnnouncedFileV) -> NetworkFileV {
    NetworkFileV {
        name: f.name,
        size: f.size,
        link: f.link,
        content_hash: f.content_hash,
        peer_count: 0,
        peers: Seq::empty(),
    }
}

/// The lobby after node `node` at `onion` announces file `f`: the file gets
/// an entry (keyed by its content hash) if it had none, and the node's copy
/// is added to the entry's locations unless the same node already offers the
/// same file id there.
pub open spec fn merge_one(l: Seq<NetworkFileV>, node: Seq<char>, onion: Seq<char>, f: AnnouncedFileV) -> Seq<NetworkFileV> {
    let i = hash_index(l, f.content_hash);
    let l1 = if i < 0 { l.push(new_entry(f)) } else { l };
    let j = if i < 0 { l.len() as int } else { i };
    let e = l1[j];
    if has_location(e.peers, node, f.file_id) {
        l1
    } else {
        let ps = e.peers.push(PeerLocationV { node_id: node, onion: onion, file_id: f.file_id, link: f.link });
        l1.update(j, NetworkFileV {
            name: e.name,
            size: e.size,
            link: e.link,
            content_hash: e.content_hash,
            peer_count: ps.len() as usize,
            peers: ps,
        })
    }
}

/// The lobby after node `node` at `onion` announces `files`, in order.
pub open spec fn merge_all(l: Seq<NetworkFileV>, node: Seq<char>, onion: Seq<char>, files: Seq<AnnouncedFileV>) -> Seq<NetworkFileV>
    decreases files.len(),
{
    if files.len() == 0 {
        l
    } else {
        merge_one(merge_all(l, node, onion, files.drop_last()), node, onion, files.last())
    }
}

fn find_by_hash(l: &Vec<NetworkFile>, h: &String) -> (r: Option<usize>)
    ensures
        match r {
            Some(i) => i < l@.len() && l@[i as int].content_hash@ == h@,
            None => forall|k: int| 0 <= k < l@.len() ==> l@[k].content_hash@ != h@,
        },
{
    let mut i: usize = 0;
    while i < l.len()
        invariant
            i <= l@.len(),
            forall|k: int| 0 <= k < i ==> l@[k].content_hash@ != h@,
        decreases l.len() - i,
    {
        if l[i].content_hash == *h {
            return Some(i);
        }
        i += 1;
    }
    None
}

fn find_location(ps: &Vec<PeerLocation>, node: &String, fid: &FileId) -> (r: bool)
    ensures
        r == has_location(locations_view(ps@), node@, fid@),
{
    let mut k: usize = 0;
    while k < ps.len()
        invariant
            k <= ps@.len(),
            forall|j: int| 0 <= j < k ==> !(ps@[j].node_id@ == node@ && ps@[j].file_id@ == fid@),
        decreases ps.len() - k,
    {
        if ps[k].node_id == *node && same_id(&ps[k].file_id, fid) {
            assert(locations_view(ps@)[k as int] == ps@[k as int]@);
            return true;
        }
        k += 1;
    }
    proof {
        if has_location(locations_view(ps@), node@, fid@) {
            let j = choose|j: int| 0 <= j < locations_view(ps@).len() && (#[trigger] locations_view(ps@)[j]).node_id == node@
                && locations_view(ps@)[j].file_id == fid@;
            assert(locations_view(ps@)[j] == ps@[j]@);
        }
    }
    false
}

proof fn lemma_merge_one_keeps(l: Seq<NetworkFileV>, node: Seq<char>, onion: Seq<char>, f: AnnouncedFileV)
    requires
        distinct_hashes(l),
    ensures
        distinct_hashes(merge_one(l, node, onion, f)),
{
    let i = hash_index(l, f.content_hash);
    if has_hash(l, f.content_hash) {
        assert(0 <= i < l.len());
    }
}

/// Whether no two locations are the same node's copy of the same file id.
pub open spec fn locations_distinct(ps: Seq<PeerLocationV>) -> bool {
    forall|a: int, b: int|
        0 <= a < b < ps.len() ==> !((#[trigger] ps[a]).node_id == (#[trigger] ps[b]).node_id && ps[a].file_id == ps[b].file_id)
}

/// Whether every lobby entry's locations are distinct.
pub open spec fn lobby_locations_distinct(l: Seq<NetworkFileV>) -> bool {
    forall|i: int| 0 <= i < l.len() ==> locations_distinct((#[trigger] l[i]).peers)
}

/// Whether entry `b` is entry `a` with locations added at the end: same
/// name, size, link and content hash, and `a`'s locations first.
pub open spec fn entry_extends(a: NetworkFileV, b: NetworkFileV) -> bool {
    &&& b.name == a.name
    &&& b.size == a.size
    &&& b.link == a.link
    &&& b.content_hash == a.content_hash
    &&& a.peers.len() <= b.peers.len()
    &&& b.peers.take(a.peers.len() as int) == a.peers
}

/// Whether lobby `r` keeps every entry of `l` in its place, extended.
pub open spec fn lobby_extends(l: Seq<NetworkFileV>, r: Seq<NetworkFileV>) -> bool {
    &&& l.len() <= r.len()
    &&& forall|i: int| 0 <= i < l.len() ==> entry_extends(l[i], #[trigger] r[i])
}

/// Whether one of `files` has content hash `h`.
pub open spec fn announces_hash(files: Seq<AnnouncedFileV>, h: Seq<char>) -> bool {
    exists|k: int| 0 <= k < files.len() && (#[trigger] files[k]).content_hash == h
}

proof fn lemma_merge_one_law(l: Seq<NetworkFileV>, node: Seq<char>, onion: Seq<char>, f: AnnouncedFileV)
    requires
        distinct_hashes(l),
    ensures
        lobby_extends(l, merge_one(l, node, onion, f)),
        lobby_locations_distinct(l) ==> lobby_locations_distinct(merge_one(l, node, onion, f)),
        forall|h: Seq<char>| #[trigger] has_hash(merge_one(l, node, onion, f), h) <==> (has_hash(l, h) || h == f.content_hash),
{
    let r = merge_one(l, node, onion, f);
    let i = hash_index(l, f.content_hash);
    if has_hash(l, f.content_hash) {
        assert(0 <= i < l.len());
    }
    let l1 = if i < 0 { l.push(new_entry(f)) } else { l };
    let j = if i < 0 { l.len() as int } else { i };
    let e = l1[j];
    assert(r.len() == l1.len());
    assert(l1[j].content_hash == f.content_hash);
    assert(r[j].content_hash == f.content_hash);
    assert(r[j].peers.take(e.peers.len() as int) =~= e.peers);
    assert forall|k: int| 0 <= k < l.len() implies entry_extends(l[k], #[trigger] r[k]) by {
        if k == j {
            assert(l[k] == e);
        } else {
            assert(r[k] == l[k]);
            assert(r[k].peers.take(l[k].peers.len() as int) =~= l[k].peers);
        }
    }
    if lobby_locations_distinct(l) {
        assert forall|k: int| 0 <= k < r.len() implies locations_distinct((#[trigger] r[k]).peers) by {
            if k == j {
                if !has_location(e.peers, node, f.file_id) {
                    let ps = r[k].peers;
                    assert forall|a: int, b: int| 0 <= a < b < ps.len() implies
                        !((#[trigger] ps[a]).node_id == (#[trigger] ps[b]).node_id && ps[a].file_id == ps[b].file_id) by {
                        assert(ps[a] == e.peers[a]);
                        if b < e.peers.len() {
                            assert(ps[b] == e.peers[b]);
                            if i >= 0 {
                                assert(locations_distinct(l[i].peers));
                            }
                        }
                    }
                } else if i >= 0 {
                    assert(locations_distinct(l[i].peers));
                }
            } else {
                assert(r[k] == l1[k]);
                assert(l1[k] == l[k]);
                assert(locations_distinct(l[k].peers));
            }
        }
    }
    assert forall|h: Seq<char>| #[trigger] has_hash(r, h) <==> (has_hash(l, h) || h == f.content_hash) by {
        if has_hash(r, h) {
            let c = choose|c: int| 0 <= c < r.len() && (#[trigger] r[c]).content_hash == h;
            if c < l.len() {
                assert(r[c].content_hash == l[c].content_hash);
                assert(l[c].content_hash == h);
            }
        }
        if has_hash(l, h) {
            let c = choose|c: int| 0 <= c < l.len() && (#[trigger] l[c]).content_hash == h;
            assert(entry_extends(l[c], r[c]));
            assert(r[c].content_hash == h);
        }
        if h == f.content_hash {
            assert(r[j].content_hash == h);
        }
    }
}

/// The merge law: announcing `files` from node `node` keeps every entry of
/// the lobby in its place with its name, size, link and hash and its
/// locations first; the content hashes afterwards are those before and
/// those announced; no node's copy of a file id is listed twice; and every
/// announced file is listed, under its hash, with the node's copy.
pub proof fn lemma_merge_all_law(l: Seq<NetworkFileV>, node: Seq<char>, onion: Seq<char>, files: Seq<AnnouncedFileV>)
    requires
        distinct_hashes(l),
    ensures
        lobby_extends(l, merge_all(l, node, onion, files)),
        lobby_locations_distinct(l) ==> lobby_locations_distinct(merge_all(l, node, onion, files)),
        forall|h: Seq<char>| #[trigger] has_hash(merge_all(l, node, onion, files), h)
            <==> (has_hash(l, h) || announces_hash(files, h)),
        forall|k: int| 0 <= k < files.len() ==> {
            let m = merge_all(l, node, onion, files);
            &&& has_hash(m, (#[trigger] files[k]).content_hash)
            &&& has_location(m[hash_index(m, files[k].content_hash)].peers, node, files[k].file_id)
        },
    decreases files.len(),
{
    let m = merge_all(l, node, onion, files);
    if files.len() == 0 {
        assert forall|i: int| 0 <= i < l.len() implies entry_extends(l[i], #[trigger] m[i]) by {
            assert(m[i].peers.take(l[i].peers.len() as int) =~= l[i].peers);
        }
    } else {
        let pre = merge_all(l, node, onion, files.drop_last());
        lemma_merge_all_law(l, node, onion, files.drop_last());
        lemma_merge_all_distinct(l, node, onion, files.drop_last());
        lemma_merge_one_law(pre, node, onion, files.last());
        assert forall|i: int| 0 <= i < l.len() implies entry_extends(l[i], #[trigger] m[i]) by {
            assert(entry_extends(l[i], pre[i]));
            assert(entry_extends(pre[i], m[i]));
            assert(m[i].peers.take(l[i].peers.len() as int) =~= pre[i].peers.take(l[i].peers.len() as int));
        }
        assert forall|h: Seq<char>| #[trigger] has_hash(m, h) <==> (has_hash(l, h) || announces_hash(files, h)) by {
            assert(has_hash(pre, h) <==> (has_hash(l, h) || announces_hash(files.drop_last(), h)));
            if announces_hash(files.drop_last(), h) {
                let k = choose|k: int| 0 <= k < files.drop_last().len() && (#[trigger] files.drop_last()[k]).content_hash == h;
                assert(files[k] == files.drop_last()[k]);
            }
            if announces_hash(files, h) {
                let k = choose|k: int| 0 <= k < files.len() && (#[trigger] files[k]).content_hash == h;
                if k < files.len() - 1 {
                    assert(files.drop_last()[k] == files[k]);
                }
            }
        }
        assert forall|k: int| 0 <= k < files.len() implies {
            &&& has_hash(m, (#[trigger] files[k]).content_hash)
            &&& has_location(m[hash_index(m, files[k].content_hash)].peers, node, files[k].file_id)
        } by {
            lemma_merge_all_lists(l, node, onion, files, k);
        }
    }
}

/// Whether `loc` is node `node`'s copy at `onion` of the announced file
/// `f`: the node's id and onion, with `f`'s own file id and link.
pub open spec fn is_copy_of(loc: PeerLocationV, node: Seq<char>, onion: Seq<char>, f: AnnouncedFileV) -> bool {
    &&& loc.node_id == node
    &&& loc.onion == onion
    &&& loc.file_id == f.file_id
    &&& loc.link == f.link
}

/// Whether `loc` is node `node`'s copy at `onion` of one of the announced
/// `files` with content hash `h`.
pub open spec fn announced_copy(loc: PeerLocationV, h: Seq<char>, node: Seq<char>, onion: Seq<char>, files: Seq<AnnouncedFileV>) -> bool {
    exists|k: int| 0 <= k < files.len() && (#[trigger] files[k]).content_hash == h && is_copy_of(loc, node, onion, files[k])
}

/// One announcement adds at most one copy, and it is the announced one.
proof fn lemma_merge_one_adds_announced(l: Seq<NetworkFileV>, node: Seq<char>, onion: Seq<char>, f: AnnouncedFileV)
    requires
        distinct_hashes(l),
    ensures
        forall|i: int, p: int|
            #![trigger merge_one(l, node, onion, f)[i].peers[p]]
            0 <= i < merge_one(l, node, onion, f).len()
            && 0 <= p < merge_one(l, node, onion, f)[i].peers.len()
            && !(i < l.len() && p < l[i].peers.len())
            ==> merge_one(l, node, onion, f)[i].content_hash == f.content_hash
                && is_copy_of(merge_one(l, node, onion, f)[i].peers[p], node, onion, f),
{
    let r = merge_one(l, node, onion, f);
    let i = hash_index(l, f.content_hash);
    if has_hash(l, f.content_hash) {
        assert(0 <= i < l.len());
    }
    let l1 = if i < 0 { l.push(new_entry(f)) } else { l };
    let j = if i < 0 { l.len() as int } else { i };
    let e = l1[j];
    assert forall|a: int, p: int|
        #![trigger r[a].peers[p]]
        0 <= a < r.len() && 0 <= p < r[a].peers.len() && !(a < l.len() && p < l[a].peers.len()) implies
        r[a].content_hash == f.content_hash
            && is_copy_of(r[a].peers[p], node, onion, f) by {
        if a < l.len() {
            if a != j {
                assert(r[a] == l[a]);
            } else {
                assert(e == l[a]);
            }
        } else {
            assert(i < 0 && a == j);
            assert(e.peers.len() == 0);
        }
    }
}

/// The copies a merge adds are the announced ones: every location listed
/// after node `node` at `onion` announces `files`, beyond those listed
/// before, carries that node's id and onion and the file id and link of one
/// of `files` whose content hash is the entry's.
pub proof fn lemma_merge_all_adds_announced(l: Seq<NetworkFileV>, node: Seq<char>, onion: Seq<char>, files: Seq<AnnouncedFileV>)
    requires
        distinct_hashes(l),
    ensures
        forall|i: int, p: int|
            #![trigger merge_all(l, node, onion, files)[i].peers[p]]
            0 <= i < merge_all(l, node, onion, files).len()
            && 0 <= p < merge_all(l, node, onion, files)[i].peers.len()
            && !(i < l.len() && p < l[i].peers.len())
            ==> announced_copy(merge_all(l, node, onion, files)[i].peers[p], merge_all(l, node, onion, files)[i].content_hash,
                node, onion, files),
    decreases files.len(),
{
    if files.len() > 0 {
        let m = merge_all(l, node, onion, files);
        let pre = merge_all(l, node, onion, files.drop_last());
        let f = files.last();
        lemma_merge_all_adds_announced(l, node, onion, files.drop_last());
        lemma_merge_all_distinct(l, node, onion, files.drop_last());
        lemma_merge_one_law(pre, node, onion, f);
        lemma_merge_one_adds_announced(pre, node, onion, f);
        assert forall|i: int, p: int|
            #![trigger m[i].peers[p]]
            0 <= i < m.len() && 0 <= p < m[i].peers.len() && !(i < l.len() && p < l[i].peers.len()) implies
            announced_copy(m[i].peers[p], m[i].content_hash, node, onion, files) by {
            if i < pre.len() && p < pre[i].peers.len() {
                assert(entry_extends(pre[i], m[i]));
                assert(m[i].peers[p] == m[i].peers.take(pre[i].peers.len() as int)[p]);
                assert(m[i].peers[p] == pre[i].peers[p]);
                let k = choose|k: int| 0 <= k < files.drop_last().len()
                    && (#[trigger] files.drop_last()[k]).content_hash == pre[i].content_hash
                    && is_copy_of(pre[i].peers[p], node, onion, files.drop_last()[k]);
                assert(files.drop_last()[k] == files[k]);
                assert(is_copy_of(m[i].peers[p], node, onion, files[k]));
            } else {
                assert(files[files.len() - 1] == f);
                assert(is_copy_of(m[i].peers[p], node, onion, files[files.len() - 1]));
            }
        }
    } else {
        assert(merge_all(l, node, onion, files) == l);
    }
}

/// Whether lobby entry `e` describes the first of `files` with its content
/// hash: that file's name, size and link, and no earlier file has the hash.
pub open spec fn first_announced(e: NetworkFileV, files: Seq<AnnouncedFileV>) -> bool {
    exists|k: int| 0 <= k < files.len() && #[trigger] files[k].content_hash == e.content_hash
        && e.name == files[k].name && e.size == files[k].size && e.link == files[k].link
        && forall|j: int| 0 <= j < k ==> (#[trigger] files[j]).content_hash != e.content_hash
}

/// The entries a merge adds describe the announced files: each entry after
/// those of `l` has the name, size, link and content hash of the first of
/// `files` with that hash.
pub proof fn lemma_merge_all_new_entries(l: Seq<NetworkFileV>, node: Seq<char>, onion: Seq<char>, files: Seq<AnnouncedFileV>)
    requires
        distinct_hashes(l),
    ensures
        forall|i: int| l.len() <= i < merge_all(l, node, onion, files).len()
            ==> first_announced(#[trigger] merge_all(l, node, onion, files)[i], files),
    decreases files.len(),
{
    if files.len() > 0 {
        let m = merge_all(l, node, onion, files);
        let pre = merge_all(l, node, onion, files.drop_last());
        let f = files.last();
        let n = files.len() - 1;
        lemma_merge_all_new_entries(l, node, onion, files.drop_last());
        lemma_merge_all_distinct(l, node, onion, files.drop_last());
        lemma_merge_all_law(l, node, onion, files.drop_last());
        lemma_merge_one_law(pre, node, onion, f);
        let i0 = hash_index(pre, f.content_hash);
        if has_hash(pre, f.content_hash) {
            assert(0 <= i0 < pre.len());
        }
        assert forall|i: int| l.len() <= i < m.len() implies first_announced(#[trigger] m[i], files) by {
            if i < pre.len() {
                assert(entry_extends(pre[i], m[i]));
                assert(first_announced(pre[i], files.drop_last()));
                let k = choose|k: int| 0 <= k < files.drop_last().len()
                    && #[trigger] files.drop_last()[k].content_hash == pre[i].content_hash
                    && pre[i].name == files.drop_last()[k].name && pre[i].size == files.drop_last()[k].size
                    && pre[i].link == files.drop_last()[k].link
                    && forall|j: int| 0 <= j < k ==> (#[trigger] files.drop_last()[j]).content_hash != pre[i].content_hash;
                assert(files[k] == files.drop_last()[k]);
                assert forall|j: int| 0 <= j < k implies (#[trigger] files[j]).content_hash != m[i].content_hash by {
                    assert(files[j] == files.drop_last()[j]);
                }
            } else {
                assert(!has_hash(pre, f.content_hash));
                assert(i == pre.len());
                assert(files[n] == f);
                assert forall|j: int| 0 <= j < n implies (#[trigger] files[j]).content_hash != m[i].content_hash by {
                    assert(files[j] == files.drop_last()[j]);
                    if files[j].content_hash == f.content_hash {
                        assert(announces_hash(files.drop_last(), f.content_hash));
                    }
                }
            }
        }
    } else {
        assert(merge_all(l, node, onion, files) == l);
    }
}

/// Adds the copies of `files` offered by node `node_id` at `onion` to the
/// lobby `by_hash`.
pub fn merge_files(by_hash: &mut Vec<NetworkFile>, node_id: &String, onion: &String, files: &Vec<AnnouncedFile>)
    requires
        distinct_hashes(files_view(old(by_hash)@)),
        counts_match(files_view(old(by_hash)@)),
    ensures
        files_view(final(by_hash)@) == merge_all(files_view(old(by_hash)@), node_id@, onion@, announced_view(files@)),
        distinct_hashes(files_view(final(by_hash)@)),
        counts_match(files_view(final(by_hash)@)),
        lobby_extends(files_view(old(by_hash)@), files_view(final(by_hash)@)),
        lobby_locations_distinct(files_view(old(by_hash)@)) ==> lobby_locations_distinct(files_view(final(by_hash)@)),
        forall|h: Seq<char>| #[trigger] has_hash(files_view(final(by_hash)@), h)
            <==> (has_hash(files_view(old(by_hash)@), h) || announces_hash(announced_view(files@), h)),
        forall|k: int| 0 <= k < files@.len() ==> {
            let m = files_view(final(by_hash)@);
            &&& has_hash(m, (#[trigger] announced_view(files@)[k]).content_hash)
            &&& has_location(m[hash_index(m, announced_view(files@)[k].content_hash)].peers, node_id@, announced_view(files@)[k].file_id)
        },
        forall|i: int, p: int|
            #![trigger files_view(final(by_hash)@)[i].peers[p]]
            0 <= i < files_view(final(by_hash)@).len()
            && 0 <= p < files_view(final(by_hash)@)[i].peers.len()
            && !(i < files_view(old(by_hash)@).len() && p < files_view(old(by_hash)@)[i].peers.len())
            ==> announced_copy(files_view(final(by_hash)@)[i].peers[p], files_view(final(by_hash)@)[i].content_hash,
                node_id@, onion@, announced_view(files@)),
        forall|i: int| files_view(old(by_hash)@).len() <= i < files_view(final(by_hash)@).len()
            ==> first_announced(#[trigger] files_view(final(by_hash)@)[i], announced_view(files@)),
{
    let ghost start = files_view(by_hash@);
    let mut i: usize = 0;
    while i < files.len()
        invariant
            i <= files@.len(),
            files_view(by_hash@) == merge_all(start, node_id@, onion@, announced_view(files@).take(i as int)),
            distinct_hashes(files_view(by_hash@)),
            counts_match(files_view(by_hash@)),
        decreases files.len() - i,
    {
        let f = &files[i];
        let ghost before = files_view(by_hash@);
        let ghost fv = f@;
        assert(announced_view(files@).take(i + 1).drop_last() =~= announced_view(files@).take(i as int));
        assert(announced_view(files@).take(i + 1).last() == fv);
        let j = match find_by_hash(by_hash, &f.content_hash) {
            Some(j) => {
                proof {
                    assert(before[j as int].content_hash == fv.content_hash);
                    assert(has_hash(before, fv.content_hash));
                    let c = hash_index(before, fv.content_hash);
                    assert(before[c].content_hash == fv.content_hash);
                }
                j
            },
            None => {
                proof {
                    assert(!has_hash(before, fv.content_hash)) by {
                        if has_hash(before, fv.content_hash) {
                            let c = choose|c: int| 0 <= c < before.len() && (#[trigger] before[c]).content_hash == fv.content_hash;
                            assert(by_hash@[c]@ == before[c]);
                        }
                    }
                }
                by_hash.push(NetworkFile {
                    name: f.name.clone(),
                    size: f.size,
                    link: f.link.clone(),
                    content_hash: f.content_hash.clone(),
                    peer_count: 0,
                    peers: Vec::new(),
                });
                proof {
                    assert(locations_view(Seq::<PeerLocation>::empty()) =~= Seq::<PeerLocationV>::empty());
                    assert(files_view(by_hash@) =~= before.push(new_entry(fv)));
                }
                by_hash.len() - 1
            },
        };
        let ghost l1 = files_view(by_hash@);
        if !find_location(&by_hash[j].peers, node_id, &f.file_id) {
            let loc = PeerLocation {
                node_id: node_id.clone(),
                onion: onion.clone(),
                file_id: f.file_id,
                link: f.link.clone(),
            };
            let ghost old_peers = by_hash@[j as int].peers@;
            by_hash[j].peers.push(loc);
            let n = by_hash[j].peers.len();
            by_hash[j].peer_count = n;
            proof {
                assert(locations_view(by_hash@[j as int].peers@) =~= locations_view(old_peers).push(loc@));
                assert forall|k: int| 0 <= k < files_view(by_hash@).len() implies
                    (#[trigger] files_view(by_hash@)[k]).peer_count == files_view(by_hash@)[k].peers.len() by {
                    if k != j {
                        assert(files_view(by_hash@)[k] == l1[k]);
                    }
                }
                assert(files_view(by_hash@) =~= l1.update(j as int, NetworkFileV {
                    name: l1[j as int].name,
                    size: l1[j as int].size,
                    link: l1[j as int].link,
                    content_hash: l1[j as int].content_hash,
                    peer_count: (locations_view(old_peers).push(loc@)).len() as usize,
                    peers: locations_view(old_peers).push(loc@),
                }));
            }
        }
        proof {
            lemma_merge_one_keeps(before, node_id@, onion@, fv);
            assert(files_view(by_hash@) == merge_one(before, node_id@, onion@, fv));
        }
        i += 1;
    }
    assert(announced_view(files@).take(files@.len() as int) =~= announced_view(files@));
    proof {
        lemma_merge_all_law(start, node_id@, onion@, announced_view(files@));
        lemma_merge_all_adds_announced(start, node_id@, onion@, announced_view(files@));
        lemma_merge_all_new_entries(start, node_id@, onion@, announced_view(files@));
    }
}


/// A lobby entry's content hash and locations survive a merge: entries are
/// never dropped and locations are only added.
proof fn lemma_merge_one_grows(l: Seq<NetworkFileV>, node: Seq<char>, onion: Seq<char>, f: AnnouncedFileV, h: Seq<char>, n: Seq<char>, fid: Seq<u8>)
    requires
        distinct_hashes(l),
        has_hash(l, h),
        has_location(l[hash_index(l, h)].peers, n, fid),
    ensures
        has_hash(merge_one(l, node, onion, f), h),
        has_location(merge_one(l, node, onion, f)[hash_index(merge_one(l, node, onion, f), h)].peers, n, fid),
{
    let r = merge_one(l, node, onion, f);
    lemma_merge_one_keeps(l, node, onion, f);
    let a = hash_index(l, h);
    let i = hash_index(l, f.content_hash);
    if has_hash(l, f.content_hash) {
        assert(0 <= i < l.len());
    }
    assert(r.len() >= l.len());
    assert(r[a].content_hash == h);
    assert(has_hash(r, h));
    let b = hash_index(r, h);
    assert(b == a);
    let k = choose|k: int| 0 <= k < l[a].peers.len() && (#[trigger] l[a].peers[k]).node_id == n && l[a].peers[k].file_id == fid;
    assert(r[a].peers[k] == l[a].peers[k]);
}

/// After node `node` announces `f`, the lobby has an entry for `f`'s content
/// hash that lists the node's copy.
proof fn lemma_merge_one_adds(l: Seq<NetworkFileV>, node: Seq<char>, onion: Seq<char>, f: AnnouncedFileV)
    requires
        distinct_hashes(l),
    ensures
        has_hash(merge_one(l, node, onion, f), f.content_hash),
        has_location(
            merge_one(l, node, onion, f)[hash_index(merge_one(l, node, onion, f), f.content_hash)].peers,
            node,
            f.file_id,
        ),
{
    let r = merge_one(l, node, onion, f);
    lemma_merge_one_keeps(l, node, onion, f);
    let i = hash_index(l, f.content_hash);
    let j = if i < 0 { l.len() as int } else { i };
    if has_hash(l, f.content_hash) {
        assert(0 <= i < l.len());
    }
    assert(r[j].content_hash == f.content_hash);
    assert(has_hash(r, f.content_hash));
    assert(hash_index(r, f.content_hash) == j);
    let e = if i < 0 { new_entry(f) } else { l[i] };
    if !has_location(e.peers, node, f.file_id) {
        assert(r[j].peers[e.peers.len() as int].node_id == node);
    }
}

/// Announcing files never loses what the lobby already knew.
pub proof fn lemma_merge_all_grows(l: Seq<NetworkFileV>, node: Seq<char>, onion: Seq<char>, files: Seq<AnnouncedFileV>, h: Seq<char>, n: Seq<char>, fid: Seq<u8>)
    requires
        distinct_hashes(l),
        has_hash(l, h),
        has_location(l[hash_index(l, h)].peers, n, fid),
    ensures
        distinct_hashes(merge_all(l, node, onion, files)),
        has_hash(merge_all(l, node, onion, files), h),
        has_location(merge_all(l, node, onion, files)[hash_index(merge_all(l, node, onion, files), h)].peers, n, fid),
    decreases files.len(),
{
    if files.len() > 0 {
        lemma_merge_all_grows(l, node, onion, files.drop_last(), h, n, fid);
        lemma_merge_one_keeps(merge_all(l, node, onion, files.drop_last()), node, onion, files.last());
        lemma_merge_one_grows(merge_all(l, node, onion, files.drop_last()), node, onion, files.last(), h, n, fid);
    }
}

/// Merging keeps content hashes distinct.
pub proof fn lemma_merge_all_distinct(l: Seq<NetworkFileV>, node: Seq<char>, onion: Seq<char>, files: Seq<AnnouncedFileV>)
    requires
        distinct_hashes(l),
    ensures
        distinct_hashes(merge_all(l, node, onion, files)),
    decreases files.len(),
{
    if files.len() > 0 {
        lemma_merge_all_distinct(l, node, onion, files.drop_last());
        lemma_merge_one_keeps(merge_all(l, node, onion, files.drop_last()), node, onion, files.last());
    }
}

/// Every file a node announces is in the merged lobby, under its content
/// hash, with that node's copy among its locations.
pub proof fn lemma_merge_all_lists(l: Seq<NetworkFileV>, node: Seq<char>, onion: Seq<char>, files: Seq<AnnouncedFileV>, k: int)
    requires
        distinct_hashes(l),
        0 <= k < files.len(),
    ensures
        has_hash(merge_all(l, node, onion, files), files[k].content_hash),
        has_location(
            merge_all(l, node, onion, files)[hash_index(merge_all(l, node, onion, files), files[k].content_hash)].peers,
            node,
            files[k].file_id,
        ),
    decreases files.len(),
{
    let pre = merge_all(l, node, onion, files.drop_last());
    lemma_merge_all_distinct(l, node, onion, files.drop_last());
    if k == files.len() - 1 {
        lemma_merge_one_adds(pre, node, onion, files.last());
    } else {
        lemma_merge_all_lists(l, node, onion, files.drop_last(), k);
        lemma_merge_one_grows(pre, node, onion, files.last(), files[k].content_hash, node, files[k].file_id);
    }
}


/// Version of the discovery announcement format.
pub const DISCOVERY_VERSION: u8 = 1;
/// How long a peer stays listed after it was last heard from (milliseconds).
pub const PEER_TTL_MS: u64 = 120000;
/// Interval between two local announcements (seconds).
pub const ANNOUNCE_INTERVAL_SECS: u64 = 4;
/// Interval between two rounds of gossip with the bootstrap peers (seconds).
pub const GOSSIP_INTERVAL_SECS: u64 = 45;

/// What a node multicasts on the LAN about itself.
#[derive(Debug, Clone)]
pub struct DiscoveryAnnouncement {
    pub version: u8,
    pub node_id: String,
    pub onion: String,
    pub files: Vec<AnnouncedFile>,
    pub sent_at_unix: u64,
}

/// What this node last heard from another: when (monotonic milliseconds),
/// its onion address and its files.
#[derive(Debug, Clone)]
pub struct SeenPeer {
    pub last_seen_ms: u64,
    pub onion: String,
    pub files: Vec<AnnouncedFile>,
}

/// A peer heard from, as values.
pub struct SeenPeerV {
    pub last_seen_ms: u64,
    pub onion: Seq<char>,
    pub files: Seq<AnnouncedFileV>,
}

impl View for SeenPeer {
    type V = SeenPeerV;

    open spec fn view(&self) -> SeenPeerV {
        SeenPeerV { last_seen_ms: self.last_seen_ms, onion: self.onion@, files: announced_view(self.files@) }
    }
}

/// One row of the peer table: a node id and what was heard from it.
#[derive(Debug, Clone)]
pub struct PeerEntry {
    pub node_id: String,
    pub peer: SeenPeer,
}

/// The peers heard from, one row per node id.
pub struct PeerTable {
    entries: Vec<PeerEntry>,
}

/// Whether no two rows have the same node id.
pub open spec fn keys_distinct(e: Seq<(Seq<char>, SeenPeerV)>) -> bool {
    forall|i: int, j: int| 0 <= i < j < e.len() ==> e[i].0 != e[j].0
}

/// The rows as a map from node id to peer.
pub open spec fn rows_map(e: Seq<(Seq<char>, SeenPeerV)>) -> Map<Seq<char>, SeenPeerV> {
    Map::new(
        |k: Seq<char>| exists|i: int| 0 <= i < e.len() && (#[trigger] e[i]).0 == k,
        |k: Seq<char>| e[choose|i: int| 0 <= i < e.len() && (#[trigger] e[i]).0 == k].1,
    )
}

/// Whether some row has node id `k`.
pub open spec fn has_key(e: Seq<(Seq<char>, SeenPeerV)>, k: Seq<char>) -> bool {
    exists|i: int| 0 <= i < e.len() && (#[trigger] e[i]).0 == k
}

/// The position of the row with node id `k` (-1 if none).
pub open spec fn key_index(e: Seq<(Seq<char>, SeenPeerV)>, k: Seq<char>) -> int {
    if has_key(e, k) {
        choose|i: int| 0 <= i < e.len() && (#[trigger] e[i]).0 == k
    } else {
        -1
    }
}

/// The rows after recording `v` for node `k`: its row is replaced in place,
/// or a row is added at the end.
pub open spec fn table_insert(e: Seq<(Seq<char>, SeenPeerV)>, k: Seq<char>, v: SeenPeerV) -> Seq<(Seq<char>, SeenPeerV)> {
    if has_key(e, k) {
        e.update(key_index(e, k), (k, v))
    } else {
        e.push((k, v))
    }
}

/// Recording what was heard from a node is a map insertion: afterwards the
/// table maps that node to what was recorded and every other node to what it
/// mapped before, and node ids stay distinct.
pub proof fn lemma_table_insert(e: Seq<(Seq<char>, SeenPeerV)>, k: Seq<char>, v: SeenPeerV)
    requires
        keys_distinct(e),
    ensures
        keys_distinct(table_insert(e, k, v)),
        rows_map(table_insert(e, k, v)) == rows_map(e).insert(k, v),
{
    let t = table_insert(e, k, v);
    let m = rows_map(e).insert(k, v);
    if has_key(e, k) {
        let i = key_index(e, k);
        assert(0 <= i < e.len() && e[i].0 == k);
    }
    assert forall|x: Seq<char>| #[trigger] rows_map(t).contains_key(x) <==> m.contains_key(x) by {
        if m.contains_key(x) {
            if x == k {
                if has_key(e, k) {
                    assert(t[key_index(e, k)].0 == k);
                } else {
                    assert(t[e.len() as int].0 == k);
                }
            } else {
                let i = choose|i: int| 0 <= i < e.len() && (#[trigger] e[i]).0 == x;
                assert(t[i].0 == x);
            }
        }
        if rows_map(t).contains_key(x) {
            let i = choose|i: int| 0 <= i < t.len() && (#[trigger] t[i]).0 == x;
            if x != k {
                assert(e[i].0 == x);
            }
        }
    }
    assert forall|x: Seq<char>| #[trigger] rows_map(t).contains_key(x) implies rows_map(t)[x] == m[x] by {
        let i = choose|i: int| 0 <= i < t.len() && (#[trigger] t[i]).0 == x;
        if x == k {
            assert(t[i] == (k, v));
        } else {
            assert(e[i] == t[i]);
            let j = choose|j: int| 0 <= j < e.len() && (#[trigger] e[j]).0 == x;
            assert(i == j);
        }
    }
    assert(rows_map(t) =~= m);
}

/// Whether a peer last heard from at `last` is still listed at `now`.
pub open spec fn is_fresh(last: u64, now: u64) -> bool {
    (if now >= last { now - last } else { 0 }) < PEER_TTL_MS
}

impl View for PeerTable {
    type V = Seq<(Seq<char>, SeenPeerV)>;

    closed spec fn view(&self) -> Seq<(Seq<char>, SeenPeerV)> {
        self.entries@.map_values(|e: PeerEntry| (e.node_id@, e.peer@))
    }
}

/// The lobby after each row's node announces its files, rows in order.
pub open spec fn merge_rows(l: Seq<NetworkFileV>, rows: Seq<(Seq<char>, SeenPeerV)>) -> Seq<NetworkFileV>
    decreases rows.len(),
{
    if rows.len() == 0 {
        l
    } else {
        let r = rows.last();
        merge_all(merge_rows(l, rows.drop_last()), r.0, r.1.onion, r.1.files)
    }
}

/// The files of the lobby built from the local announcement (if any) and the
/// peer rows: the local node's files first, then each row's.
pub open spec fn lobby_files(local: Option<(Seq<char>, Seq<char>, Seq<AnnouncedFileV>)>, rows: Seq<(Seq<char>, SeenPeerV)>) -> Seq<NetworkFileV> {
    let start = match local {
        Some(a) => merge_all(Seq::empty(), a.0, a.1, a.2),
        None => Seq::empty(),
    };
    merge_rows(start, rows)
}

/// The number of nodes online: every row, plus this node when it announced
/// itself or at least knows its id.
pub open spec fn online_count(has_local: bool, local_node_id: Seq<char>, rows: nat) -> nat {
    rows + if has_local || local_node_id.len() > 0 { 1nat } else { 0nat }
}

/// What the lobby reads of an announcement: (node id, onion, files). The
/// protocol version and the send time play no part in the lobby.
pub open spec fn lobby_part(a: DiscoveryAnnouncement) -> (Seq<char>, Seq<char>, Seq<AnnouncedFileV>) {
    (a.node_id@, a.onion@, announced_view(a.files@))
}

/// `lobby_part` of an announcement, if there is one.
pub open spec fn opt_lobby_part(a: Option<&DiscoveryAnnouncement>) -> Option<(Seq<char>, Seq<char>, Seq<AnnouncedFileV>)> {
    match a {
        Some(x) => Some(lobby_part(*x)),
        None => None,
    }
}

impl PeerTable {
    /// The table's invariant: node ids are distinct.
    pub closed spec fn wf(&self) -> bool {
        keys_distinct(self@)
    }

    /// An empty table.
    pub fn new() -> (t: PeerTable)
        ensures
            t.wf(),
            t@ == Seq::<(Seq<char>, SeenPeerV)>::empty(),
    {
        let t = PeerTable { entries: Vec::new() };
        assert(t@ =~= Seq::<(Seq<char>, SeenPeerV)>::empty());
        t
    }

    /// Number of rows.
    pub fn len(&self) -> (n: usize)
        ensures
            n == self@.len(),
    {
        self.entries.len()
    }

    /// The rows, in order.
    pub fn entries(&self) -> (e: &Vec<PeerEntry>)
        ensures
            e@.map_values(|e: PeerEntry| (e.node_id@, e.peer@)) == self@,
    {
        &self.entries
    }

    /// Records what was heard from `node_id`, replacing what was heard from it
    /// before (its row keeps its place) or adding a row at the end.
    pub fn insert(&mut self, node_id: String, peer: SeenPeer)
        requires
            old(self).wf(),
        ensures
            final(self).wf(),
            final(self)@ == table_insert(old(self)@, node_id@, peer@),
    {
        let ghost kv = (node_id@, peer@);
        let mut i: usize = 0;
        while i < self.entries.len()
            invariant
                i <= self.entries@.len(),
                self@ == old(self)@,
                kv == (node_id@, peer@),
                keys_distinct(self@),
                forall|k: int| 0 <= k < i ==> self@[k].0 != node_id@,
            decreases self.entries.len() - i,
        {
            if self.entries[i].node_id == node_id {
                assert(self@[i as int].0 == node_id@);
                assert(has_key(self@, node_id@));
                assert(key_index(self@, node_id@) == i);
                let ghost prev = self.entries@;
                self.entries.set(i, PeerEntry { node_id, peer });
                proof {
                    let f = |e: PeerEntry| (e.node_id@, e.peer@);
                    assert(prev.map_values(f) == old(self)@);
                    assert(self.entries@ == prev.update(i as int, self.entries@[i as int]));
                    assert(f(self.entries@[i as int]) == kv);
                    assert(self.entries@.map_values(f) =~= prev.map_values(f).update(i as int, kv));
                }
                return;
            }
            i += 1;
        }
        self.entries.push(PeerEntry { node_id, peer });
        assert(self@ =~= old(self)@.push(kv));
    }

    /// Drops the rows of peers not heard from within the time to live.
    pub fn prune(&mut self, now_ms: u64)
        requires
            old(self).wf(),
        ensures
            final(self).wf(),
            final(self)@ == old(self)@.filter(|r: (Seq<char>, SeenPeerV)| is_fresh(r.1.last_seen_ms, now_ms)),
    {
        let ghost pred = |r: (Seq<char>, SeenPeerV)| is_fresh(r.1.last_seen_ms, now_ms);
        let ghost orig = self@;
        let mut rest: Vec<PeerEntry> = Vec::new();
        std::mem::swap(&mut rest, &mut self.entries);
        let ghost f = |e: PeerEntry| (e.node_id@, e.peer@);
        assert(rest@.map_values(f) == orig);
        let mut kept: Vec<PeerEntry> = Vec::new();
        let ghost mut i: int = 0;
        while rest.len() > 0
            invariant
                0 <= i <= orig.len(),
                rest@.map_values(f) == orig.skip(i),
                kept@.map_values(f) == orig.take(i).filter(pred),
                keys_distinct(orig),
                keys_distinct(kept@.map_values(f)),
                forall|r: (Seq<char>, SeenPeerV)| #[trigger] pred(r) == is_fresh(r.1.last_seen_ms, now_ms),
                forall|x: PeerEntry| #[trigger] f(x) == (x.node_id@, x.peer@),
                forall|a: int| 0 <= a < kept@.len() ==> exists|j: int| 0 <= j < i && #[trigger] kept@.map_values(f)[a] == orig[j],
            decreases rest.len(),
        {
            assert(rest@.map_values(f).len() == rest@.len());
            assert(i < orig.len());
            let e = rest.remove(0);
            assert(orig.skip(i)[0] == f(e));
            proof {
                assert(orig.take(i + 1) =~= orig.take(i).push(orig[i]));
                orig.take(i).lemma_filter_push(orig[i], pred);
                assert(orig.skip(i + 1) =~= orig.skip(i).drop_first());
            }
            let fresh = if now_ms >= e.peer.last_seen_ms {
                now_ms - e.peer.last_seen_ms < PEER_TTL_MS
            } else {
                0 < PEER_TTL_MS
            };
            let ghost before = kept@.map_values(f);
            assert(pred(orig[i]) == fresh);
            if fresh {
                kept.push(e);
                proof {
                    assert(kept@.map_values(f) =~= before.push(orig[i]));
                    assert forall|a: int| 0 <= a < kept@.len() implies exists|j: int| 0 <= j < i + 1 && #[trigger] kept@.map_values(f)[a] == orig[j] by {
                        if a < before.len() {
                            let j = choose|j: int| 0 <= j < i && #[trigger] before[a] == orig[j];
                            assert(kept@.map_values(f)[a] == orig[j]);
                        } else {
                            assert(kept@.map_values(f)[a] == orig[i]);
                        }
                    }
                    assert forall|a: int, b: int| 0 <= a < b < kept@.map_values(f).len() implies
                        kept@.map_values(f)[a].0 != kept@.map_values(f)[b].0 by {
                        if b == before.len() {
                            let j = choose|j: int| 0 <= j < i && #[trigger] before[a] == orig[j];
                            assert(kept@.map_values(f)[a] == orig[j]);
                        } else {
                            assert(kept@.map_values(f)[a] == before[a]);
                            assert(kept@.map_values(f)[b] == before[b]);
                        }
                    }
                }
            }
            proof {
                i = i + 1;
                assert(rest@.map_values(f) =~= orig.skip(i));
                assert(kept@.map_values(f) =~= orig.take(i).filter(pred));
            }
        }
        assert(orig.take(i) =~= orig);
        self.entries = kept;
        assert(self@ =~= kept@.map_values(f));
    }
}


/// The lobby: one entry per content hash announced by this node (if it
/// announced itself) or by a peer in the table, listing every copy; and the
/// number of nodes online.
pub fn aggregate_lobby(local_node_id: &String, local: Option<&DiscoveryAnnouncement>, peers: &PeerTable) -> (lobby: NetworkLobby)
    requires
        peers.wf(),
        peers@.len() < usize::MAX,
    ensures
        lobby.online_nodes == online_count(local is Some, local_node_id@, peers@.len()),
        files_view(lobby.files@) == lobby_files(opt_lobby_part(local), peers@),
        distinct_hashes(files_view(lobby.files@)),
        counts_match(files_view(lobby.files@)),
{
    let mut by_hash: Vec<NetworkFile> = Vec::new();
    let mut online_nodes = peers.len();
    assert(files_view(by_hash@) =~= Seq::<NetworkFileV>::empty());
    match local {
        Some(a) => {
            online_nodes += 1;
            merge_files(&mut by_hash, &a.node_id, &a.onion, &a.files);
        },
        None => {
            if !local_node_id.as_str().is_empty() {
                online_nodes += 1;
            }
        },
    }
    let ghost start = files_view(by_hash@);
    let entries = peers.entries();
    let ghost rows = peers@;
    let mut i: usize = 0;
    while i < entries.len()
        invariant
            i <= entries@.len(),
            entries@.map_values(|e: PeerEntry| (e.node_id@, e.peer@)) == rows,
            files_view(by_hash@) == merge_rows(start, rows.take(i as int)),
            distinct_hashes(files_view(by_hash@)),
            counts_match(files_view(by_hash@)),
        decreases entries.len() - i,
    {
        let e = &entries[i];
        assert(rows.take(i + 1).drop_last() =~= rows.take(i as int));
        assert(rows.take(i + 1).last() == (e.node_id@, e.peer@));
        merge_files(&mut by_hash, &e.node_id, &e.peer.onion, &e.peer.files);
        i += 1;
    }
    assert(rows.take(entries@.len() as int) =~= rows);
    NetworkLobby { online_nodes, files: by_hash }
}

/// Every file that this node or a peer in the table announced is in the
/// lobby under its content hash, with the announcing node's copy listed.
pub proof fn lemma_lobby_lists_rows(l: Seq<NetworkFileV>, rows: Seq<(Seq<char>, SeenPeerV)>, r: int, k: int)
    requires
        distinct_hashes(l),
        0 <= r < rows.len(),
        0 <= k < rows[r].1.files.len(),
    ensures
        distinct_hashes(merge_rows(l, rows)),
        has_hash(merge_rows(l, rows), rows[r].1.files[k].content_hash),
        has_location(
            merge_rows(l, rows)[hash_index(merge_rows(l, rows), rows[r].1.files[k].content_hash)].peers,
            rows[r].0,
            rows[r].1.files[k].file_id,
        ),
    decreases rows.len(),
{
    lemma_merge_rows_distinct(l, rows.drop_last());
    let last = rows.last();
    if r == rows.len() - 1 {
        lemma_merge_all_lists(merge_rows(l, rows.drop_last()), last.0, last.1.onion, last.1.files, k);
        lemma_merge_all_distinct(merge_rows(l, rows.drop_last()), last.0, last.1.onion, last.1.files);
    } else {
        lemma_lobby_lists_rows(l, rows.drop_last(), r, k);
        let f = rows[r].1.files[k];
        lemma_merge_all_grows(merge_rows(l, rows.drop_last()), last.0, last.1.onion, last.1.files, f.content_hash, rows[r].0, f.file_id);
    }
}

/// Merging the peers' files keeps content hashes distinct.
pub proof fn lemma_merge_rows_distinct(l: Seq<NetworkFileV>, rows: Seq<(Seq<char>, SeenPeerV)>)
    requires
        distinct_hashes(l),
    ensures
        distinct_hashes(merge_rows(l, rows)),
    decreases rows.len(),
{
    if rows.len() > 0 {
        lemma_merge_rows_distinct(l, rows.drop_last());
        let last = rows.last();
        lemma_merge_all_distinct(merge_rows(l, rows.drop_last()), last.0, last.1.onion, last.1.files);
    }
}

/// What was already in the lobby stays there as peers' files are merged.
pub proof fn lemma_merge_rows_grows(l: Seq<NetworkFileV>, rows: Seq<(Seq<char>, SeenPeerV)>, h: Seq<char>, n: Seq<char>, fid: Seq<u8>)
    requires
        distinct_hashes(l),
        has_hash(l, h),
        has_location(l[hash_index(l, h)].peers, n, fid),
    ensures
        has_hash(merge_rows(l, rows), h),
        has_location(merge_rows(l, rows)[hash_index(merge_rows(l, rows), h)].peers, n, fid),
    decreases rows.len(),
{
    if rows.len() > 0 {
        lemma_merge_rows_grows(l, rows.drop_last(), h, n, fid);
        lemma_merge_rows_distinct(l, rows.drop_last());
        let last = rows.last();
        lemma_merge_all_grows(merge_rows(l, rows.drop_last()), last.0, last.1.onion, last.1.files, h, n, fid);
    }
}

/// Every file of the local announcement is in the lobby, under its content
/// hash, with the local node's copy listed.
pub proof fn lemma_lobby_lists_local(a: (Seq<char>, Seq<char>, Seq<AnnouncedFileV>), rows: Seq<(Seq<char>, SeenPeerV)>, k: int)
    requires
        0 <= k < a.2.len(),
    ensures
        has_hash(lobby_files(Some(a), rows), a.2[k].content_hash),
        has_location(
            lobby_files(Some(a), rows)[hash_index(lobby_files(Some(a), rows), a.2[k].content_hash)].peers,
            a.0,
            a.2[k].file_id,
        ),
{
    let start = merge_all(Seq::empty(), a.0, a.1, a.2);
    lemma_merge_all_lists(Seq::empty(), a.0, a.1, a.2, k);
    lemma_merge_all_distinct(Seq::empty(), a.0, a.1, a.2);
    lemma_merge_rows_grows(start, rows, a.2[k].content_hash, a.0, a.2[k].file_id);
}

/// Every file a peer in the table announced is in the lobby, under its
/// content hash, with that peer's copy listed.
pub proof fn lemma_lobby_lists_peer(local: Option<(Seq<char>, Seq<char>, Seq<AnnouncedFileV>)>, rows: Seq<(Seq<char>, SeenPeerV)>, r: int, k: int)
    requires
        0 <= r < rows.len(),
        0 <= k < rows[r].1.files.len(),
    ensures
        has_hash(lobby_files(local, rows), rows[r].1.files[k].content_hash),
        has_location(
            lobby_files(local, rows)[hash_index(lobby_files(local, rows), rows[r].1.files[k].content_hash)].peers,
            rows[r].0,
            rows[r].1.files[k].file_id,
        ),
{
    match local {
        Some(a) => {
            lemma_merge_all_distinct(Seq::empty(), a.0, a.1, a.2);
            lemma_lobby_lists_rows(merge_all(Seq::empty(), a.0, a.1, a.2), rows, r, k);
        },
        None => {
            lemma_lobby_lists_rows(Seq::empty(), rows, r, k);
        },
    }
}


/// A copy of a list of announced files.
pub fn clone_files(v: &Vec<AnnouncedFile>) -> (r: Vec<AnnouncedFile>)
    ensures
        announced_view(r@) == announced_view(v@),
{
    let mut r: Vec<AnnouncedFile> = Vec::new();
    let mut i: usize = 0;
    while i < v.len()
        invariant
            i <= v@.len(),
            r@.len() == i,
            announced_view(r@) == announced_view(v@.take(i as int)),
        decreases v.len() - i,
    {
        let f = &v[i];
        let ghost prev = r@;
        r.push(AnnouncedFile {
            file_id: f.file_id,
            name: f.name.clone(),
            size: f.size,
            link: f.link.clone(),
            content_hash: f.content_hash.clone(),
        });
        assert(r@[i as int]@ == v@[i as int]@);
        assert(v@.take(i + 1) =~= v@.take(i as int).push(v@[i as int]));
        assert forall|k: int| 0 <= k < i + 1 implies #[trigger] announced_view(r@)[k] == announced_view(v@.take(i + 1))[k] by {
            if k < i {
                assert(r@[k] == prev[k]);
                assert(announced_view(prev)[k] == announced_view(v@.take(i as int))[k]);
            }
        }
        i += 1;
        assert(announced_view(r@) =~= announced_view(v@.take(i as int)));
    }
    assert(v@.take(v@.len() as int) =~= v@);
    r
}

/// This node's announcement: none while tor is off or the onion address is
/// unknown; otherwise this node's id and address, and its shared files if it
/// shares publicly (none otherwise).
pub fn build_local_announce(
    tor_active: bool,
    onion: &Option<String>,
    share_publicly: bool,
    shared_files: &Vec<AnnouncedFile>,
    node_id: &String,
    now_unix: u64,
) -> (r: Option<DiscoveryAnnouncement>)
    ensures
        !tor_active || onion is None ==> r is None,
        tor_active && onion is Some ==> (r matches Some(a) && a.version == DISCOVERY_VERSION
            && a.node_id@ == node_id@ && a.onion@ == onion->0@ && a.sent_at_unix == now_unix
            && announced_view(a.files@) == if share_publicly { announced_view(shared_files@) } else { Seq::empty() }),
{
    if !tor_active {
        return None;
    }
    let onion = match onion {
        Some(o) => o.clone(),
        None => {
            return None;
        },
    };
    let files = if share_publicly {
        clone_files(shared_files)
    } else {
        let v: Vec<AnnouncedFile> = Vec::new();
        assert(announced_view(v@) =~= Seq::<AnnouncedFileV>::empty());
        v
    };
    Some(DiscoveryAnnouncement {
        version: DISCOVERY_VERSION,
        node_id: node_id.clone(),
        onion,
        files,
        sent_at_unix: now_unix,
    })
}

/// Records an announcement received on the LAN, unless it has another format
/// version or comes from this node itself. Returns whether it was recorded.
pub fn accept_announcement(peers: &mut PeerTable, msg: DiscoveryAnnouncement, local_node_id: &String, now_ms: u64) -> (accepted: bool)
    requires
        old(peers).wf(),
    ensures
        final(peers).wf(),
        accepted == (msg.version == DISCOVERY_VERSION && msg.node_id@ != local_node_id@),
        accepted ==> final(peers)@ == table_insert(old(peers)@, msg.node_id@,
            SeenPeerV { last_seen_ms: now_ms, onion: msg.onion@, files: announced_view(msg.files@) }),
        !accepted ==> final(peers)@ == old(peers)@,
{
    if msg.version != DISCOVERY_VERSION || msg.node_id == *local_node_id {
        return false;
    }
    peers.insert(msg.node_id, SeenPeer { last_seen_ms: now_ms, onion: msg.onion, files: msg.files });
    true
}

/// Records the gossip answer of a bootstrap peer, unless it comes from this
/// node itself. Returns whether it was recorded.
pub fn accept_gossip(peers: &mut PeerTable, msg: GossipMessage, local_node_id: &String, now_ms: u64) -> (accepted: bool)
    requires
        old(peers).wf(),
    ensures
        final(peers).wf(),
        accepted == (msg.node_id@ != local_node_id@),
        accepted ==> final(peers)@ == table_insert(old(peers)@, msg.node_id@,
            SeenPeerV { last_seen_ms: now_ms, onion: msg.onion@, files: announced_view(msg.files@) }),
        !accepted ==> final(peers)@ == old(peers)@,
{
    if msg.node_id == *local_node_id {
        return false;
    }
    peers.insert(msg.node_id, SeenPeer { last_seen_ms: now_ms, onion: msg.onion, files: msg.files });
    true
}

/// Drops the peers not heard from within the time to live, then builds the
/// lobby; this node counts as online when it announced itself or when
/// `fallback_local_node_id` is not empty.
pub fn refresh_lobby(peers: &mut PeerTable, fallback_local_node_id: &String, local: Option<&DiscoveryAnnouncement>, now_ms: u64) -> (lobby: NetworkLobby)
    requires
        old(peers).wf(),
        old(peers)@.len() < usize::MAX,
    ensures
        final(peers).wf(),
        final(peers)@ == old(peers)@.filter(|r: (Seq<char>, SeenPeerV)| is_fresh(r.1.last_seen_ms, now_ms)),
        lobby.online_nodes == online_count(local is Some, fallback_local_node_id@, final(peers)@.len()),
        files_view(lobby.files@) == lobby_files(opt_lobby_part(local), final(peers)@),
        distinct_hashes(files_view(lobby.files@)),
        counts_match(files_view(lobby.files@)),
{
    peers.prune(now_ms);
    proof {
        old(peers)@.lemma_filter_len(|r: (Seq<char>, SeenPeerV)| is_fresh(r.1.last_seen_ms, now_ms));
    }
    match local {
        Some(a) => aggregate_lobby(&a.node_id, local, peers),
        None => aggregate_lobby(fallback_local_node_id, local, peers),
    }
}

} // verus!
