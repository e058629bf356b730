//! The optional central tracker: nodes ping it with their public files, and
//! it answers with the nodes online in the last two minutes and their files.

use vstd::prelude::*;

verus! {

/// A file a node offers publicly.
#[derive(Debug, Clone)]
pub struct PublicFile {
    pub name: String,
    pub size: u64,
    pub link: String,
}

/// A public file, as values.
pub struct PublicFileV {
    pub name: Seq<char>,
    pub size: u64,
    pub link: Seq<char>,
}

impl View for PublicFile {
    type V = PublicFileV;

    open spec fn view(&self) -> PublicFileV {
        PublicFileV { name: self.name@, size: self.size, link: self.link@ }
    }
}

/// The values of a sequence of public files.
pub open spec fn public_view(s: Seq<PublicFile>) -> Seq<PublicFileV> {
    s.map_values(|f: PublicFile| f@)
}

/// A ping: the node's id and the files it offers.
#[derive(Debug, Clone)]
pub struct PingReq {
    pub node_id: String,
    pub files: Vec<PublicFile>,
}

/// The lobby as the tracker answers it.
#[derive(Debug, Clone)]
pub struct LobbyRes {
    pub online_nodes: usize,
    pub files: Vec<PublicFile>,
}

/// How long a node stays online after its last ping (milliseconds).
pub const NODE_TTL_MS: u64 = 120000;

/// A node's row: id, last ping time (milliseconds), files.
pub type NodeRow = (Seq<char>, u64, Seq<PublicFileV>);

/// Whether a node that pinged at `t` is still online at `now`.
pub open spec fn node_live(t: u64, now: u64) -> bool {
    (if now >= t { now - t } else { 0 }) < NODE_TTL_MS
}

/// Whether some row has node id `k`.
pub open spec fn has_node(e: Seq<NodeRow>, k: Seq<char>) -> bool {
    exists|i: int| 0 <= i < e.len() && (#[trigger] e[i]).0 == k
}

/// The rows after node `k` pings at `t` with `files`: its row is replaced in
/// place, or a row is added at the end.
pub open spec fn node_upsert(e: Seq<NodeRow>, k: Seq<char>, t: u64, files: Seq<PublicFileV>) -> Seq<NodeRow> {
    if has_node(e, k) {
        e.update(choose|i: int| 0 <= i < e.len() && (#[trigger] e[i]).0 == k, (k, t, files))
    } else {
        e.push((k, t, files))
    }
}

/// Every row's files, rows in order.
pub open spec fn all_files(e: Seq<NodeRow>) -> Seq<PublicFileV>
    decreases e.len(),
{
    if e.len() == 0 { Seq::empty() } else { all_files(e.drop_last()) + e.last().2 }
}

/// Whether no two rows have the same node id.
pub open spec fn nodes_distinct(e: Seq<NodeRow>) -> bool {
    forall|i: int, j: int| 0 <= i < j < e.len() ==> e[i].0 != e[j].0
}

/// The rows a lobby taken at `now` keeps, in order.
pub open spec fn live_rows(e: Seq<NodeRow>, now: u64) -> Seq<NodeRow> {
    e.filter(|r: NodeRow| node_live(r.1, now))
}

/// A ping refreshes its node. After node `k` pings at `t` with `files`:
/// exactly the rows for `k` read `(k, t, files)`, and there is one; every other
/// node's row is still there, unchanged; ids stay distinct; and a lobby taken
/// at any `now` with `t <= now < t + NODE_TTL_MS` still lists `k` with its
/// files, however long ago `k` first pinged.
pub proof fn lemma_ping_refreshes(e: Seq<NodeRow>, k: Seq<char>, t: u64, files: Seq<PublicFileV>, now: u64)
    requires
        nodes_distinct(e),
    ensures
        exists|i: int| 0 <= i < node_upsert(e, k, t, files).len() && #[trigger] node_upsert(e, k, t, files)[i] == (k, t, files),
        forall|i: int| 0 <= i < node_upsert(e, k, t, files).len() && (#[trigger] node_upsert(e, k, t, files)[i]).0 == k
            ==> node_upsert(e, k, t, files)[i] == (k, t, files),
        forall|i: int| 0 <= i < e.len() && (#[trigger] e[i]).0 != k ==> node_upsert(e, k, t, files).contains(e[i]),
        nodes_distinct(node_upsert(e, k, t, files)),
        t <= now && now - t < NODE_TTL_MS ==> live_rows(node_upsert(e, k, t, files), now).contains((k, t, files)),
{
    let u = node_upsert(e, k, t, files);
    let row = (k, t, files);
    let idx: int = if has_node(e, k) {
        choose|i: int| 0 <= i < e.len() && (#[trigger] e[i]).0 == k
    } else {
        e.len() as int
    };
    assert(u[idx] == row);
    assert forall|i: int| 0 <= i < u.len() && (#[trigger] u[i]).0 == k implies u[i] == row by {
        if i != idx {
            assert(u[i] == e[i]);
        }
    }
    assert forall|i: int| 0 <= i < e.len() && (#[trigger] e[i]).0 != k implies u.contains(e[i]) by {
        assert(u[i] == e[i]);
    }
    assert forall|a: int, b: int| 0 <= a < b < u.len() implies u[a].0 != u[b].0 by {
        if a != idx && b != idx {
            assert(u[a] == e[a] && u[b] == e[b]);
        } else if a == idx {
            assert(u[b] == e[b]);
        } else {
            assert(u[a] == e[a]);
        }
    }
    if t <= now && now - t < NODE_TTL_MS {
        u.lemma_filter_contains(|r: NodeRow| node_live(r.1, now), idx);
    }
}

/// The lobby law: at `now`, the lobby keeps exactly the rows whose node
/// pinged less than `NODE_TTL_MS` ago (or at a time after `now`), each as it
/// was, and nothing else.
pub proof fn lemma_lobby_keeps_live(e: Seq<NodeRow>, now: u64)
    ensures
        forall|i: int| 0 <= i < e.len() && (e[i].1 > now || now - e[i].1 < NODE_TTL_MS)
            ==> live_rows(e, now).contains(#[trigger] e[i]),
        forall|j: int| 0 <= j < live_rows(e, now).len() ==> {
            let r = #[trigger] live_rows(e, now)[j];
            &&& r.1 > now || now - r.1 < NODE_TTL_MS
            &&& e.contains(r)
        },
{
    let pred = |r: NodeRow| node_live(r.1, now);
    assert(live_rows(e, now) == e.filter(pred));
    assert forall|i: int| 0 <= i < e.len() && (e[i].1 > now || now - e[i].1 < NODE_TTL_MS)
        implies live_rows(e, now).contains(#[trigger] e[i]) by {
        e.lemma_filter_contains(pred, i);
    }
    assert forall|j: int| 0 <= j < live_rows(e, now).len() implies {
        let r = #[trigger] live_rows(e, now)[j];
        &&& r.1 > now || now - r.1 < NODE_TTL_MS
        &&& e.contains(r)
    } by {
        e.lemma_filter_pred(pred, j);
        assert(e.filter(pred).contains(e.filter(pred)[j]));
        e.lemma_filter_contains_rev(pred, e.filter(pred)[j]);
    }
}

struct NodeEntry {
    node_id: String,
    last_ping_ms: u64,
    files: Vec<PublicFile>,
}

/// The tracker's state: one row per node that pinged.
pub struct TrackerState {
    nodes: Vec<NodeEntry>,
}

fn clone_public(v: &Vec<PublicFile>) -> (r: Vec<PublicFile>)
    ensures
        public_view(r@) == public_view(v@),
{
    let mut r: Vec<PublicFile> = Vec::new();
    let mut i: usize = 0;
    while i < v.len()
        invariant
            i <= v@.len(),
            r@.len() == i,
            forall|k: int| 0 <= k < i ==> #[trigger] r@[k]@ == v@[k]@,
        decreases v.len() - i,
    {
        r.push(PublicFile { name: v[i].name.clone(), size: v[i].size, link: v[i].link.clone() });
        i += 1;
    }
    assert(public_view(r@) =~= public_view(v@));
    r
}

impl TrackerState {
    /// The rows, in order of first ping.
    pub closed spec fn rows(&self) -> Seq<NodeRow> {
        self.nodes@.map_values(|n: NodeEntry| (n.node_id@, n.last_ping_ms, public_view(n.files@)))
    }

    /// The state's invariant: node ids are distinct.
    pub open spec fn wf(&self) -> bool {
        nodes_distinct(self.rows())
    }

    /// A tracker that has heard from nobody.
    pub fn new() -> (t: TrackerState)
        ensures
            t.wf(),
            t.rows().len() == 0,
    {
        let t = TrackerState { nodes: Vec::new() };
        assert(t.rows() =~= Seq::<NodeRow>::empty());
        t
    }

    /// Records that `req.node_id` is online at `now_ms` with `req.files`;
    /// returns the number of rows.
    pub fn ping(&mut self, req: PingReq, now_ms: u64) -> (n: usize)
        requires
            old(self).wf(),
        ensures
            final(self).wf(),
            final(self).rows() == node_upsert(old(self).rows(), req.node_id@, now_ms, public_view(req.files@)),
            n == final(self).rows().len(),
            exists|i: int| 0 <= i < final(self).rows().len()
                && #[trigger] final(self).rows()[i] == (req.node_id@, now_ms, public_view(req.files@)),
            forall|i: int| 0 <= i < final(self).rows().len() && (#[trigger] final(self).rows()[i]).0 == req.node_id@
                ==> final(self).rows()[i].1 == now_ms && final(self).rows()[i].2 == public_view(req.files@),
    {
        let ghost row = (req.node_id@, now_ms, public_view(req.files@));
        let ghost f = |n: NodeEntry| (n.node_id@, n.last_ping_ms, public_view(n.files@));
        let mut i: usize = 0;
        while i < self.nodes.len()
            invariant
                i <= self.nodes@.len(),
                self.rows() == old(self).rows(),
                self.wf(),
                row == (req.node_id@, now_ms, public_view(req.files@)),
                forall|x: NodeEntry| #[trigger] f(x) == (x.node_id@, x.last_ping_ms, public_view(x.files@)),
                forall|k: int| 0 <= k < i ==> self.rows()[k].0 != req.node_id@,
            decreases self.nodes.len() - i,
        {
            if self.nodes[i].node_id == req.node_id {
                assert(self.rows()[i as int].0 == req.node_id@);
                assert(has_node(self.rows(), req.node_id@));
                let ghost prev = self.nodes@;
                self.nodes.set(i, NodeEntry { node_id: req.node_id, last_ping_ms: now_ms, files: req.files });
                proof {
                    let c = choose|c: int| 0 <= c < old(self).rows().len() && (#[trigger] old(self).rows()[c]).0 == row.0;
                    assert(c == i);
                    assert(prev.map_values(f) == old(self).rows());
                    assert(f(self.nodes@[i as int]) == row);
                    assert(self.nodes@.map_values(f) =~= prev.map_values(f).update(i as int, row));
                    assert forall|a: int, b: int| 0 <= a < b < self.rows().len() implies self.rows()[a].0 != self.rows()[b].0 by {
                        assert(self.rows()[a].0 == old(self).rows()[a].0);
                        assert(self.rows()[b].0 == old(self).rows()[b].0);
                    }
                    lemma_ping_refreshes(old(self).rows(), row.0, row.1, row.2, row.1);
                }
                return self.nodes.len();
            }
            i += 1;
        }
        self.nodes.push(NodeEntry { node_id: req.node_id, last_ping_ms: now_ms, files: req.files });
        assert(self.rows() =~= old(self).rows().push(row));
        proof {
            lemma_ping_refreshes(old(self).rows(), row.0, row.1, row.2, row.1);
        }
        self.nodes.len()
    }

    /// Forgets the nodes that have not pinged in the last two minutes, then
    /// answers with the number of nodes left and all their files, node by node.
    pub fn lobby(&mut self, now_ms: u64) -> (r: LobbyRes)
        requires
            old(self).wf(),
        ensures
            final(self).wf(),
            final(self).rows() == old(self).rows().filter(|e: NodeRow| node_live(e.1, now_ms)),
            r.online_nodes == final(self).rows().len(),
            public_view(r.files@) == all_files(final(self).rows()),
    {
        let ghost f = |n: NodeEntry| (n.node_id@, n.last_ping_ms, public_view(n.files@));
        let ghost pred = |e: NodeRow| node_live(e.1, now_ms);
        let ghost orig = self.rows();
        let mut rest: Vec<NodeEntry> = Vec::new();
        std::mem::swap(&mut rest, &mut self.nodes);
        assert(rest@.map_values(f) == orig);
        let mut kept: Vec<NodeEntry> = Vec::new();
        let mut files: Vec<PublicFile> = Vec::new();
        let ghost mut i: int = 0;
        while rest.len() > 0
            invariant
                0 <= i <= orig.len(),
                rest@.map_values(f) == orig.skip(i),
                kept@.map_values(f) == orig.take(i).filter(pred),
                public_view(files@) == all_files(kept@.map_values(f)),
                nodes_distinct(orig),
                nodes_distinct(kept@.map_values(f)),
                forall|a: int| 0 <= a < kept@.len() ==> exists|j: int| 0 <= j < i && #[trigger] kept@.map_values(f)[a] == orig[j],
                forall|r: NodeRow| #[trigger] pred(r) == node_live(r.1, now_ms),
                forall|x: NodeEntry| #[trigger] f(x) == (x.node_id@, x.last_ping_ms, public_view(x.files@)),
            decreases rest.len(),
        {
            assert(rest@.map_values(f).len() == rest@.len());
            assert(i < orig.len());
            let e = rest.remove(0);
            assert(orig.skip(i)[0] == f(e));
            proof {
                assert(orig.take(i + 1) =~= orig.take(i).push(orig[i]));
                orig.take(i).lemma_filter_push(orig[i], pred);
                assert(orig.skip(i + 1) =~= orig.skip(i).drop_first());
            }
            let live = if now_ms >= e.last_ping_ms { now_ms - e.last_ping_ms < NODE_TTL_MS } else { true };
            let ghost before = kept@.map_values(f);
            assert(pred(orig[i]) == live);
            if live {
                let ghost fb = files@;
                let mut more = clone_public(&e.files);
                files.append(&mut more);
                kept.push(e);
                proof {
                    assert(kept@.map_values(f) =~= before.push(orig[i]));
                    assert(kept@.map_values(f).drop_last() =~= before);
                    assert(public_view(files@) =~= public_view(fb) + public_view(e.files@));
                    assert forall|a: int| 0 <= a < kept@.len() implies exists|j: int| 0 <= j < i + 1 && #[trigger] kept@.map_values(f)[a] == orig[j] by {
                        if a < before.len() {
                            let j = choose|j: int| 0 <= j < i && #[trigger] before[a] == orig[j];
                            assert(kept@.map_values(f)[a] == orig[j]);
                        } else {
                            assert(kept@.map_values(f)[a] == orig[i]);
                        }
                    }
                    assert forall|a: int, b: int| 0 <= a < b < kept@.map_values(f).len() implies
                        kept@.map_values(f)[a].0 != kept@.map_values(f)[b].0 by {
                        if b == before.len() {
                            let j = choose|j: int| 0 <= j < i && #[trigger] before[a] == orig[j];
                            assert(kept@.map_values(f)[a] == orig[j]);
                        } else {
                            assert(kept@.map_values(f)[a] == before[a]);
                            assert(kept@.map_values(f)[b] == before[b]);
                        }
                    }
                }
            }
            proof {
                i = i + 1;
                assert(rest@.map_values(f) =~= orig.skip(i));
                assert(kept@.map_values(f) =~= orig.take(i).filter(pred));
            }
        }
        assert(orig.take(i) =~= orig);
        self.nodes = kept;
        assert(self.rows() =~= kept@.map_values(f));
        LobbyRes { online_nodes: self.nodes.len(), files }
    }
}

} // verus!
