use vstd::prelude::*;

use crate::chunk::TimeChunk;
use crate::config::{Config, IndexType};
use crate::errors::IndexError;
use crate::tree::{path_le, wf_path, PathComp};

verus! {

broadcast use vstd::seq_lib::lemma_seq_contains_after_push;

/// An edge hanging a committed chunk off its time-path node.
#[derive(Clone, Debug)]
pub struct ChunkLink {
    /// The leaf path node the chunk is linked under.
    pub path: Vec<PathComp>,
    /// The chunk entry the edge points at.
    pub chunk: TimeChunk,
    /// When the edge was committed, for "latest chunk" selection.
    pub timestamp: u64,
}

/// Where an author's link attaches.
#[derive(Clone, Copy, Debug, PartialEq, Eq, Structural)]
pub enum EdgeKind {
    /// Straight on the chunk.
    Direct,
    /// Appended to the author's overflow chain; the value is the content
    /// address of the chain's previous target, the edge's source node.
    Chain(u64),
}

/// One author-made link under a chunk, either direct or chained.
#[derive(Clone, Copy, Debug, PartialEq, Eq, Structural)]
pub struct LinkEdge {
    /// The chunk whose budget this link consumes.
    pub chunk: TimeChunk,
    /// The author that committed the link.
    pub author: u64,
    /// Content address of the record being linked.
    pub target: u64,
    /// The caller-chosen tag on the link.
    pub tag: u64,
    /// Direct attachment or overflow chain position.
    pub kind: EdgeKind,
}

/// The visible, append-only state of one dataset: committed chunk entries,
/// the path tree, the chunk edges hanging chunks off the tree, the genesis
/// anchor, and every author-made link. All rules of the index are pure
/// functions of this data, so any validator holding the same view reaches
/// the same decisions.
pub struct Store {
    config: Config,
    paths: Vec<Vec<PathComp>>,
    chunk_links: Vec<ChunkLink>,
    chunks: Vec<TimeChunk>,
    genesis: Option<TimeChunk>,
    edges: Vec<LinkEdge>,
}

/// The links one author has made on one chunk, oldest first.
pub open spec fn author_edges(edges: Seq<LinkEdge>, c: TimeChunk, a: u64) -> Seq<LinkEdge> {
    edges.filter(|e: LinkEdge| e.chunk == c && e.author == a)
}

/// Shape of one author's links on one chunk: at most the spam limit in
/// total, the first links up to the direct budget direct and every later one
/// chained, each chain edge hanging off the previous link's target.
pub open spec fn edge_seq_wf(cfg: Config, es: Seq<LinkEdge>) -> bool {
    &&& es.len() <= cfg.enforce_spam_limit
    &&& forall|i: int|
        0 <= i < es.len() ==> ((#[trigger] es[i]).kind is Direct <==> i < cfg.direct_chunk_link_limit)
    &&& forall|i: int|
        cfg.direct_chunk_link_limit <= i < es.len() ==> (#[trigger] es[i]).kind
            == EdgeKind::Chain(es[i - 1].target)
}

/// Every author keeps the proper shape on every chunk.
pub open spec fn edges_wf(cfg: Config, edges: Seq<LinkEdge>) -> bool {
    forall|c: TimeChunk, a: u64| edge_seq_wf(cfg, #[trigger] author_edges(edges, c, a))
}

/// `q` is a direct child of `p` in the path tree.
pub open spec fn path_extends(q: Seq<PathComp>, p: Seq<PathComp>) -> bool {
    q.len() == p.len() + 1 && q.take(p.len() as int) == p
}

/// The stored path nodes form a tree: every node is well-formed, every
/// prefix of a node is a node, and every node short of the configured depth
/// has at least one child.
pub open spec fn paths_wf(cfg: Config, ps: Seq<Seq<PathComp>>) -> bool {
    &&& forall|i: int| 0 <= i < ps.len() ==> wf_path(cfg, #[trigger] ps[i])
    &&& forall|i: int, k: int|
        0 <= i < ps.len() && 1 <= k < ps[i].len() ==> ps.contains(#[trigger] ps[i].take(k))
    &&& forall|i: int|
        0 <= i < ps.len() && (#[trigger] ps[i]).len() < cfg.spec_depth() ==> exists|j: int|
            0 <= j < ps.len() && #[trigger] path_extends(ps[j], ps[i])
}

/// As `paths_wf`, except that the node `pp.take(k - 1)` — the frontier of an
/// insertion in progress — may still be waiting for its child.
pub open spec fn paths_wf_except(
    cfg: Config,
    ps: Seq<Seq<PathComp>>,
    pp: Seq<PathComp>,
    k: int,
) -> bool {
    &&& forall|i: int| 0 <= i < ps.len() ==> wf_path(cfg, #[trigger] ps[i])
    &&& forall|i: int, j: int|
        0 <= i < ps.len() && 1 <= j < ps[i].len() ==> ps.contains(#[trigger] ps[i].take(j))
    &&& forall|i: int|
        0 <= i < ps.len() && (#[trigger] ps[i]).len() < cfg.spec_depth() ==> (exists|j: int|
            0 <= j < ps.len() && #[trigger] path_extends(ps[j], ps[i])) || ps[i] == pp.take(k - 1)
}

/// The stored children of a path node, in storage order.
pub open spec fn child_nodes(ps: Seq<Seq<PathComp>>, parent: Seq<PathComp>) -> Seq<Seq<PathComp>> {
    ps.filter(|q: Seq<PathComp>| path_extends(q, parent))
}

/// Every chunk edge hangs off a stored leaf node and points at a committed
/// chunk.
pub open spec fn links_wf(
    cfg: Config,
    ps: Seq<Seq<PathComp>>,
    links: Seq<ChunkLink>,
    chunks: Seq<TimeChunk>,
) -> bool {
    forall|i: int|
        0 <= i < links.len() ==> {
            let l = #[trigger] links[i];
            &&& ps.contains(l.path@)
            &&& l.path@.len() == cfg.spec_depth()
            &&& chunks.contains(l.chunk)
        }
}

/// Every stored leaf node except `x` carries at least one chunk edge.
pub open spec fn leaf_linked_except(
    cfg: Config,
    ps: Seq<Seq<PathComp>>,
    links: Seq<ChunkLink>,
    x: Seq<PathComp>,
) -> bool {
    forall|i: int|
        0 <= i < ps.len() && (#[trigger] ps[i]).len() == cfg.spec_depth() && ps[i] != x
            ==> exists|j: int| 0 <= j < links.len() && (#[trigger] links[j]).path@ == ps[i]
}

/// Every stored leaf node carries at least one chunk edge.
pub open spec fn leaf_linked(cfg: Config, ps: Seq<Seq<PathComp>>, links: Seq<ChunkLink>) -> bool {
    forall|i: int|
        0 <= i < ps.len() && (#[trigger] ps[i]).len() == cfg.spec_depth() ==> exists|j: int|
            0 <= j < links.len() && (#[trigger] links[j]).path@ == ps[i]
}

impl Store {
    /// The dataset's fixed configuration.
    pub closed spec fn cfg(self) -> Config {
        self.config
    }

    /// The stored path nodes.
    pub closed spec fn spec_paths(self) -> Seq<Seq<PathComp>> {
        self.paths@.map_values(|p: Vec<PathComp>| p@)
    }

    /// The chunk edges, oldest first.
    pub closed spec fn spec_chunk_links(self) -> Seq<ChunkLink> {
        self.chunk_links@
    }

    /// The committed chunk entries, oldest first.
    pub closed spec fn spec_chunks(self) -> Seq<TimeChunk> {
        self.chunks@
    }

    /// The genesis chunk the anchor points at, if one was ever committed.
    pub closed spec fn spec_genesis(self) -> Option<TimeChunk> {
        self.genesis
    }

    /// The author-made links, oldest first.
    pub closed spec fn spec_edges(self) -> Seq<LinkEdge> {
        self.edges@
    }

    /// Everything that holds of the store between operations, short of the
    /// guarantee that freshly ensured leaves already carry a chunk edge.
    pub open spec fn wf_base(self) -> bool {
        &&& self.cfg().wf()
        &&& paths_wf(self.cfg(), self.spec_paths())
        &&& links_wf(self.cfg(), self.spec_paths(), self.spec_chunk_links(), self.spec_chunks())
        &&& edges_wf(self.cfg(), self.spec_edges())
        &&& self.spec_chunks().len() > 0 ==> self.spec_genesis() is Some
        &&& self.spec_genesis() is Some ==> self.spec_chunks().contains(self.spec_genesis()->0)
        &&& self.spec_chunks().len() > 0 ==> self.spec_paths().len() > 0
    }

    /// The store's full invariant.
    pub open spec fn wf(self) -> bool {
        &&& self.wf_base()
        &&& leaf_linked(self.cfg(), self.spec_paths(), self.spec_chunk_links())
    }

    /// An empty dataset under a fixed configuration.
    pub fn new(config: Config) -> (r: Store)
        requires
            config.wf(),
        ensures
            r.wf(),
            r.cfg() == config,
            r.spec_paths() =~= Seq::<Seq<PathComp>>::empty(),
            r.spec_chunk_links() =~= Seq::<ChunkLink>::empty(),
            r.spec_chunks() =~= Seq::<TimeChunk>::empty(),
            r.spec_genesis() is None,
            r.spec_edges() =~= Seq::<LinkEdge>::empty(),
    {
        Store {
            config,
            paths: Vec::new(),
            chunk_links: Vec::new(),
            chunks: Vec::new(),
            genesis: None,
            edges: Vec::new(),
        }
    }

    /// The dataset's configuration.
    pub fn config(&self) -> (r: Config)
        ensures
            r == self.cfg(),
    {
        self.config
    }

    /// The genesis chunk, or `None` before any chunk has ever been
    /// committed.
    pub fn get_genesis_chunk(&self) -> (r: Option<TimeChunk>)
        ensures
            r == self.spec_genesis(),
    {
        self.genesis
    }

    /// Whether a chunk with exactly these bounds has been committed.
    pub fn contains_chunk(&self, c: &TimeChunk) -> (r: bool)
        ensures
            r <==> self.spec_chunks().contains(*c),
    {
        let mut i: usize = 0;
        while i < self.chunks.len()
            invariant
                i <= self.chunks.len(),
                forall|j: int| 0 <= j < i ==> self.chunks@[j] != *c,
            decreases self.chunks.len() - i,
        {
            if self.chunks[i] == *c {
                return true;
            }
            i += 1;
        }
        false
    }

    /// Whether this exact path node is stored.
    pub(crate) fn contains_path(&self, p: &Vec<PathComp>) -> (r: bool)
        ensures
            r <==> self.spec_paths().contains(p@),
    {
        let mut i: usize = 0;
        while i < self.paths.len()
            invariant
                i <= self.paths.len(),
                forall|j: int| 0 <= j < i ==> self.paths@[j]@ != p@,
            decreases self.paths.len() - i,
        {
            if crate::tree::paths_equal(&self.paths[i], p) {
                proof {
                    assert(self.spec_paths()[i as int] == p@);
                }
                return true;
            }
            i += 1;
        }
        proof {
            assert forall|k: int| 0 <= k < self.spec_paths().len() implies self.spec_paths()[k]
                != p@ by {
                assert(self.paths@[k]@ != p@);
            }
        }
        false
    }

    /// The author-made links, for callers outside this module.
    pub(crate) fn edge_log(&self) -> (r: &Vec<LinkEdge>)
        ensures
            r@ == self.spec_edges(),
    {
        &self.edges
    }

    /// Appends one author-made link; everything else is untouched.
    pub(crate) fn push_edge(&mut self, e: LinkEdge)
        ensures
            final(self).spec_edges() == old(self).spec_edges().push(e),
            final(self).cfg() == old(self).cfg(),
            final(self).spec_paths() == old(self).spec_paths(),
            final(self).spec_chunk_links() == old(self).spec_chunk_links(),
            final(self).spec_chunks() == old(self).spec_chunks(),
            final(self).spec_genesis() == old(self).spec_genesis(),
    {
        self.edges.push(e);
    }

    /// Appends one committed chunk entry; everything else is untouched.
    pub(crate) fn push_chunk(&mut self, c: TimeChunk)
        ensures
            final(self).spec_chunks() == old(self).spec_chunks().push(c),
            final(self).cfg() == old(self).cfg(),
            final(self).spec_paths() == old(self).spec_paths(),
            final(self).spec_chunk_links() == old(self).spec_chunk_links(),
            final(self).spec_genesis() == old(self).spec_genesis(),
            final(self).spec_edges() == old(self).spec_edges(),
    {
        self.chunks.push(c);
    }

    /// Appends one chunk edge; everything else is untouched.
    pub(crate) fn push_chunk_link(&mut self, l: ChunkLink)
        ensures
            final(self).spec_chunk_links() == old(self).spec_chunk_links().push(l),
            final(self).cfg() == old(self).cfg(),
            final(self).spec_paths() == old(self).spec_paths(),
            final(self).spec_chunks() == old(self).spec_chunks(),
            final(self).spec_genesis() == old(self).spec_genesis(),
            final(self).spec_edges() == old(self).spec_edges(),
    {
        self.chunk_links.push(l);
    }

    /// Idempotent creation of a leaf path node together with every
    /// intermediate node above it. Calling it again for a node that exists is
    /// a no-op; afterwards the tree holds exactly the old nodes plus every
    /// prefix of `path`.
    pub(crate) fn ensure_path(&mut self, path: &Vec<PathComp>)
        requires
            old(self).wf(),
            wf_path(old(self).cfg(), path@),
            path@.len() == old(self).cfg().spec_depth(),
        ensures
            final(self).cfg() == old(self).cfg(),
            final(self).wf_base(),
            leaf_linked_except(
                final(self).cfg(),
                final(self).spec_paths(),
                final(self).spec_chunk_links(),
                path@,
            ),
            final(self).spec_chunk_links() == old(self).spec_chunk_links(),
            final(self).spec_chunks() == old(self).spec_chunks(),
            final(self).spec_genesis() == old(self).spec_genesis(),
            final(self).spec_edges() == old(self).spec_edges(),
            forall|q: Seq<PathComp>|
                final(self).spec_paths().contains(q) <==> (old(self).spec_paths().contains(q)
                    || (exists|j: int| 1 <= j <= path@.len() && q == path@.take(j))),
            final(self).spec_paths().contains(path@),
            final(self).spec_paths().len() >= old(self).spec_paths().len(),
    {
        let ghost os = old(self).spec_paths();
        let ghost cfg = old(self).cfg();
        let ghost pp = path@;
        let n = path.len();
        let mut k: usize = 1;
        while k <= n
            invariant
                1 <= k <= n + 1,
                pp == path@,
                n == pp.len(),
                pp.len() == cfg.spec_depth(),
                wf_path(cfg, pp),
                cfg.wf(),
                self.cfg() == cfg,
                self.spec_chunk_links() == old(self).spec_chunk_links(),
                self.spec_chunks() == old(self).spec_chunks(),
                self.spec_genesis() == old(self).spec_genesis(),
                self.spec_edges() == old(self).spec_edges(),
                os == old(self).spec_paths(),
                self.spec_paths().len() >= os.len(),
                forall|q: Seq<PathComp>|
                    self.spec_paths().contains(q) <==> (os.contains(q) || (exists|j: int|
                        1 <= j < k && q == pp.take(j))),
                forall|j: int| 1 <= j < k ==> self.spec_paths().contains(#[trigger] pp.take(j)),
                paths_wf_except(cfg, self.spec_paths(), pp, k as int),
                leaf_linked_except(cfg, self.spec_paths(), self.spec_chunk_links(), pp),
                links_wf(cfg, self.spec_paths(), self.spec_chunk_links(), self.spec_chunks()),
                self.spec_chunks().len() > 0 ==> self.spec_genesis() is Some,
                self.spec_genesis() is Some ==> self.spec_chunks().contains(
                    self.spec_genesis()->0,
                ),
                self.spec_chunks().len() > 0 ==> self.spec_paths().len() > 0,
            decreases n + 1 - k,
        {
            let pr = crate::tree::prefix_of(path, k);
            let ghost prk = pp.take(k as int);
            proof {
                crate::tree::lemma_wf_path_take(cfg, pp, k as int);
                if k >= 2 {
                    assert(prk.take(k - 1) =~= pp.take(k - 1));
                }
            }
            let ghost pre = self.spec_paths();
            let present = self.contains_path(&pr);
            if !present {
                self.paths.push(pr);
                proof {
                    assert(self.spec_paths() =~= pre.push(prk));
                }
            }
            proof {
                let cur = self.spec_paths();
                // What the tree now contains.
                assert forall|q: Seq<PathComp>|
                    cur.contains(q) <==> (os.contains(q) || (exists|j: int|
                        1 <= j < k + 1 && q == pp.take(j))) by {
                    if cur.contains(q) {
                        if pre.contains(q) {
                            if !os.contains(q) {
                                let j = choose|j: int| 1 <= j < k && q == pp.take(j);
                                assert(1 <= j < k + 1 && q == pp.take(j));
                            }
                        } else {
                            assert(q == prk);
                            assert(1 <= k < k + 1 && q == pp.take(k as int));
                        }
                    }
                    if os.contains(q) {
                        assert(pre.contains(q));
                        assert(cur.contains(q));
                    }
                    if exists|j: int| 1 <= j < k + 1 && q == pp.take(j) {
                        let j = choose|j: int| 1 <= j < k + 1 && q == pp.take(j);
                        if j < k {
                            assert(pre.contains(q));
                            assert(cur.contains(q));
                        } else {
                            assert(q == prk);
                            if present {
                                assert(cur.contains(q));
                            } else {
                                assert(cur[pre.len() as int] == prk);
                                assert(cur.contains(q));
                            }
                        }
                    }
                }
                assert(cur.contains(prk));
                assert forall|j: int| 1 <= j < k + 1 implies cur.contains(
                    #[trigger] pp.take(j),
                ) by {
                    if j < k {
                        assert(pre.contains(pp.take(j)));
                        let w = choose|w: int| 0 <= w < pre.len() && pre[w] == pp.take(j);
                        assert(cur[w] == pp.take(j));
                    } else {
                        assert(pp.take(j) == prk);
                    }
                }
                // Every node is well-formed.
                assert forall|i: int| 0 <= i < cur.len() implies wf_path(
                    cfg,
                    #[trigger] cur[i],
                ) by {
                    if i < pre.len() {
                        assert(wf_path(cfg, pre[i]));
                    } else {
                        assert(cur[i] == prk);
                    }
                }
                // Prefix closure.
                assert forall|i: int, j: int|
                    0 <= i < cur.len() && 1 <= j < cur[i].len() implies cur.contains(
                    #[trigger] cur[i].take(j),
                ) by {
                    if i < pre.len() {
                        assert(pre.contains(pre[i].take(j)));
                        assert(cur.contains(pre[i].take(j)));
                    } else {
                        assert(cur[i] == prk);
                        assert(prk.take(j) =~= pp.take(j));
                        assert(1 <= j < k + 1 && pp.take(j) == pp.take(j));
                        assert(cur.contains(pp.take(j)));
                    }
                }
                // Every interior node short of the frontier has a child.
                assert forall|i: int|
                    0 <= i < cur.len() && (#[trigger] cur[i]).len() < cfg.spec_depth() implies ((
                exists|j: int| 0 <= j < cur.len() && #[trigger] path_extends(cur[j], cur[i]))
                    || cur[i] == pp.take(k as int)) by {
                    if i < pre.len() {
                        if exists|j: int| 0 <= j < pre.len() && #[trigger] path_extends(
                            pre[j],
                            pre[i],
                        ) {
                            let j = choose|j: int|
                                0 <= j < pre.len() && #[trigger] path_extends(pre[j], pre[i]);
                            assert(path_extends(cur[j], cur[i]));
                        } else {
                            assert(pre[i] == pp.take(k - 1));
                            assert(wf_path(cfg, pre[i]));
                            assert(k >= 2);
                            assert(prk.take(k - 1) == pp.take(k - 1));
                            assert(prk.len() == k);
                            assert(path_extends(prk, pre[i]));
                            assert(cur.contains(prk));
                            let w = choose|w: int| 0 <= w < cur.len() && cur[w] == prk;
                            assert(path_extends(cur[w], cur[i]));
                        }
                    } else {
                        assert(cur[i] == prk);
                        assert(prk.len() == k);
                        assert(k < cfg.spec_depth() ==> prk == pp.take(k as int));
                    }
                }
                // Leaves other than the one being ensured keep their links.
                assert forall|i: int|
                    0 <= i < cur.len() && (#[trigger] cur[i]).len() == cfg.spec_depth()
                        && cur[i] != pp implies exists|j: int|
                    0 <= j < self.spec_chunk_links().len()
                        && (#[trigger] self.spec_chunk_links()[j]).path@ == cur[i] by {
                    if i < pre.len() {
                        assert(leaf_linked_except(cfg, pre, self.spec_chunk_links(), pp));
                    } else {
                        assert(cur[i] == prk);
                        assert(k == n);
                        assert(prk =~= pp);
                        assert(false);
                    }
                }
                // Chunk edges still hang off stored nodes.
                assert forall|i: int| 0 <= i < self.spec_chunk_links().len() implies {
                    let l = #[trigger] self.spec_chunk_links()[i];
                    &&& cur.contains(l.path@)
                    &&& l.path@.len() == cfg.spec_depth()
                    &&& self.spec_chunks().contains(l.chunk)
                } by {
                    let l = self.spec_chunk_links()[i];
                    assert(pre.contains(l.path@));
                    assert(cur.contains(l.path@));
                }
            }
            k += 1;
        }
        proof {
            assert(pp.take(n as int) =~= pp);
            assert(self.spec_paths().contains(pp.take(n as int)));
            assert(self.spec_paths().contains(pp));
            // The frontier exception is now vacuous: it names the full path,
            // whose length is the configured depth.
            assert forall|i: int|
                0 <= i < self.spec_paths().len() && (#[trigger] self.spec_paths()[i]).len()
                    < cfg.spec_depth() implies exists|j: int|
                0 <= j < self.spec_paths().len() && #[trigger] path_extends(
                    self.spec_paths()[j],
                    self.spec_paths()[i],
                ) by {
                let ps = self.spec_paths();
                if !(exists|j: int| 0 <= j < ps.len() && #[trigger] path_extends(ps[j], ps[i])) {
                    assert(ps[i] == pp.take(n as int));
                    assert(ps[i].len() == cfg.spec_depth());
                    assert(false);
                }
            }
            assert(edges_wf(cfg, self.spec_edges()));
        }
    }

    /// Enumerates the stored path nodes one level below `parent`, in storage
    /// order.
    pub fn children_paths(&self, parent: &Vec<PathComp>) -> (r: Vec<Vec<PathComp>>)
        ensures
            r@.map_values(|v: Vec<PathComp>| v@) == child_nodes(self.spec_paths(), parent@),
    {
        broadcast use vstd::prelude::Seq::lemma_filter_push;
        broadcast use vstd::prelude::Seq::lemma_take_succ_push;

        let mut out: Vec<Vec<PathComp>> = Vec::new();
        let mut i: usize = 0;
        while i < self.paths.len()
            invariant
                i <= self.paths.len(),
                out@.map_values(|v: Vec<PathComp>| v@) == child_nodes(
                    self.spec_paths().take(i as int),
                    parent@,
                ),
            decreases self.paths.len() - i,
        {
            let ghost pre = self.spec_paths().take(i as int);
            proof {
                assert(self.spec_paths().take(i + 1) =~= pre.push(self.spec_paths()[i as int]));
                pre.lemma_filter_push(
                    self.spec_paths()[i as int],
                    |q: Seq<PathComp>| path_extends(q, parent@),
                );
            }
            if crate::tree::is_child_of(&self.paths[i], parent) {
                let c = crate::tree::copy_path(&self.paths[i]);
                out.push(c);
                proof {
                    assert(out@.map_values(|v: Vec<PathComp>| v@) =~= child_nodes(
                        self.spec_paths().take(i + 1),
                        parent@,
                    ));
                }
            }
            i += 1;
        }
        proof {
            assert(self.spec_paths().take(self.paths@.len() as int) =~= self.spec_paths());
        }
        out
    }

    /// Picks, one level below `path`, the stored child with the greatest
    /// numeric component — the newest period. If `level` is not materialized
    /// in this configuration there is nothing deeper to search and `path`
    /// itself comes back; if no children exist the traversal reports
    /// `NotFound`.
    pub fn find_newest_child(&self, path: &Vec<PathComp>, level: IndexType) -> (r: Result<
        Vec<PathComp>,
        IndexError,
    >)
        requires
            path@.len() == crate::config::level_index(level),
        ensures
            !self.cfg().spec_has_level(level) ==> r is Ok && r->Ok_0@ == path@,
            self.cfg().spec_has_level(level) ==> {
                let kids = child_nodes(self.spec_paths(), path@);
                &&& (r is Err <==> kids.len() == 0)
                &&& r is Err ==> r->Err_0 == IndexError::NotFound
                &&& r is Ok ==> kids.contains(r->Ok_0@) && (forall|t: Seq<PathComp>|
                    kids.contains(t) ==> t[path@.len() as int].spec_value()
                        <= r->Ok_0@[path@.len() as int].spec_value())
            },
    {
        broadcast use vstd::prelude::Seq::lemma_filter_pred;
        broadcast use vstd::prelude::Seq::lemma_filter_contains;

        if !self.config.has_level(level) {
            return Ok(crate::tree::copy_path(path));
        }
        let kids = self.children_paths(path);
        let ghost kspec = child_nodes(self.spec_paths(), path@);
        if kids.len() == 0 {
            proof {
                assert(kspec.len() == kids@.map_values(|v: Vec<PathComp>| v@).len());
            }
            return Err(IndexError::NotFound);
        }
        let idx = path.len();
        let mut best: usize = 0;
        let mut i: usize = 1;
        proof {
            assert(kspec[0] == kids@.map_values(|v: Vec<PathComp>| v@)[0]);
            assert(path_extends(kspec[0], path@));
        }
        while i < kids.len()
            invariant
                best < i <= kids@.len(),
                kids@.map_values(|v: Vec<PathComp>| v@) == kspec,
                idx == path@.len(),
                forall|j: int| 0 <= j < kspec.len() ==> path_extends(#[trigger] kspec[j], path@),
                forall|j: int|
                    0 <= j < i ==> (#[trigger] kspec[j])[idx as int].spec_value()
                        <= kspec[best as int][idx as int].spec_value(),
            decreases kids@.len() - i,
        {
            proof {
                assert(path_extends(kspec[i as int], path@));
                assert(path_extends(kspec[best as int], path@));
            }
            if kids[i][idx].value() > kids[best][idx].value() {
                best = i;
            }
            i += 1;
        }
        let found = crate::tree::copy_path(&kids[best]);
        proof {
            assert(found@ == kspec[best as int]);
            assert(kspec.contains(found@));
            assert forall|t: Seq<PathComp>| kspec.contains(t) implies t[path@.len() as int]
                .spec_value() <= found@[path@.len() as int].spec_value() by {
                let j = choose|j: int| 0 <= j < kspec.len() && kspec[j] == t;
                assert(kspec[j][idx as int].spec_value()
                    <= kspec[best as int][idx as int].spec_value());
            }
        }
        Ok(found)
    }

    /// The chunk hanging off `leaf` whose chunk edge carries the greatest
    /// timestamp, together with that timestamp; ties go to the youngest
    /// edge. `None` exactly when no chunk edge hangs off `leaf`.
    pub(crate) fn latest_link_at(&self, leaf: &Vec<PathComp>) -> (r: Option<(TimeChunk, u64)>)
        ensures
            r is None <==> (forall|j: int|
                0 <= j < self.spec_chunk_links().len() ==> (#[trigger] self.spec_chunk_links()[j]).path@
                    != leaf@),
            r is Some ==> (exists|j: int|
                0 <= j < self.spec_chunk_links().len()
                    && (#[trigger] self.spec_chunk_links()[j]).path@ == leaf@
                    && self.spec_chunk_links()[j].chunk == (r->0).0
                    && self.spec_chunk_links()[j].timestamp == (r->0).1),
            r is Some ==> (forall|j: int|
                0 <= j < self.spec_chunk_links().len()
                    && (#[trigger] self.spec_chunk_links()[j]).path@ == leaf@
                    ==> self.spec_chunk_links()[j].timestamp <= (r->0).1),
    {
        let mut found: Option<(TimeChunk, u64)> = None;
        let mut i: usize = 0;
        while i < self.chunk_links.len()
            invariant
                i <= self.chunk_links@.len(),
                found is None <==> (forall|j: int|
                    0 <= j < i ==> (#[trigger] self.spec_chunk_links()[j]).path@ != leaf@),
                found is Some ==> (exists|j: int|
                    0 <= j < i && (#[trigger] self.spec_chunk_links()[j]).path@ == leaf@
                        && self.spec_chunk_links()[j].chunk == (found->0).0
                        && self.spec_chunk_links()[j].timestamp == (found->0).1),
                found is Some ==> (forall|j: int|
                    0 <= j < i && (#[trigger] self.spec_chunk_links()[j]).path@ == leaf@
                        ==> self.spec_chunk_links()[j].timestamp <= (found->0).1),
            decreases self.chunk_links@.len() - i,
        {
            let l = &self.chunk_links[i];
            proof {
                assert(self.spec_chunk_links()[i as int] == self.chunk_links@[i as int]);
            }
            if crate::tree::paths_equal(&l.path, leaf) {
                let take = match &found {
                    None => true,
                    Some(b) => l.timestamp >= b.1,
                };
                if take {
                    found = Some((l.chunk, l.timestamp));
                }
            }
            i += 1;
        }
        found
    }

    /// The chunk edges, for callers outside this module.
    pub(crate) fn chunk_link_log(&self) -> (r: &Vec<ChunkLink>)
        ensures
            r@ == self.spec_chunk_links(),
    {
        &self.chunk_links
    }

    /// The most recently indexed chunk, found by descending the time tree
    /// along the newest child at every level and taking the youngest chunk
    /// at the leaf: the returned chunk hangs off a leaf that no other chunk
    /// edge's leaf is newer than, by the youngest edge on that leaf. `None`
    /// exactly when no chunk has ever been committed.
    pub fn most_recent_chunk(&self) -> (r: Option<TimeChunk>)
        requires
            self.wf(),
        ensures
            r is None <==> self.spec_chunks().len() == 0,
            r is Some ==> self.spec_chunks().contains(r->0),
            r is Some ==> (exists|j: int|
                0 <= j < self.spec_chunk_links().len()
                    && (#[trigger] self.spec_chunk_links()[j]).chunk == r->0 && (forall|i: int|
                    0 <= i < self.spec_chunk_links().len() ==> path_le(
                        (#[trigger] self.spec_chunk_links()[i]).path@,
                        self.spec_chunk_links()[j].path@,
                    )) && (forall|i: int|
                    0 <= i < self.spec_chunk_links().len()
                        && (#[trigger] self.spec_chunk_links()[i]).path@
                        == self.spec_chunk_links()[j].path@
                        ==> self.spec_chunk_links()[i].timestamp
                        <= self.spec_chunk_links()[j].timestamp)),
    {
        broadcast use vstd::prelude::Seq::lemma_filter_pred;
        broadcast use vstd::prelude::Seq::lemma_filter_contains;
        broadcast use vstd::prelude::Seq::lemma_filter_contains_rev;

        let cfgv = self.config();
        let levels = cfgv.index_depth();
        let mut current: Vec<PathComp> = Vec::new();
        let mut lvl: usize = 0;
        while lvl < levels.len()
            invariant
                self.wf(),
                cfgv == self.cfg(),
                lvl <= levels@.len(),
                levels@.len() == self.cfg().spec_depth(),
                forall|i: int|
                    0 <= i < levels@.len() ==> levels@[i] == crate::config::level_at(i),
                current@.len() == lvl,
                lvl > 0 ==> self.spec_paths().contains(current@),
                lvl > 0 ==> (forall|qi: int|
                    0 <= qi < self.spec_paths().len() && (#[trigger] self.spec_paths()[qi]).len()
                        == lvl ==> path_le(self.spec_paths()[qi], current@)),
            decreases levels@.len() - lvl,
        {
            proof {
                // Every materialized position names a level this
                // configuration has: the finer levels imply the coarser
                // ones, so a depth beyond a position forces that position's
                // level to be materialized.
                let li = lvl as int;
                let cfg = self.cfg();
                assert(li < cfg.spec_depth());
                assert(cfg.spec_has_second() ==> cfg.spec_has_minute());
                assert(cfg.spec_has_minute() ==> cfg.spec_has_hour());
                if li >= 3 {
                    assert(cfg.spec_has_hour());
                }
                if li >= 4 {
                    assert(cfg.spec_has_minute());
                }
                if li >= 5 {
                    assert(cfg.spec_has_second());
                }
                assert(levels@[li] == crate::config::level_at(li));
                assert(crate::config::level_index(levels@[li]) == li);
                assert(cfg.spec_has_level(levels@[li]));
            }
            match self.find_newest_child(&current, levels[lvl]) {
                Ok(next) => {
                    proof {
                        let kids = child_nodes(self.spec_paths(), current@);
                        assert(kids.contains(next@));
                        let idx = choose|idx: int| 0 <= idx < kids.len() && kids[idx] == next@;
                        self.spec_paths().lemma_filter_pred(
                            |q: Seq<PathComp>| path_extends(q, current@),
                            idx,
                        );
                        assert(path_extends(kids[idx], current@));
                        self.spec_paths().lemma_filter_contains_rev(
                            |q: Seq<PathComp>| path_extends(q, current@),
                            next@,
                        );
                        assert(self.spec_paths().contains(next@));
                        // Every stored node of the new length is no newer
                        // than the child just chosen.
                        let ps = self.spec_paths();
                        let nx = next@;
                        let w2 = choose|w2: int| 0 <= w2 < ps.len() && ps[w2] == nx;
                        assert(wf_path(self.cfg(), ps[w2]));
                        assert forall|qi: int|
                            0 <= qi < ps.len() && (#[trigger] ps[qi]).len() == lvl
                                + 1 implies path_le(ps[qi], nx) by {
                            let q = ps[qi];
                            let qa = q.take(lvl as int);
                            if lvl == 0 {
                                assert(qa =~= current@);
                            } else {
                                assert(ps.contains(qa));
                            }
                            if qa == current@ {
                                assert(path_extends(q, current@));
                                ps.lemma_filter_contains(
                                    (|t: Seq<PathComp>| path_extends(t, current@)),
                                    qi,
                                );
                                assert(kids.contains(q));
                                assert(q[lvl as int].spec_value() <= nx[lvl as int].spec_value());
                                if q[lvl as int].spec_value() < nx[lvl as int].spec_value() {
                                    assert forall|j: int| 0 <= j < lvl implies q[j].spec_value()
                                        == nx[j].spec_value() by {
                                        assert(q[j] == current@[j]);
                                        assert(nx[j] == current@[j]);
                                    }
                                    assert(path_le(q, nx));
                                } else {
                                    assert(wf_path(self.cfg(), q));
                                    assert(q[lvl as int].matches_level(
                                        crate::config::level_at(lvl as int),
                                    ));
                                    assert(nx[lvl as int].matches_level(
                                        crate::config::level_at(lvl as int),
                                    ));
                                    assert(q[lvl as int] == nx[lvl as int]);
                                    assert forall|j: int| 0 <= j < lvl implies q[j] == nx[j] by {
                                        assert(q[j] == current@[j]);
                                        assert(nx[j] == current@[j]);
                                    }
                                    assert(q =~= nx);
                                }
                            } else {
                                assert(path_le(qa, current@));
                                let fi = choose|fi: int|
                                    0 <= fi < qa.len() && fi < current@.len() && (#[trigger] qa[fi]).spec_value()
                                        < current@[fi].spec_value() && (forall|j: int|
                                        0 <= j < fi ==> qa[j].spec_value()
                                            == current@[j].spec_value());
                                assert(q[fi] == qa[fi]);
                                assert(nx[fi] == current@[fi]);
                                assert(q[fi].spec_value() < nx[fi].spec_value());
                                assert forall|j: int| 0 <= j < fi implies q[j].spec_value()
                                    == nx[j].spec_value() by {
                                    assert(q[j] == qa[j]);
                                    assert(nx[j] == current@[j]);
                                }
                                assert(path_le(q, nx));
                            }
                        }
                    }
                    current = next;
                    lvl += 1;
                },
                Err(_) => {
                    proof {
                        let ps = self.spec_paths();
                        let kids = child_nodes(ps, current@);
                        assert(kids.len() == 0);
                        if lvl > 0 {
                            // A stored interior node always has a child.
                            let j = choose|j: int|
                                0 <= j < ps.len() && ps[j] == current@;
                            assert(ps[j].len() < self.cfg().spec_depth());
                            let w = choose|w: int|
                                0 <= w < ps.len() && #[trigger] path_extends(ps[w], ps[j]);
                            assert(kids.contains(ps[w]));
                            assert(false);
                        } else {
                            // An empty root means an empty tree, and chunks
                            // cannot exist without their leaf edges.
                            if ps.len() > 0 {
                                assert(wf_path(self.cfg(), ps[0]));
                                let q = ps[0];
                                let q1 = if q.len() == 1 {
                                    q
                                } else {
                                    q.take(1)
                                };
                                assert(ps.contains(q1));
                                assert(current@ =~= q1.take(0));
                                assert(path_extends(q1, current@));
                                let w = choose|w: int| 0 <= w < ps.len() && ps[w] == q1;
                                assert(kids.contains(ps[w]));
                                assert(false);
                            }
                            assert(self.spec_chunks().len() == 0);
                        }
                    }
                    return None;
                },
            }
        }
        proof {
            // The leaf we reached carries at least one chunk edge.
            let ps = self.spec_paths();
            let links = self.spec_chunk_links();
            let j = choose|j: int| 0 <= j < ps.len() && ps[j] == current@;
            assert(ps[j].len() == self.cfg().spec_depth());
            let w = choose|w: int|
                0 <= w < links.len() && (#[trigger] links[w]).path@ == ps[j];
            assert(links[w].path@ == current@);
        }
        match self.latest_link_at(&current) {
            Some((c, t)) => {
                proof {
                    let links = self.spec_chunk_links();
                    let ps = self.spec_paths();
                    let j = choose|j: int|
                        0 <= j < links.len() && (#[trigger] links[j]).path@ == current@
                            && links[j].chunk == c && links[j].timestamp == t;
                    assert(self.spec_chunks().contains(links[j].chunk));
                    // Every chunk edge's leaf is no newer than the leaf the
                    // descent reached.
                    assert forall|i: int| 0 <= i < links.len() implies path_le(
                        (#[trigger] links[i]).path@,
                        links[j].path@,
                    ) by {
                        assert(ps.contains(links[i].path@));
                        let w = choose|w: int| 0 <= w < ps.len() && ps[w] == links[i].path@;
                        assert(ps[w].len() == self.cfg().spec_depth());
                        assert(path_le(ps[w], current@));
                    }
                }
                Some(c)
            },
            None => {
                proof {
                    assert(false);
                }
                None
            },
        }
    }

    /// Points the genesis anchor at a chunk; everything else is untouched.
    pub(crate) fn set_genesis(&mut self, c: TimeChunk)
        ensures
            final(self).spec_genesis() == Some(c),
            final(self).cfg() == old(self).cfg(),
            final(self).spec_paths() == old(self).spec_paths(),
            final(self).spec_chunk_links() == old(self).spec_chunk_links(),
            final(self).spec_chunks() == old(self).spec_chunks(),
            final(self).spec_edges() == old(self).spec_edges(),
    {
        self.genesis = Some(c);
    }
}

} // verus!
