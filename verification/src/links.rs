use vstd::prelude::*;

use crate::chunk::TimeChunk;
use crate::errors::IndexError;
use crate::store::{author_edges, edge_seq_wf, EdgeKind, LinkEdge, Store};

verus! {

broadcast use
    vstd::prelude::Seq::lemma_filter_push,
    vstd::prelude::Seq::lemma_take_succ_push,
    vstd::prelude::Seq::lemma_push_map_commute,
    vstd::prelude::Seq::lemma_filter_pred,
    vstd::prelude::Seq::lemma_filter_contains,
    vstd::prelude::Seq::lemma_filter_contains_rev,
    vstd::seq_lib::lemma_seq_contains_after_push;

/// The direct edges on a chunk, every author together, oldest first.
pub open spec fn direct_edges(edges: Seq<LinkEdge>, c: TimeChunk) -> Seq<LinkEdge> {
    edges.filter(|e: LinkEdge| e.chunk == c && e.kind is Direct)
}

/// The targets of the direct edges on a chunk, oldest first.
pub open spec fn direct_targets(edges: Seq<LinkEdge>, c: TimeChunk) -> Seq<u64> {
    direct_edges(edges, c).map_values(|e: LinkEdge| e.target)
}

/// One author's overflow-chain edges on a chunk, in chain order.
pub open spec fn chain_edges(edges: Seq<LinkEdge>, c: TimeChunk, a: u64) -> Seq<LinkEdge> {
    edges.filter(|e: LinkEdge| e.chunk == c && e.author == a && e.kind is Chain)
}

/// The targets along one author's overflow chain, in chain order.
pub open spec fn chain_targets(edges: Seq<LinkEdge>, c: TimeChunk, a: u64) -> Seq<u64> {
    chain_edges(edges, c, a).map_values(|e: LinkEdge| e.target)
}

/// The authors of the overflow-chain edges on a chunk, oldest first, with
/// repeats.
pub open spec fn chain_author_log(edges: Seq<LinkEdge>, c: TimeChunk) -> Seq<u64> {
    edges.filter(|e: LinkEdge| e.chunk == c && e.kind is Chain).map_values(
        |e: LinkEdge| e.author,
    )
}

/// First-occurrence deduplication, keeping order.
pub open spec fn dedup(s: Seq<u64>) -> Seq<u64>
    decreases s.len(),
{
    if s.len() == 0 {
        Seq::empty()
    } else {
        let d = dedup(s.drop_last());
        if d.contains(s.last()) {
            d
        } else {
            d.push(s.last())
        }
    }
}

/// The chains of the given authors laid out one after the other.
pub open spec fn chains_concat(edges: Seq<LinkEdge>, c: TimeChunk, authors: Seq<u64>) -> Seq<u64>
    decreases authors.len(),
{
    if authors.len() == 0 {
        Seq::empty()
    } else {
        chains_concat(edges, c, authors.drop_last()) + chain_targets(edges, c, authors.last())
    }
}

/// Everything hanging off a chunk: the direct targets in creation order,
/// then, author by author in the order each author first overflowed, the
/// targets along that author's chain.
pub open spec fn collected_targets(edges: Seq<LinkEdge>, c: TimeChunk) -> Seq<u64> {
    direct_targets(edges, c) + chains_concat(edges, c, dedup(chain_author_log(edges, c)))
}

/// What a link collection returns: the deduplicated, order-preserving union
/// of a chunk's direct and chained targets, truncated at `limit`.
pub open spec fn spec_get_links(edges: Seq<LinkEdge>, c: TimeChunk, limit: int) -> Seq<u64> {
    let d = dedup(collected_targets(edges, c));
    if d.len() <= limit {
        d
    } else {
        d.take(limit)
    }
}

/// The result of deduplication holds no element twice.
pub proof fn lemma_dedup_no_dup(s: Seq<u64>)
    ensures
        forall|i: int, j: int| 0 <= i < j < dedup(s).len() ==> dedup(s)[i] != dedup(s)[j],
    decreases s.len(),
{
    if s.len() > 0 {
        lemma_dedup_no_dup(s.drop_last());
        let d = dedup(s.drop_last());
        if !d.contains(s.last()) {
            assert forall|i: int, j: int| 0 <= i < j < dedup(s).len() implies dedup(s)[i]
                != dedup(s)[j] by {
                if j == d.len() {
                    if dedup(s)[i] == s.last() {
                        assert(d[i] == s.last());
                        assert(d.contains(s.last()));
                    }
                }
            }
        }
    }
}

/// Deduplication keeps exactly the elements of its input.
pub proof fn lemma_dedup_contains(s: Seq<u64>, x: u64)
    ensures
        dedup(s).contains(x) <==> s.contains(x),
    decreases s.len(),
{
    if s.len() > 0 {
        lemma_dedup_contains(s.drop_last(), x);
        assert(s.drop_last().push(s.last()) =~= s);
        let d = dedup(s.drop_last());
        if s.contains(x) {
            if s.last() == x {
                if !d.contains(x) {
                    assert(dedup(s)[d.len() as int] == x);
                }
            }
        }
        if dedup(s).contains(x) {
            if !d.contains(x) {
                let i = choose|i: int| 0 <= i < dedup(s).len() && dedup(s)[i] == x;
                if i < d.len() {
                    assert(d[i] == x);
                } else {
                    assert(x == s.last());
                }
            }
        }
    }
}

/// An element sits in the concatenated chains exactly when it sits in the
/// chain of one of the listed authors.
pub proof fn lemma_chains_concat_mem(edges: Seq<LinkEdge>, c: TimeChunk, authors: Seq<u64>, t: u64)
    ensures
        chains_concat(edges, c, authors).contains(t) <==> (exists|k: int|
            0 <= k < authors.len() && chain_targets(edges, c, #[trigger] authors[k]).contains(t)),
    decreases authors.len(),
{
    if authors.len() > 0 {
        let rest = authors.drop_last();
        lemma_chains_concat_mem(edges, c, rest, t);
        let left = chains_concat(edges, c, rest);
        let right = chain_targets(edges, c, authors.last());
        if chains_concat(edges, c, authors).contains(t) {
            let i = choose|i: int|
                0 <= i < (left + right).len() && (left + right)[i] == t;
            if i < left.len() {
                assert(left[i] == t);
                assert(left.contains(t));
                let k = choose|k: int|
                    0 <= k < rest.len() && chain_targets(edges, c, #[trigger] rest[k]).contains(t);
                assert(authors[k] == rest[k]);
            } else {
                assert(right[i - left.len()] == t);
                assert(right.contains(t));
                assert(authors[authors.len() - 1] == authors.last());
            }
        }
        if exists|k: int|
            0 <= k < authors.len() && chain_targets(edges, c, #[trigger] authors[k]).contains(t) {
            let k = choose|k: int|
                0 <= k < authors.len() && chain_targets(edges, c, #[trigger] authors[k]).contains(
                    t,
                );
            if k < rest.len() {
                assert(rest[k] == authors[k]);
                assert(left.contains(t));
                let i = choose|i: int| 0 <= i < left.len() && left[i] == t;
                assert((left + right)[i] == t);
            } else {
                assert(authors[k] == authors.last());
                let i = choose|i: int| 0 <= i < right.len() && right[i] == t;
                assert((left + right)[left.len() + i] == t);
            }
        }
    }
}

/// The direct targets on a chunk that carry `tag` (or all of them, when no
/// tag is asked for), oldest first.
pub open spec fn spec_direct_tagged(edges: Seq<LinkEdge>, c: TimeChunk, tag: Option<u64>) -> Seq<
    u64,
> {
    edges.filter(
        |e: LinkEdge| e.chunk == c && e.kind is Direct && (tag is Some ==> e.tag == tag->0),
    ).map_values(|e: LinkEdge| e.target)
}

/// Fetches the direct links off a chunk, optionally only those under one
/// tag — the plain single fetch that the common read path uses.
pub fn direct_links(store: &Store, chunk: &TimeChunk, tag: Option<u64>) -> (r: Vec<u64>)
    ensures
        r@ == spec_direct_tagged(store.spec_edges(), *chunk, tag),
{
    let ghost c = *chunk;
    let edges = store.edge_log();
    let ghost all = edges@;
    let mut out: Vec<u64> = Vec::new();
    let mut i: usize = 0;
    proof {
        assert(all.take(0) =~= Seq::<LinkEdge>::empty());
        assert(spec_direct_tagged(all.take(0), c, tag) =~= Seq::<u64>::empty());
    }
    while i < edges.len()
        invariant
            i <= all.len(),
            edges@ == all,
            c == *chunk,
            out@ == spec_direct_tagged(all.take(i as int), c, tag),
        decreases all.len() - i,
    {
        let e = &edges[i];
        proof {
            assert(all.take(i + 1) =~= all.take(i as int).push(all[i as int]));
        }
        let is_direct = match e.kind {
            EdgeKind::Direct => true,
            EdgeKind::Chain(_) => false,
        };
        let tag_matches = match tag {
            Some(t) => e.tag == t,
            None => true,
        };
        if e.chunk == *chunk && is_direct && tag_matches {
            out.push(e.target);
        }
        i += 1;
    }
    proof {
        assert(all.take(all.len() as int) =~= all);
    }
    out
}

/// Law: one author's links on one chunk keep the degree-limited shape — at
/// most the spam limit in total, direct exactly while the direct budget
/// lasts, and every later link chained off the link made just before it.
pub proof fn lemma_author_links_shape(s: Store, c: TimeChunk, a: u64)
    requires
        s.wf(),
    ensures
        ({
            let es = author_edges(s.spec_edges(), c, a);
            let cfg = s.cfg();
            &&& es.len() <= cfg.enforce_spam_limit
            &&& forall|i: int|
                0 <= i < es.len() ==> ((#[trigger] es[i]).kind is Direct <==> i
                    < cfg.direct_chunk_link_limit)
            &&& forall|i: int|
                cfg.direct_chunk_link_limit <= i < es.len() ==> (#[trigger] es[i]).kind
                    == EdgeKind::Chain(es[i - 1].target)
        }),
{
    assert(edge_seq_wf(s.cfg(), author_edges(s.spec_edges(), c, a)));
}

/// Whether `x` already sits in `v`.
fn vec_contains(v: &Vec<u64>, x: u64) -> (r: bool)
    ensures
        r <==> v@.contains(x),
{
    let mut i: usize = 0;
    while i < v.len()
        invariant
            i <= v@.len(),
            forall|j: int| 0 <= j < i ==> v@[j] != x,
        decreases v@.len() - i,
    {
        if v[i] == x {
            return true;
        }
        i += 1;
    }
    proof {
        if v@.contains(x) {
            let j = choose|j: int| 0 <= j < v@.len() && v@[j] == x;
            assert(v@[j] != x);
        }
    }
    false
}

impl TimeChunk {
    /// Attaches `target` under this chunk for `author`. While the author's
    /// direct budget lasts the edge lands straight on the chunk; after that
    /// it is chained off the author's most recent link, the deterministic
    /// tail any validator reconstructs from the edge log alone; once the
    /// author's total on this chunk reaches the spam limit the attachment is
    /// rejected and nothing is written.
    pub fn add_link(&self, store: &mut Store, target: u64, tag: u64, author: u64) -> (r: Result<
        (),
        IndexError,
    >)
        requires
            old(store).wf(),
        ensures
            final(store).wf(),
            final(store).cfg() == old(store).cfg(),
            final(store).spec_paths() == old(store).spec_paths(),
            final(store).spec_chunk_links() == old(store).spec_chunk_links(),
            final(store).spec_chunks() == old(store).spec_chunks(),
            final(store).spec_genesis() == old(store).spec_genesis(),
            ({
                let es = author_edges(old(store).spec_edges(), *self, author);
                let cfg = old(store).cfg();
                &&& (r is Ok <==> es.len() < cfg.enforce_spam_limit)
                &&& (r is Err ==> r->Err_0 == IndexError::Validation && final(store).spec_edges()
                    == old(store).spec_edges())
                &&& (r is Ok ==> final(store).spec_edges() == old(store).spec_edges().push(
                    LinkEdge {
                        chunk: *self,
                        author,
                        target,
                        tag,
                        kind: if es.len() < cfg.direct_chunk_link_limit {
                            EdgeKind::Direct
                        } else {
                            EdgeKind::Chain(es.last().target)
                        },
                    },
                ))
            }),
    {
        let cfg = store.config();
        let ghost c = *self;
        let ghost oldedges = store.spec_edges();
        let edges = store.edge_log();
        let mut n: usize = 0;
        let mut last: Option<u64> = None;
        let mut i: usize = 0;
        proof {
            assert(oldedges.take(0) =~= Seq::<LinkEdge>::empty());
            assert(author_edges(oldedges.take(0), c, author).len() == 0);
        }
        while i < edges.len()
            invariant
                i <= oldedges.len(),
                edges@ == oldedges,
                c == *self,
                n <= i,
                n == author_edges(oldedges.take(i as int), c, author).len(),
                (n == 0 <==> last is None),
                n > 0 ==> last == Some(
                    author_edges(oldedges.take(i as int), c, author).last().target,
                ),
            decreases oldedges.len() - i,
        {
            let e = &edges[i];
            proof {
                assert(oldedges.take(i + 1) =~= oldedges.take(i as int).push(
                    oldedges[i as int],
                ));
            }
            if e.chunk == *self && e.author == author {
                n += 1;
                last = Some(e.target);
            }
            i += 1;
        }
        proof {
            assert(oldedges.take(oldedges.len() as int) =~= oldedges);
        }
        let ghost es = author_edges(oldedges, c, author);
        if n >= cfg.enforce_spam_limit {
            return Err(IndexError::Validation);
        }
        let kind = if n < cfg.direct_chunk_link_limit {
            EdgeKind::Direct
        } else {
            match last {
                Some(t) => EdgeKind::Chain(t),
                None => {
                    proof {
                        assert(false);
                    }
                    EdgeKind::Direct
                },
            }
        };
        let e = LinkEdge { chunk: *self, author, target, tag, kind };
        store.push_edge(e);
        proof {
            let newe = store.spec_edges();
            assert(newe == oldedges.push(e));
            assert forall|c2: TimeChunk, a2: u64| edge_seq_wf(
                cfg,
                #[trigger] author_edges(newe, c2, a2),
            ) by {
                assert(edge_seq_wf(cfg, author_edges(oldedges, c2, a2)));
                if c2 == c && a2 == author {
                    let ns = author_edges(newe, c2, a2);
                    assert(ns == es.push(e));
                    assert forall|i2: int|
                        0 <= i2 < ns.len() implies ((#[trigger] ns[i2]).kind is Direct <==> i2
                        < cfg.direct_chunk_link_limit) by {
                        if i2 < es.len() {
                            assert(ns[i2] == es[i2]);
                        } else {
                            assert(ns[i2] == e);
                        }
                    }
                    assert forall|i2: int|
                        cfg.direct_chunk_link_limit <= i2 < ns.len() implies (#[trigger] ns[i2]).kind
                        == EdgeKind::Chain(ns[i2 - 1].target) by {
                        if i2 < es.len() {
                            assert(ns[i2] == es[i2]);
                            assert(ns[i2 - 1] == es[i2 - 1]);
                        } else {
                            assert(ns[i2] == e);
                            assert(ns[i2 - 1] == es[es.len() - 1]);
                        }
                    }
                } else {
                    assert(author_edges(newe, c2, a2) == author_edges(oldedges, c2, a2));
                }
            }
        }
        Ok(())
    }

    /// Collects the targets hanging off this chunk: every direct edge's
    /// target in creation order, then each overflowing author's chain in the
    /// order the authors first overflowed; duplicates are dropped and at
    /// most `limit` targets come back.
    pub fn get_links(&self, store: &Store, limit: u32) -> (r: Vec<u64>)
        ensures
            r@ == spec_get_links(store.spec_edges(), *self, limit as int),
    {
        let ghost c = *self;
        let edges = store.edge_log();
        let ghost all = edges@;
        // The direct targets, oldest first.
        let mut direct: Vec<u64> = Vec::new();
        let mut i: usize = 0;
        proof {
            assert(all.take(0) =~= Seq::<LinkEdge>::empty());
            assert(direct_targets(all.take(0), c) =~= Seq::<u64>::empty());
        }
        while i < edges.len()
            invariant
                i <= all.len(),
                edges@ == all,
                c == *self,
                direct@ == direct_targets(all.take(i as int), c),
            decreases all.len() - i,
        {
            let e = &edges[i];
            proof {
                assert(all.take(i + 1) =~= all.take(i as int).push(all[i as int]));
            }
            let is_direct = match e.kind {
                EdgeKind::Direct => true,
                EdgeKind::Chain(_) => false,
            };
            if e.chunk == *self && is_direct {
                direct.push(e.target);
            }
            i += 1;
        }
        // The authors that overflowed, in the order they first overflowed.
        let mut authors: Vec<u64> = Vec::new();
        let mut j: usize = 0;
        proof {
            assert(all.take(0) =~= Seq::<LinkEdge>::empty());
            assert(chain_author_log(all.take(0), c) =~= Seq::<u64>::empty());
        }
        while j < edges.len()
            invariant
                j <= all.len(),
                edges@ == all,
                c == *self,
                authors@ == dedup(chain_author_log(all.take(j as int), c)),
            decreases all.len() - j,
        {
            let e = &edges[j];
            proof {
                assert(all.take(j + 1) =~= all.take(j as int).push(all[j as int]));
            }
            let is_chain = match e.kind {
                EdgeKind::Chain(_) => true,
                EdgeKind::Direct => false,
            };
            if e.chunk == *self && is_chain {
                proof {
                    let log1 = chain_author_log(all.take(j as int), c);
                    assert(chain_author_log(all.take(j + 1), c) =~= log1.push(
                        all[j as int].author,
                    ));
                    assert(log1.push(all[j as int].author).drop_last() =~= log1);
                }
                if !vec_contains(&authors, e.author) {
                    authors.push(e.author);
                }
            }
            j += 1;
        }
        proof {
            assert(all.take(all.len() as int) =~= all);
        }
        // Each author's chain, author by author.
        let mut chains: Vec<u64> = Vec::new();
        let ghost aseq = authors@;
        let mut k: usize = 0;
        while k < authors.len()
            invariant
                k <= aseq.len(),
                authors@ == aseq,
                edges@ == all,
                c == *self,
                chains@ == chains_concat(all, c, aseq.take(k as int)),
            decreases aseq.len() - k,
        {
            let a = authors[k];
            let mut m: usize = 0;
            proof {
                assert(all.take(0) =~= Seq::<LinkEdge>::empty());
                assert(chain_targets(all.take(0), c, a) =~= Seq::<u64>::empty());
                assert(chains@ + chain_targets(all.take(0), c, a) =~= chains@);
            }
            while m < edges.len()
                invariant
                    m <= all.len(),
                    edges@ == all,
                    c == *self,
                    k < aseq.len(),
                    a == aseq[k as int],
                    chains@ == chains_concat(all, c, aseq.take(k as int)) + chain_targets(
                        all.take(m as int),
                        c,
                        a,
                    ),
                decreases all.len() - m,
            {
                let e = &edges[m];
                proof {
                    assert(all.take(m + 1) =~= all.take(m as int).push(all[m as int]));
                    if all[m as int].chunk == c && all[m as int].author == a && all[m as int].kind
                        is Chain {
                        assert(chains@ + chain_targets(all.take(m + 1), c, a) =~= (chains@
                            + chain_targets(all.take(m as int), c, a)).push(
                            all[m as int].target,
                        ));
                    } else {
                        assert(chain_targets(all.take(m + 1), c, a) =~= chain_targets(
                            all.take(m as int),
                            c,
                            a,
                        ));
                    }
                }
                let is_chain = match e.kind {
                    EdgeKind::Chain(_) => true,
                    EdgeKind::Direct => false,
                };
                if e.chunk == *self && e.author == a && is_chain {
                    chains.push(e.target);
                }
                m += 1;
            }
            proof {
                assert(all.take(all.len() as int) =~= all);
                assert(aseq.take(k + 1).drop_last() =~= aseq.take(k as int));
                assert(aseq.take(k + 1).last() == aseq[k as int]);
            }
            k += 1;
        }
        proof {
            assert(aseq.take(aseq.len() as int) =~= aseq);
        }
        // Lay the chains after the direct targets.
        let ghost dseq = direct@;
        let ghost cseq = chains@;
        let mut full: Vec<u64> = direct;
        let mut q: usize = 0;
        proof {
            assert(dseq + cseq.take(0) =~= dseq);
        }
        while q < chains.len()
            invariant
                q <= cseq.len(),
                chains@ == cseq,
                full@ == dseq + cseq.take(q as int),
            decreases cseq.len() - q,
        {
            proof {
                assert(dseq + cseq.take(q + 1) =~= (dseq + cseq.take(q as int)).push(
                    cseq[q as int],
                ));
            }
            full.push(chains[q]);
            q += 1;
        }
        proof {
            assert(cseq.take(cseq.len() as int) =~= cseq);
        }
        let ghost col = collected_targets(all, c);
        proof {
            assert(full@ == col);
            assert(col.take(0) =~= Seq::<u64>::empty());
        }
        // Deduplicate in order and stop at the limit.
        let mut out: Vec<u64> = Vec::new();
        let mut p: usize = 0;
        while p < full.len()
            invariant
                p <= col.len(),
                full@ == col,
                out@ == ({
                    let d = dedup(col.take(p as int));
                    if d.len() <= limit as int {
                        d
                    } else {
                        d.take(limit as int)
                    }
                }),
                out@.len() <= limit as int,
                out@.len() <= dedup(col.take(p as int)).len(),
            decreases col.len() - p,
        {
            let t = full[p];
            proof {
                assert(col.take(p + 1).drop_last() =~= col.take(p as int));
                assert(col.take(p + 1).last() == col[p as int]);
            }
            let ghost d = dedup(col.take(p as int));
            let ghost d2 = dedup(col.take(p + 1));
            if (out.len() as u64) < (limit as u64) {
                proof {
                    assert(out@ == d);
                }
                if !vec_contains(&out, t) {
                    out.push(t);
                    proof {
                        assert(d2 == d.push(t));
                    }
                } else {
                    proof {
                        assert(d2 == d);
                    }
                }
            } else {
                proof {
                    assert(out@.len() == limit as int);
                    assert(d.len() >= limit as int);
                    if !d.contains(col[p as int]) {
                        assert(d2 == d.push(col[p as int]));
                        assert(d2.take(limit as int) =~= d.take(limit as int));
                    } else {
                        assert(d2 == d);
                    }
                    if d.len() == limit as int {
                        assert(d.take(limit as int) =~= d);
                    }
                }
            }
            p += 1;
        }
        proof {
            assert(col.take(col.len() as int) =~= col);
        }
        out
    }
}

/// Law: collecting a chunk's links reaches every target of every edge on
/// the chunk — direct or chained, whoever the author — exactly once.
pub proof fn lemma_collection_complete(edges: Seq<LinkEdge>, c: TimeChunk)
    ensures
        forall|t: u64|
            dedup(collected_targets(edges, c)).contains(t) <==> (exists|i: int|
                0 <= i < edges.len() && (#[trigger] edges[i]).chunk == c && edges[i].target == t),
        forall|i: int, j: int|
            0 <= i < j < dedup(collected_targets(edges, c)).len() ==> dedup(
                collected_targets(edges, c),
            )[i] != dedup(collected_targets(edges, c))[j],
{
    let col = collected_targets(edges, c);
    let directs = direct_targets(edges, c);
    let authors = dedup(chain_author_log(edges, c));
    let chains = chains_concat(edges, c, authors);
    lemma_dedup_no_dup(col);
    assert forall|t: u64| dedup(col).contains(t) <==> (exists|i: int|
        0 <= i < edges.len() && (#[trigger] edges[i]).chunk == c && edges[i].target == t) by {
        lemma_dedup_contains(col, t);
        lemma_chains_concat_mem(edges, c, authors, t);
        if col.contains(t) {
            let i = choose|i: int| 0 <= i < col.len() && col[i] == t;
            if i < directs.len() {
                assert(directs[i] == t);
                let e = direct_edges(edges, c)[i];
                assert(edges.filter(|e: LinkEdge| e.chunk == c && e.kind is Direct).contains(e));
                let w = choose|w: int| 0 <= w < edges.len() && edges[w] == e;
                assert(edges[w].chunk == c && edges[w].target == t);
            } else {
                assert(chains[i - directs.len()] == t);
                assert(chains.contains(t));
                let k = choose|k: int|
                    0 <= k < authors.len() && chain_targets(edges, c, #[trigger] authors[k])
                        .contains(t);
                let a = authors[k];
                let ts = chain_targets(edges, c, a);
                let j = choose|j: int| 0 <= j < ts.len() && ts[j] == t;
                let e = chain_edges(edges, c, a)[j];
                assert(edges.filter(
                    |e: LinkEdge| e.chunk == c && e.author == a && e.kind is Chain,
                ).contains(e));
                let w = choose|w: int| 0 <= w < edges.len() && edges[w] == e;
                assert(edges[w].chunk == c && edges[w].target == t);
            }
        }
        if exists|i: int|
            0 <= i < edges.len() && (#[trigger] edges[i]).chunk == c && edges[i].target == t {
            let i = choose|i: int|
                0 <= i < edges.len() && (#[trigger] edges[i]).chunk == c && edges[i].target == t;
            let e = edges[i];
            if e.kind is Direct {
                assert(direct_edges(edges, c).contains(e));
                let w = choose|w: int|
                    0 <= w < direct_edges(edges, c).len() && direct_edges(edges, c)[w] == e;
                assert(directs[w] == t);
                assert(directs.contains(t));
                let v = choose|v: int| 0 <= v < directs.len() && directs[v] == t;
                assert(col[v] == t);
            } else {
                let a = e.author;
                assert(chain_edges(edges, c, a).contains(e));
                let w = choose|w: int|
                    0 <= w < chain_edges(edges, c, a).len() && chain_edges(edges, c, a)[w] == e;
                assert(chain_targets(edges, c, a)[w] == t);
                assert(chain_targets(edges, c, a).contains(t));
                let clog = edges.filter(|e: LinkEdge| e.chunk == c && e.kind is Chain);
                assert(clog.contains(e));
                let u = choose|u: int| 0 <= u < clog.len() && clog[u] == e;
                assert(chain_author_log(edges, c)[u] == a);
                assert(chain_author_log(edges, c).contains(a));
                lemma_dedup_contains(chain_author_log(edges, c), a);
                assert(authors.contains(a));
                let k = choose|k: int| 0 <= k < authors.len() && authors[k] == a;
                assert(chain_targets(edges, c, authors[k]).contains(t));
                assert(chains.contains(t));
                let v = choose|v: int| 0 <= v < chains.len() && chains[v] == t;
                assert(col[directs.len() + v] == t);
            }
        }
    }
}

} // verus!
