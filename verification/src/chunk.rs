use vstd::prelude::*;

use crate::civil::MAX_INDEXABLE_MS;
use crate::config::Config;
use crate::errors::IndexError;
use crate::store::{ChunkLink, Store};
use crate::tree::{
    path_for_timestamp, path_in_bounds, prefix_ts, spec_path_for_timestamp, spec_path_ts, wf_path,
    PathComp,
};

verus! {

broadcast use
    vstd::seq_lib::lemma_seq_contains_after_push,
    vstd::prelude::Seq::lemma_filter_push,
    vstd::prelude::Seq::lemma_take_succ_push,
    vstd::prelude::Seq::lemma_push_map_commute,
    vstd::prelude::Seq::lemma_filter_len;

/// An immutable, time-bounded bucket that link targets attach to.
///
/// A chunk is content-addressed: its identity is exactly its pair of bounds,
/// so two authors committing the same window produce one logical entry.
#[derive(Clone, Copy, Debug, PartialEq, Eq, Structural)]
pub struct TimeChunk {
    /// First millisecond the chunk covers (inclusive).
    pub from: u64,
    /// First millisecond after the chunk (exclusive).
    pub until: u64,
}

/// Whether `c` spans exactly one configured interval.
pub open spec fn width_ok(cfg: Config, c: TimeChunk) -> bool {
    c.until == c.from + cfg.max_chunk_interval
}

/// Whether `c` sits a whole number of intervals at or after the genesis
/// chunk `g`.
pub open spec fn aligned_to(c: TimeChunk, g: TimeChunk, interval: u64) -> bool {
    c.from >= g.from && (c.from - g.from) % (interval as int) == 0
}

/// Every creation rule for a chunk, as one deterministic predicate over the
/// visible data: the chunk must not start in the future, must span exactly
/// one interval, and — unless it is the genesis chunk itself — must sit on
/// the grid anchored at the genesis chunk, which must exist. A genesis
/// commit with an anchor already present is admitted only for the chunk the
/// anchor already names, which makes re-commits harmless.
pub open spec fn chunk_valid(s: Store, c: TimeChunk, is_genesis: bool, now: u64) -> bool {
    &&& c.from <= now
    &&& width_ok(s.cfg(), c)
    &&& if is_genesis {
        s.spec_genesis() is Some ==> s.spec_genesis()->0 == c
    } else {
        s.spec_genesis() is Some && aligned_to(c, s.spec_genesis()->0, s.cfg().max_chunk_interval)
    }
}

/// Whether the leaf node `p` survives a top-down walk for the window
/// `[from, until]`: at every materialized level, the period `p` passes
/// through starts no earlier than `from`'s period and no later than
/// `until`'s period at that level.
pub open spec fn leaf_qualifies(cfg: Config, p: Seq<PathComp>, from: int, until: int) -> bool {
    forall|k: int|
        1 <= k <= cfg.spec_depth() ==> spec_path_ts(spec_path_for_timestamp(cfg, from), k)
            <= #[trigger] spec_path_ts(p, k) && spec_path_ts(p, k) <= spec_path_ts(
            spec_path_for_timestamp(cfg, until),
            k,
        )
}

/// Every chunk hanging off a leaf that a walk for `[from, until]` visits,
/// in storage order.
pub open spec fn spec_span_chunks(
    links: Seq<ChunkLink>,
    cfg: Config,
    from: int,
    until: int,
) -> Seq<TimeChunk> {
    links.filter(|l: ChunkLink| leaf_qualifies(cfg, l.path@, from, until)).map_values(
        |l: ChunkLink| l.chunk,
    )
}

impl TimeChunk {
    /// The content address of the chunk: nothing but its bounds, so identical
    /// bounds always collide into the same entry.
    pub fn hash(&self) -> (r: (u64, u64))
        ensures
            r == (self.from, self.until),
    {
        (self.from, self.until)
    }

    /// Validates and commits this chunk: stores the entry, guarantees its
    /// time path and hangs the chunk off it, and, for a genesis commit,
    /// points the anchor at it. Succeeds exactly on the inputs
    /// [`chunk_valid`] admits; a failed validation leaves the store
    /// untouched, and re-committing an already committed chunk is a no-op.
    pub fn create_chunk(&self, store: &mut Store, is_genesis: bool, now: u64) -> (r: Result<
        (),
        IndexError,
    >)
        requires
            old(store).wf(),
            now <= MAX_INDEXABLE_MS,
        ensures
            final(store).wf(),
            final(store).cfg() == old(store).cfg(),
            final(store).spec_edges() == old(store).spec_edges(),
            r is Ok <==> chunk_valid(*old(store), *self, is_genesis, now),
            r is Err ==> r->Err_0 == IndexError::Validation && *final(store) == *old(store),
            r is Ok && old(store).spec_chunks().contains(*self) ==> *final(store) == *old(store),
            r is Ok ==> final(store).spec_chunks().contains(*self),
            r is Ok ==> final(store).spec_genesis() == (if is_genesis {
                Some(*self)
            } else {
                old(store).spec_genesis()
            }),
            r is Ok && !old(store).spec_chunks().contains(*self) ==> {
                &&& final(store).spec_chunks() == old(store).spec_chunks().push(*self)
                &&& final(store).spec_chunk_links().len() == old(store).spec_chunk_links().len()
                    + 1
                &&& final(store).spec_chunk_links().take(
                    old(store).spec_chunk_links().len() as int,
                ) == old(store).spec_chunk_links()
                &&& final(store).spec_chunk_links().last().path@ == spec_path_for_timestamp(
                    old(store).cfg(),
                    self.from as int,
                )
                &&& final(store).spec_chunk_links().last().chunk == *self
                &&& final(store).spec_chunk_links().last().timestamp == now
            },
    {
        let cfgv = store.config();
        if self.from > now {
            return Err(IndexError::Validation);
        }
        let width_fits = match self.from.checked_add(cfgv.max_chunk_interval) {
            Some(expected) => self.until == expected,
            None => false,
        };
        if !width_fits {
            return Err(IndexError::Validation);
        }
        match store.get_genesis_chunk() {
            Some(g) => {
                if is_genesis {
                    if !(g == *self) {
                        return Err(IndexError::Validation);
                    }
                } else {
                    if self.from < g.from {
                        return Err(IndexError::Validation);
                    }
                    if (self.from - g.from) % cfgv.max_chunk_interval != 0 {
                        return Err(IndexError::Validation);
                    }
                }
            },
            None => {
                if !is_genesis {
                    return Err(IndexError::Validation);
                }
            },
        }
        if store.contains_chunk(self) {
            return Ok(());
        }
        let ghost pre = *store;
        let path = path_for_timestamp(&cfgv, self.from);
        store.ensure_path(&path);
        store.push_chunk(*self);
        store.push_chunk_link(ChunkLink { path, chunk: *self, timestamp: now });
        if is_genesis {
            store.set_genesis(*self);
        }
        proof {
            let cfg = store.cfg();
            let ps = store.spec_paths();
            let links = store.spec_chunk_links();
            let chunks = store.spec_chunks();
            assert(links.take(links.len() - 1) =~= pre.spec_chunk_links());
            assert(chunks =~= pre.spec_chunks().push(*self));
            assert(chunks.last() == *self);
            assert(chunks.contains(*self));
            // Anything committed before is still committed.
            assert forall|c: TimeChunk| pre.spec_chunks().contains(c) implies chunks.contains(
                c,
            ) by {
                let w = choose|w: int|
                    0 <= w < pre.spec_chunks().len() && pre.spec_chunks()[w] == c;
                assert(chunks[w] == c);
            }
            // Chunk edges still hang off stored leaves and committed chunks.
            assert forall|i: int| 0 <= i < links.len() implies {
                let l = #[trigger] links[i];
                &&& ps.contains(l.path@)
                &&& l.path@.len() == cfg.spec_depth()
                &&& chunks.contains(l.chunk)
            } by {
                if i < links.len() - 1 {
                    let l = pre.spec_chunk_links()[i];
                    assert(links[i] == l);
                    assert(pre.spec_chunks().contains(l.chunk));
                } else {
                    assert(links[i].path@ == path@);
                }
            }
            // Every stored leaf now carries an edge: the fresh leaf got one,
            // and the others kept theirs.
            assert forall|i: int|
                0 <= i < ps.len() && (#[trigger] ps[i]).len() == cfg.spec_depth() implies exists|
                j: int,
            |
                0 <= j < links.len() && (#[trigger] links[j]).path@ == ps[i] by {
                if ps[i] == path@ {
                    assert(links[links.len() - 1].path@ == ps[i]);
                } else {
                    let j = choose|j: int|
                        0 <= j < pre.spec_chunk_links().len() && (#[trigger] pre.spec_chunk_links()[j]).path@
                            == ps[i];
                    assert(links[j].path@ == ps[i]);
                }
            }
            assert(chunks.contains(*self)) by {
                assert(chunks.last() == *self);
            }
        }
        Ok(())
    }

    /// Re-runs the creation rules for this chunk against the stored genesis,
    /// exactly as any independent validator would: the chunk must not start
    /// in the future, must span one interval, and must sit on the genesis
    /// grid — a genesis chunk must already exist for the check to pass at
    /// all.
    pub fn validate_chunk(&self, store: &Store, now: u64) -> (r: Result<(), IndexError>)
        requires
            store.cfg().wf(),
        ensures
            r is Ok <==> (self.from <= now && width_ok(store.cfg(), *self) && store.spec_genesis() is Some
                && aligned_to(*self, store.spec_genesis()->0, store.cfg().max_chunk_interval)),
            r is Err ==> r->Err_0 == IndexError::Validation,
    {
        let cfgv = store.config();
        if self.from > now {
            return Err(IndexError::Validation);
        }
        let width_fits = match self.from.checked_add(cfgv.max_chunk_interval) {
            Some(expected) => self.until == expected,
            None => false,
        };
        if !width_fits {
            return Err(IndexError::Validation);
        }
        match store.get_genesis_chunk() {
            Some(g) => {
                if self.from < g.from {
                    return Err(IndexError::Validation);
                }
                if (self.from - g.from) % cfgv.max_chunk_interval != 0 {
                    return Err(IndexError::Validation);
                }
                Ok(())
            },
            None => Err(IndexError::Validation),
        }
    }

    /// The chunk `back_steps` whole intervals earlier, looked up purely by
    /// its computed identity: `None` when those bounds would fall before the
    /// epoch or no such chunk was ever committed.
    pub fn get_previous_chunk(&self, store: &Store, back_steps: u32) -> (r: Option<TimeChunk>)
        ensures
            ({
                let delta = back_steps as int * store.cfg().max_chunk_interval as int;
                let f = self.from as int - delta;
                let u = self.until as int - delta;
                &&& (r is Some <==> (f >= 0 && u >= 0 && store.spec_chunks().contains(
                    TimeChunk { from: f as u64, until: u as u64 },
                )))
                &&& r is Some ==> (r->0).from == f && (r->0).until == u
            }),
    {
        let interval = store.config().max_chunk_interval;
        let delta = match (back_steps as u64).checked_mul(interval) {
            Some(d) => d,
            None => {
                return None;
            },
        };
        let f = match self.from.checked_sub(delta) {
            Some(v) => v,
            None => {
                return None;
            },
        };
        let u = match self.until.checked_sub(delta) {
            Some(v) => v,
            None => {
                return None;
            },
        };
        let prev = TimeChunk { from: f, until: u };
        if store.contains_chunk(&prev) {
            Some(prev)
        } else {
            None
        }
    }

    /// Walks the time tree top-down for the window `[from, until]` and
    /// collects every chunk hanging off a qualifying leaf: at each
    /// materialized level only periods between `from`'s and `until`'s
    /// boundaries survive. A window narrower than one chunk interval can
    /// never be satisfied and is rejected outright.
    pub fn get_chunks_for_time_span(store: &Store, from: u64, until: u64) -> (r: Result<
        Vec<TimeChunk>,
        IndexError,
    >)
        requires
            store.wf(),
            from <= MAX_INDEXABLE_MS,
            until <= MAX_INDEXABLE_MS,
        ensures
            (r is Err <==> (until as int - from as int) < (store.cfg().max_chunk_interval as int)),
            r is Err ==> r->Err_0 == IndexError::Range,
            r is Ok ==> r->Ok_0@ == spec_span_chunks(
                store.spec_chunk_links(),
                store.cfg(),
                from as int,
                until as int,
            ),
    {
        let cfgv = store.config();
        if until < from || until - from < cfgv.max_chunk_interval {
            return Err(IndexError::Range);
        }
        let ghost cfg = store.cfg();
        let depth = cfgv.depth();
        let fp = path_for_timestamp(&cfgv, from);
        let up = path_for_timestamp(&cfgv, until);
        let mut lo: Vec<u64> = Vec::new();
        let mut hi: Vec<u64> = Vec::new();
        let mut k: usize = 1;
        while k <= depth
            invariant
                1 <= k <= depth + 1,
                depth == cfg.spec_depth(),
                cfg == store.cfg(),
                fp@ == spec_path_for_timestamp(cfg, from as int),
                up@ == spec_path_for_timestamp(cfg, until as int),
                crate::tree::wf_path_shape(fp@),
                crate::tree::wf_path_shape(up@),
                fp@.len() == depth,
                up@.len() == depth,
                lo@.len() == k - 1,
                hi@.len() == k - 1,
                forall|x: int|
                    0 <= x < k - 1 ==> lo@[x] as int == spec_path_ts(fp@, x + 1) && hi@[x] as int
                        == spec_path_ts(up@, x + 1),
            decreases depth + 1 - k,
        {
            lo.push(prefix_ts(&fp, k));
            hi.push(prefix_ts(&up, k));
            k += 1;
        }
        let links = store.chunk_link_log();
        let ghost lseq = store.spec_chunk_links();
        let mut out: Vec<TimeChunk> = Vec::new();
        let mut i: usize = 0;
        proof {
            assert(lseq.take(0) =~= Seq::<ChunkLink>::empty());
            assert(spec_span_chunks(lseq.take(0), cfg, from as int, until as int) =~= Seq::<
                TimeChunk,
            >::empty());
        }
        while i < links.len()
            invariant
                i <= lseq.len(),
                links@ == lseq,
                lseq == store.spec_chunk_links(),
                store.wf(),
                cfg == store.cfg(),
                depth == cfg.spec_depth(),
                lo@.len() == depth,
                hi@.len() == depth,
                fp@ == spec_path_for_timestamp(cfg, from as int),
                up@ == spec_path_for_timestamp(cfg, until as int),
                forall|x: int|
                    0 <= x < depth ==> lo@[x] as int == spec_path_ts(fp@, x + 1) && hi@[x] as int
                        == spec_path_ts(up@, x + 1),
                out@ == spec_span_chunks(lseq.take(i as int), cfg, from as int, until as int),
            decreases lseq.len() - i,
        {
            let l = &links[i];
            proof {
                assert(lseq.take(i + 1) =~= lseq.take(i as int).push(lseq[i as int]));
                // The stored leaf is well-formed and has full depth.
                assert(store.spec_chunk_links()[i as int] == lseq[i as int]);
                assert(lseq[i as int].path@.len() == cfg.spec_depth());
                let ps = store.spec_paths();
                assert(ps.contains(lseq[i as int].path@));
                let w = choose|w: int| 0 <= w < ps.len() && ps[w] == lseq[i as int].path@;
                assert(wf_path(cfg, ps[w]));
            }
            let q = path_in_bounds(&l.path, &lo, &hi);
            proof {
                assert(q <==> leaf_qualifies(cfg, lseq[i as int].path@, from as int, until as int));
            }
            if q {
                out.push(l.chunk);
            }
            i += 1;
        }
        proof {
            assert(lseq.take(lseq.len() as int) =~= lseq);
        }
        Ok(out)
    }

    /// The chunk serving the current window: builds the full current-time
    /// path and returns the youngest chunk hanging off that one leaf, or
    /// `None` when the current window has no committed chunk — chunks
    /// elsewhere in the tree are deliberately not searched.
    pub fn get_latest_chunk(store: &Store, now: u64) -> (r: Option<TimeChunk>)
        requires
            store.wf(),
            now <= MAX_INDEXABLE_MS,
        ensures
            ({
                let leaf = spec_path_for_timestamp(store.cfg(), now as int);
                &&& (r is None <==> (forall|j: int|
                    0 <= j < store.spec_chunk_links().len() ==> (#[trigger] store.spec_chunk_links()[j]).path@
                        != leaf))
                &&& r is Some ==> (exists|j: int|
                    0 <= j < store.spec_chunk_links().len()
                        && (#[trigger] store.spec_chunk_links()[j]).path@ == leaf
                        && store.spec_chunk_links()[j].chunk == r->0 && (forall|j2: int|
                        0 <= j2 < store.spec_chunk_links().len()
                            && (#[trigger] store.spec_chunk_links()[j2]).path@ == leaf
                            ==> store.spec_chunk_links()[j2].timestamp
                            <= store.spec_chunk_links()[j].timestamp))
            }),
    {
        let cfgv = store.config();
        let leaf = path_for_timestamp(&cfgv, now);
        match store.latest_link_at(&leaf) {
            Some((c, t)) => {
                proof {
                    let links = store.spec_chunk_links();
                    let j = choose|j: int|
                        0 <= j < links.len() && (#[trigger] links[j]).path@ == leaf@
                            && links[j].chunk == c && links[j].timestamp == t;
                    assert(links[j].path@ == leaf@);
                }
                Some(c)
            },
            None => None,
        }
    }
}

} // verus!
