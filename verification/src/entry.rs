use vstd::prelude::*;

use crate::chunk::{chunk_valid, TimeChunk};
use crate::civil::MAX_INDEXABLE_MS;
use crate::config::Config;
use crate::errors::IndexError;
use crate::store::{author_edges, EdgeKind, LinkEdge, Store};

verus! {

/// The capability a payload must offer to be time-indexed: the instant it
/// belongs to and its content address. Nothing else about the payload
/// matters to the index.
pub trait IndexableEntry {
    /// The instant this record belongs to, in milliseconds since the Unix
    /// epoch.
    fn entry_time(&self) -> u64;

    /// The record's content address.
    fn hash(&self) -> u64;
}

/// A minimal indexable record: an instant and a content address, as plain
/// values.
#[derive(Clone, Copy, Debug, PartialEq, Eq, Structural)]
pub struct TimestampedEntry {
    /// The instant the record belongs to, in milliseconds since the epoch.
    pub time: u64,
    /// The record's content address.
    pub addr: u64,
}

impl IndexableEntry for TimestampedEntry {
    fn entry_time(&self) -> u64 {
        self.time
    }

    fn hash(&self) -> u64 {
        self.addr
    }
}

/// The chunk that owns instant `ts` on the genesis grid: its start is the
/// greatest grid point at or below `ts`. `None` before genesis, for
/// instants earlier than the genesis chunk, and where the chunk's end would
/// not fit in the timestamp type.
pub open spec fn spec_owning_chunk(cfg: Config, g: Option<TimeChunk>, ts: int) -> Option<
    TimeChunk,
> {
    if g is None {
        None
    } else if ts < g->0.from {
        None
    } else {
        let f = g->0.from + ((ts - g->0.from) / (cfg.max_chunk_interval as int))
            * (cfg.max_chunk_interval as int);
        if f + cfg.max_chunk_interval <= u64::MAX {
            Some(TimeChunk { from: f as u64, until: (f + cfg.max_chunk_interval) as u64 })
        } else {
            None
        }
    }
}

/// Files one record at its instant: resolves — creating it if need be — the
/// chunk owning `ts` on the genesis grid, then attaches `target` under
/// `tag` for `author`. Fails when no genesis exists yet, when `ts` lies
/// before the genesis chunk or its owning chunk cannot be represented or
/// starts in the future, and when the author's link budget on the owning
/// chunk is spent; a failed attachment adds no link, though the owning
/// chunk, once validly created, stays.
pub fn index_at(
    store: &mut Store,
    ts: u64,
    target: u64,
    tag: u64,
    author: u64,
    now: u64,
) -> (r: Result<(), IndexError>)
    requires
        old(store).wf(),
        ts <= MAX_INDEXABLE_MS,
        now <= MAX_INDEXABLE_MS,
    ensures
        final(store).wf(),
        final(store).cfg() == old(store).cfg(),
        ({
            let cfg = old(store).cfg();
            let owning = spec_owning_chunk(cfg, old(store).spec_genesis(), ts as int);
            &&& (r is Ok <==> (owning is Some && owning->0.from <= now && author_edges(
                old(store).spec_edges(),
                owning->0,
                author,
            ).len() < cfg.enforce_spam_limit))
            &&& (r is Err ==> r->Err_0 == IndexError::Validation && final(store).spec_edges()
                == old(store).spec_edges())
            &&& (r is Ok ==> final(store).spec_chunks().contains(owning->0))
            &&& (r is Ok ==> {
                let es = author_edges(old(store).spec_edges(), owning->0, author);
                final(store).spec_edges() == old(store).spec_edges().push(
                    LinkEdge {
                        chunk: owning->0,
                        author,
                        target,
                        tag,
                        kind: if es.len() < cfg.direct_chunk_link_limit {
                            EdgeKind::Direct
                        } else {
                            EdgeKind::Chain(es.last().target)
                        },
                    },
                )
            })
        }),
{
    broadcast use vstd::arithmetic::div_mod::lemma_fundamental_div_mod;
    broadcast use vstd::arithmetic::div_mod::lemma_mod_bound;
    broadcast use vstd::arithmetic::div_mod::lemma_mod_multiples_basic;

    let cfgv = store.config();
    let g = match store.get_genesis_chunk() {
        Some(g) => g,
        None => {
            return Err(IndexError::Validation);
        },
    };
    if ts < g.from {
        return Err(IndexError::Validation);
    }
    let delta = ts - g.from;
    let steps = delta / cfgv.max_chunk_interval;
    proof {
        let iv = cfgv.max_chunk_interval as int;
        assert(delta as int == iv * (delta as int / iv) + (delta as int % iv));
        assert(0 <= delta as int % iv < iv);
    }
    let offset = steps * cfgv.max_chunk_interval;
    let from = g.from + offset;
    let until = match from.checked_add(cfgv.max_chunk_interval) {
        Some(u) => u,
        None => {
            return Err(IndexError::Validation);
        },
    };
    let chunk = TimeChunk { from, until };
    proof {
        assert((offset as int) % (cfgv.max_chunk_interval as int) == 0);
        assert(chunk_valid(*store, chunk, false, now) <==> chunk.from <= now);
    }
    match chunk.create_chunk(store, false, now) {
        Ok(()) => {},
        Err(_) => {
            return Err(IndexError::Validation);
        },
    }
    match chunk.add_link(store, target, tag, author) {
        Ok(()) => Ok(()),
        Err(_) => Err(IndexError::Validation),
    }
}

/// Indexes one payload: reads its instant and content address through the
/// [`IndexableEntry`] capability and files the address with [`index_at`],
/// which carries the exact contract for every value the capability may
/// hand back. An instant beyond the supported calendar range is rejected.
pub fn index_entry<T: IndexableEntry>(
    store: &mut Store,
    data: &T,
    tag: u64,
    author: u64,
    now: u64,
) -> (r: Result<(), IndexError>)
    requires
        old(store).wf(),
        now <= MAX_INDEXABLE_MS,
    ensures
        final(store).wf(),
        final(store).cfg() == old(store).cfg(),
        r is Err ==> r->Err_0 == IndexError::Validation,
{
    let ts = data.entry_time();
    if ts > MAX_INDEXABLE_MS {
        return Err(IndexError::Validation);
    }
    let h = data.hash();
    index_at(store, ts, h, tag, author, now)
}

} // verus!
