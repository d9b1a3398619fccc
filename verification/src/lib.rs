//! Time-chunked link indexing for content-addressed link graphs.
//!
//! Many independent writers attaching links to one popular record concentrate
//! read and write load on the address of that record. This crate spreads the
//! load two ways: time is partitioned into fixed-width chunks hung off a
//! year/month/day/... path tree, so link targets land on many distinct
//! addresses; and each author's direct fan-out on a chunk is bounded, with
//! overflow chained through a linked list and a hard total cap. Every rule is
//! a pure function of the visible data, so any validator can re-derive every
//! decision with no coordination.

use vstd::prelude::*;

pub mod chunk;
pub mod civil;
pub mod config;
pub mod entry;
pub mod errors;
pub mod links;
pub mod store;
pub mod tree;

use crate::chunk::{spec_span_chunks, TimeChunk};
use crate::civil::MAX_INDEXABLE_MS;
use crate::errors::IndexError;
use crate::links::{direct_links, spec_direct_tagged};
use crate::store::Store;

verus! {

/// A chunk together with the direct links fetched off it.
pub struct EntryChunkIndex {
    /// The chunk serving the window.
    pub index: TimeChunk,
    /// The targets of the chunk's direct links, optionally filtered by tag.
    pub links: Vec<u64>,
}

/// All indexes whose windows a walk for `[from, until]` visits, each with
/// its direct links (optionally only those under `link_tag`). A window
/// narrower than one chunk interval can never be satisfied and is rejected.
pub fn get_indexes_between(
    store: &Store,
    from: u64,
    until: u64,
    link_tag: Option<u64>,
) -> (r: Result<Vec<EntryChunkIndex>, IndexError>)
    requires
        store.wf(),
        from <= MAX_INDEXABLE_MS,
        until <= MAX_INDEXABLE_MS,
    ensures
        (r is Err <==> (until as int - from as int) < (store.cfg().max_chunk_interval as int)),
        r is Err ==> r->Err_0 == IndexError::Range,
        r is Ok ==> {
            let span = spec_span_chunks(
                store.spec_chunk_links(),
                store.cfg(),
                from as int,
                until as int,
            );
            &&& r->Ok_0@.len() == span.len()
            &&& forall|i: int|
                0 <= i < span.len() ==> (#[trigger] r->Ok_0@[i]).index == span[i]
                    && r->Ok_0@[i].links@ == spec_direct_tagged(
                    store.spec_edges(),
                    span[i],
                    link_tag,
                )
        },
{
    let chunks = match TimeChunk::get_chunks_for_time_span(store, from, until) {
        Ok(cs) => cs,
        Err(e) => {
            return Err(e);
        },
    };
    let ghost span = chunks@;
    let mut out: Vec<EntryChunkIndex> = Vec::new();
    let mut i: usize = 0;
    while i < chunks.len()
        invariant
            i <= span.len(),
            chunks@ == span,
            out@.len() == i,
            forall|j: int|
                0 <= j < i ==> (#[trigger] out@[j]).index == span[j] && out@[j].links@
                    == spec_direct_tagged(store.spec_edges(), span[j], link_tag),
        decreases span.len() - i,
    {
        let c = chunks[i];
        let links = direct_links(store, &c, link_tag);
        out.push(EntryChunkIndex { index: c, links });
        i += 1;
    }
    Ok(out)
}

/// The index serving the current window, with its direct links: builds the
/// current-time path and reads the one leaf. Not guaranteed to find a
/// result even when chunks exist elsewhere in the tree.
pub fn get_current_index(store: &Store, now: u64, link_tag: Option<u64>) -> (r: Option<
    EntryChunkIndex,
>)
    requires
        store.wf(),
        now <= MAX_INDEXABLE_MS,
    ensures
        ({
            let leaf = crate::tree::spec_path_for_timestamp(store.cfg(), now as int);
            &&& (r is None <==> (forall|j: int|
                0 <= j < store.spec_chunk_links().len() ==> (#[trigger] store.spec_chunk_links()[j]).path@
                    != leaf))
            &&& r is Some ==> (exists|j: int|
                0 <= j < store.spec_chunk_links().len()
                    && (#[trigger] store.spec_chunk_links()[j]).path@ == leaf
                    && store.spec_chunk_links()[j].chunk == (r->0).index)
            &&& r is Some ==> (r->0).links@ == spec_direct_tagged(
                store.spec_edges(),
                (r->0).index,
                link_tag,
            )
        }),
{
    match TimeChunk::get_latest_chunk(store, now) {
        Some(c) => {
            let links = direct_links(store, &c, link_tag);
            Some(EntryChunkIndex { index: c, links })
        },
        None => None,
    }
}

/// The most recently indexed chunk, found by walking the tree itself, with
/// its direct links: the chunk comes from the newest leaf any chunk edge
/// hangs off, by the youngest edge there. `None` exactly when no chunk has
/// ever been committed.
pub fn get_most_recent_indexes(store: &Store, link_tag: Option<u64>) -> (r: Option<
    EntryChunkIndex,
>)
    requires
        store.wf(),
    ensures
        r is None <==> store.spec_chunks().len() == 0,
        r is Some ==> store.spec_chunks().contains((r->0).index),
        r is Some ==> (exists|j: int|
            0 <= j < store.spec_chunk_links().len()
                && (#[trigger] store.spec_chunk_links()[j]).chunk == (r->0).index && (forall|
                i: int,
            |
                0 <= i < store.spec_chunk_links().len() ==> crate::tree::path_le(
                    (#[trigger] store.spec_chunk_links()[i]).path@,
                    store.spec_chunk_links()[j].path@,
                ))),
        r is Some ==> (r->0).links@ == spec_direct_tagged(
            store.spec_edges(),
            (r->0).index,
            link_tag,
        ),
{
    match store.most_recent_chunk() {
        Some(c) => {
            let links = direct_links(store, &c, link_tag);
            Some(EntryChunkIndex { index: c, links })
        },
        None => None,
    }
}

} // verus!
