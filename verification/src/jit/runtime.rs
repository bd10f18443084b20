//! Compiled code that the flows of a runtime share.

use std::sync::Arc;

use vstd::prelude::*;

use crate::bytecode::chunk::Chunk;
use crate::jit::trace::{
    one_more, CompiledTrace, HotCounter, JitEntry, TraceCache, TraceKey, HOT_THRESHOLD,
};

verus! {

/// Whether two handles share one image: `Arc::ptr_eq`. Handles that do hold
/// equal images. When two handles with equal images share one is not stated:
/// that depends on how they were made.
#[verifier::external_body]
pub(crate) fn same_image(a: &Arc<Chunk>, b: &Arc<Chunk>) -> (r: bool)
    ensures
        r ==> **a == **b,
{
    Arc::ptr_eq(a, b)
}

/// Compiled traces and counters for the image of a runtime.
pub struct JitRuntime {
    pub chunk: Arc<Chunk>,
    pub hot_threshold: u32,
    pub cache: TraceCache,
    pub hot: HotCounter,
}

/// Compiled code, out of the cache.
#[derive(Debug)]
pub struct JitEntryCopy {
    pub entry: JitEntry,
}

impl JitRuntime {
    /// The image that the code was compiled for.
    pub open spec fn image(&self) -> Chunk {
        *self.chunk
    }

    /// The compiled traces.
    pub open spec fn traces(&self) -> Map<TraceKey, CompiledTrace> {
        self.cache@
    }

    /// How often each place ran.
    pub open spec fn counters(&self) -> Map<TraceKey, u32> {
        self.hot@
    }

    /// Nothing compiled yet.
    pub fn new(chunk: Arc<Chunk>, hot_threshold: u32) -> (r: Self)
        ensures
            r.image() == *chunk,
            r.hot_threshold == hot_threshold,
            r.traces() == Map::<TraceKey, CompiledTrace>::empty(),
            r.counters() == Map::<TraceKey, u32>::empty(),
    {
        JitRuntime {
            chunk,
            hot_threshold,
            cache: TraceCache::new(),
            hot: HotCounter::default(),
        }
    }

    /// Nothing compiled yet, with the usual threshold.
    pub fn with_default_threshold(chunk: Arc<Chunk>) -> (r: Self)
        ensures
            r.image() == *chunk,
            r.hot_threshold == HOT_THRESHOLD,
            r.traces() == Map::<TraceKey, CompiledTrace>::empty(),
            r.counters() == Map::<TraceKey, u32>::empty(),
    {
        Self::new(chunk, HOT_THRESHOLD)
    }

    /// The image that the code was compiled for.
    pub fn chunk(&self) -> (r: Option<Arc<Chunk>>)
        ensures
            r matches Some(c) && *c == self.image(),
    {
        Some(self.chunk.clone())
    }

    /// Whether a handle shares the image that the code was compiled for.
    pub fn matches_chunk(&self, vm_chunk: &Arc<Chunk>) -> (r: bool)
        ensures
            r ==> **vm_chunk == self.image(),
    {
        same_image(&self.chunk, vm_chunk)
    }

    /// Replace the image, and discard what was compiled for the old one.
    pub fn reload(&mut self, chunk: Arc<Chunk>)
        ensures
            final(self).image() == *chunk,
            final(self).hot_threshold == old(self).hot_threshold,
            final(self).traces() == Map::<TraceKey, CompiledTrace>::empty(),
            final(self).counters() == Map::<TraceKey, u32>::empty(),
    {
        self.chunk = chunk;
        self.cache.clear();
        self.hot.clear();
    }

    /// The compiled code of a place.
    pub fn get_trace(&self, key: &TraceKey) -> (r: Option<JitEntryCopy>)
        ensures
            match r {
                Some(copy) => self.traces().contains_key(*key) && copy.entry
                    == self.traces()[*key].entry,
                None => !self.traces().contains_key(*key),
            },
    {
        match self.cache.get(key) {
            Some(t) => Some(JitEntryCopy { entry: t.entry.clone() }),
            None => None,
        }
    }

    /// Keep the trace of a place.
    pub fn insert_trace(&mut self, key: TraceKey, trace: CompiledTrace)
        ensures
            final(self).traces() == old(self).traces().insert(key, trace),
            final(self).image() == old(self).image(),
            final(self).counters() == old(self).counters(),
            final(self).hot_threshold == old(self).hot_threshold,
    {
        self.cache.insert(key, trace);
    }

    /// Count one run of a place, and say whether it ran often enough.
    pub fn record_hot_hit(&mut self, key: TraceKey) -> (r: bool)
        ensures
            final(self).counters() == old(self).counters().insert(
                key,
                one_more(old(self).counters(), key),
            ),
            r == (one_more(old(self).counters(), key) >= old(self).hot_threshold),
            final(self).image() == old(self).image(),
            final(self).traces() == old(self).traces(),
            final(self).hot_threshold == old(self).hot_threshold,
    {
        self.hot.hit(key, self.hot_threshold)
    }
}

} // verus!
