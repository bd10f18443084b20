//! Compiled traces and the counters that decide what to compile.

use std::ops::Range;
use std::sync::Arc;

use vstd::prelude::*;

use crate::bytecode::chunk::Chunk;
use crate::idmap::IdMap;
use crate::jit::code::TraceCode;

verus! {

/// How many times a place must run before it is compiled.
pub const HOT_THRESHOLD: u32 = 1000;

/// A place in the code.
#[derive(Debug, Clone, Copy, PartialEq, Eq, Hash, Structural)]
pub struct TraceKey {
    pub function: u32,
    pub entry_pc: u32,
}

/// What a trace covers.
#[derive(Debug)]
pub struct TraceSpan {
    pub function: u32,
    pub range: Range<u32>,
}

impl Clone for TraceSpan {
    fn clone(&self) -> (r: Self)
        ensures
            r == *self,
    {
        TraceSpan { function: self.function, range: self.range.start..self.range.end }
    }
}

/// Shared compiled code.
pub type JitEntry = Arc<TraceCode>;

/// A compiled trace.
#[derive(Debug)]
pub struct CompiledTrace {
    pub span: TraceSpan,
    pub entry: JitEntry,
}

/// Number of a place.
pub open spec fn key_id(k: TraceKey) -> u128 {
    (k.function * 0x1_0000_0000 + k.entry_pc) as u128
}

/// Different places have different numbers.
pub proof fn key_ids_differ(a: TraceKey, b: TraceKey)
    ensures
        key_id(a) == key_id(b) ==> a == b,
{
}

/// A map with places in place of their numbers.
pub open spec fn by_key<V>(m: Map<u128, V>) -> Map<TraceKey, V> {
    Map::new(|k: TraceKey| m.contains_key(key_id(k)), |k: TraceKey| m[key_id(k)])
}

proof fn lemma_by_key_insert<V>(m: Map<u128, V>, k: TraceKey, v: V)
    ensures
        by_key(m.insert(key_id(k), v)) == by_key(m).insert(k, v),
        by_key(m.remove(key_id(k))) == by_key(m).remove(k),
{
    assert forall|x: TraceKey| key_id(x) == key_id(k) implies x == k by {
        key_ids_differ(x, k);
    }
    assert(by_key(m.insert(key_id(k), v)) =~= by_key(m).insert(k, v));
    assert(by_key(m.remove(key_id(k))) =~= by_key(m).remove(k));
}

fn number(k: TraceKey) -> (r: u128)
    ensures
        r == key_id(k),
{
    (k.function as u128) * 0x1_0000_0000 + (k.entry_pc as u128)
}

/// Compiled traces by place.
pub struct TraceCache {
    traces: IdMap<CompiledTrace>,
}

impl View for TraceCache {
    type V = Map<TraceKey, CompiledTrace>;

    closed spec fn view(&self) -> Map<TraceKey, CompiledTrace> {
        by_key(self.traces@)
    }
}

impl TraceCache {
    /// An empty cache.
    pub fn new() -> (r: Self)
        ensures
            r@ == Map::<TraceKey, CompiledTrace>::empty(),
    {
        let r = TraceCache { traces: IdMap::new() };
        assert(r@ =~= Map::<TraceKey, CompiledTrace>::empty());
        r
    }

    /// The trace of a place.
    pub fn get(&self, key: &TraceKey) -> (r: Option<&CompiledTrace>)
        ensures
            match r {
                Some(t) => self@.contains_key(*key) && *t == self@[*key],
                None => !self@.contains_key(*key),
            },
    {
        self.traces.get(number(*key))
    }

    /// Keep the trace of a place, in place of an earlier one.
    pub fn insert(&mut self, key: TraceKey, trace: CompiledTrace)
        ensures
            final(self)@ == old(self)@.insert(key, trace),
    {
        proof {
            lemma_by_key_insert(self.traces@, key, trace);
        }
        let _ = self.traces.insert(number(key), trace);
    }

    /// Forget every trace.
    pub fn clear(&mut self)
        ensures
            final(self)@ == Map::<TraceKey, CompiledTrace>::empty(),
    {
        self.traces.clear();
        assert(self@ =~= Map::<TraceKey, CompiledTrace>::empty());
    }
}

impl Default for TraceCache {
    fn default() -> (r: Self)
        ensures
            r@ == Map::<TraceKey, CompiledTrace>::empty(),
    {
        Self::new()
    }
}

/// How often each place ran.
pub struct HotCounter {
    counters: IdMap<u32>,
}

impl View for HotCounter {
    type V = Map<TraceKey, u32>;

    closed spec fn view(&self) -> Map<TraceKey, u32> {
        by_key(self.counters@)
    }
}

/// How often a place ran.
pub open spec fn hits(m: Map<TraceKey, u32>, key: TraceKey) -> u32 {
    if m.contains_key(key) {
        m[key]
    } else {
        0
    }
}

/// How often a place ran, with one more time.
pub open spec fn one_more(m: Map<TraceKey, u32>, key: TraceKey) -> u32 {
    if hits(m, key) == u32::MAX {
        u32::MAX
    } else {
        (hits(m, key) + 1) as u32
    }
}

/// Counting one run of a place counts that place once more and no other, so
/// the run that makes a place hot is the one that its threshold names.
pub proof fn places_are_counted_apart(m: Map<TraceKey, u32>, key: TraceKey, other: TraceKey)
    requires
        key != other,
    ensures
        hits(m, key) < u32::MAX ==> hits(m.insert(key, one_more(m, key)), key) == hits(m, key) + 1,
        hits(m, key) == u32::MAX ==> hits(m.insert(key, one_more(m, key)), key) == u32::MAX,
        hits(m.insert(key, one_more(m, key)), other) == hits(m, other),
        !m.contains_key(key) ==> one_more(m, key) == 1,
        hits(m.remove(key), key) == 0,
{
}

impl HotCounter {
    /// Count one run of a place, and say whether it ran often enough.
    pub fn hit(&mut self, key: TraceKey, threshold: u32) -> (r: bool)
        ensures
            final(self)@ == old(self)@.insert(key, one_more(old(self)@, key)),
            r == (one_more(old(self)@, key) >= threshold),
    {
        let before: u32 = match self.counters.get(number(key)) {
            Some(n) => *n,
            None => 0,
        };
        let now: u32 = before.saturating_add(1);
        proof {
            lemma_by_key_insert(self.counters@, key, now);
        }
        let _ = self.counters.insert(number(key), now);
        now >= threshold
    }

    /// Start a place anew.
    pub fn reset(&mut self, key: TraceKey)
        ensures
            final(self)@ == old(self)@.remove(key),
    {
        proof {
            lemma_by_key_insert(self.counters@, key, 0);
        }
        let _ = self.counters.remove(number(key));
    }

    /// Start every place anew.
    pub fn clear(&mut self)
        ensures
            final(self)@ == Map::<TraceKey, u32>::empty(),
    {
        self.counters.clear();
        assert(self@ =~= Map::<TraceKey, u32>::empty());
    }
}

impl Default for HotCounter {
    fn default() -> (r: Self)
        ensures
            r@ == Map::<TraceKey, u32>::empty(),
    {
        let r = HotCounter { counters: IdMap::new() };
        assert(r@ =~= Map::<TraceKey, u32>::empty());
        r
    }
}

/// Compiled code for one image.
pub struct JitContext {
    pub chunk: Arc<Chunk>,
    pub cache: TraceCache,
    pub hot: HotCounter,
    pub hot_threshold: u32,
}

impl JitContext {
    /// Nothing compiled yet.
    pub fn new(chunk: Arc<Chunk>) -> (r: Self)
        ensures
            r.chunk == chunk,
            r.cache@ == Map::<TraceKey, CompiledTrace>::empty(),
            r.hot@ == Map::<TraceKey, u32>::empty(),
            r.hot_threshold == HOT_THRESHOLD,
    {
        JitContext {
            chunk,
            cache: TraceCache::new(),
            hot: HotCounter::default(),
            hot_threshold: HOT_THRESHOLD,
        }
    }

    /// Drop compiled traces and counters, because the image changes.
    pub fn reload(&mut self, chunk: Arc<Chunk>)
        ensures
            final(self).chunk == chunk,
            final(self).cache@ == Map::<TraceKey, CompiledTrace>::empty(),
            final(self).hot@ == Map::<TraceKey, u32>::empty(),
            final(self).hot_threshold == old(self).hot_threshold,
    {
        self.chunk = chunk;
        self.cache.clear();
        self.hot.clear();
    }
}

} // verus!
