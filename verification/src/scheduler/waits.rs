//! Small indexes of the scheduler: who traps exits, who is to be killed, who
//! waits for whom.

use vstd::prelude::*;

use crate::idmap::{ids_only, is_key_list, key_list_exists, sorted_keys, IdMap};
use crate::scheduler::link::lemma_push_contains;
use crate::scheduler::monitor::FlowExitReason;
use crate::scheduler::process::FlowId;
use crate::text::{dec, owned, push_str, push_usize};

verus! {

/// Flows that get the exit of a linked flow as a message instead of dying
/// with it.
pub struct TrapExitFlags {
    pub flags: IdMap<bool>,
}

impl View for TrapExitFlags {
    type V = Map<u128, bool>;

    open spec fn view(&self) -> Map<u128, bool> {
        self.flags@
    }
}

/// The flags after one was set.
pub open spec fn trap_set(m: Map<u128, bool>, id: FlowId, enabled: bool) -> Map<u128, bool> {
    if enabled {
        m.insert(id.raw as u128, true)
    } else {
        m.remove(id.raw as u128)
    }
}

impl TrapExitFlags {
    pub fn new() -> (r: Self)
        ensures
            r@ == Map::<u128, bool>::empty(),
    {
        TrapExitFlags { flags: IdMap::new() }
    }

    pub fn set(&mut self, id: FlowId, enabled: bool)
        ensures
            final(self)@ == trap_set(old(self)@, id, enabled),
    {
        if enabled {
            let _ = self.flags.insert(id.raw as u128, true);
        } else {
            let _ = self.flags.remove(id.raw as u128);
        }
    }

    pub fn is_enabled(&self, id: FlowId) -> (r: bool)
        ensures
            r == self@.contains_key(id.raw as u128),
    {
        self.flags.contains(id.raw as u128)
    }

    pub fn clear(&mut self, id: FlowId)
        ensures
            final(self)@ == old(self)@.remove(id.raw as u128),
    {
        let _ = self.flags.remove(id.raw as u128);
    }
}

impl Default for TrapExitFlags {
    fn default() -> (r: Self)
        ensures
            r@ == Map::<u128, bool>::empty(),
    {
        TrapExitFlags::new()
    }
}

/// Kill signals, taken when the flow next runs.
pub struct KillSignals {
    pub signals: IdMap<FlowExitReason>,
}

impl View for KillSignals {
    type V = Map<u128, FlowExitReason>;

    open spec fn view(&self) -> Map<u128, FlowExitReason> {
        self.signals@
    }
}

/// The entry of `id`.
pub open spec fn entry_of<V>(m: Map<u128, V>, id: FlowId) -> Option<V> {
    if m.contains_key(id.raw as u128) {
        Some(m[id.raw as u128])
    } else {
        None
    }
}

impl KillSignals {
    pub fn new() -> (r: Self)
        ensures
            r@ == Map::<u128, FlowExitReason>::empty(),
    {
        KillSignals { signals: IdMap::new() }
    }

    pub fn set(&mut self, id: FlowId, reason: FlowExitReason)
        ensures
            final(self)@ == old(self)@.insert(id.raw as u128, reason),
    {
        let _ = self.signals.insert(id.raw as u128, reason);
    }

    pub fn take(&mut self, id: FlowId) -> (r: Option<FlowExitReason>)
        ensures
            r == entry_of(old(self)@, id),
            final(self)@ == old(self)@.remove(id.raw as u128),
    {
        self.signals.remove(id.raw as u128)
    }
}

/// Which flow's inbox a waiting sender waits at.
pub struct WaitingSendIndex {
    pub targets: IdMap<FlowId>,
}

impl View for WaitingSendIndex {
    type V = Map<u128, FlowId>;

    open spec fn view(&self) -> Map<u128, FlowId> {
        self.targets@
    }
}

impl WaitingSendIndex {
    pub fn new() -> (r: Self)
        ensures
            r@ == Map::<u128, FlowId>::empty(),
    {
        WaitingSendIndex { targets: IdMap::new() }
    }

    pub fn insert(&mut self, sender: FlowId, target: FlowId)
        ensures
            final(self)@ == old(self)@.insert(sender.raw as u128, target),
    {
        let _ = self.targets.insert(sender.raw as u128, target);
    }

    pub fn remove(&mut self, sender: FlowId) -> (r: Option<FlowId>)
        ensures
            r == entry_of(old(self)@, sender),
            final(self)@ == old(self)@.remove(sender.raw as u128),
    {
        self.targets.remove(sender.raw as u128)
    }

    pub fn get(&self, sender: FlowId) -> (r: Option<FlowId>)
        ensures
            r == entry_of(self@, sender),
    {
        match self.targets.get(sender.raw as u128) {
            Some(t) => Some(*t),
            None => None,
        }
    }
}

/// Why a wait for a reply is refused.
#[derive(Debug, Clone, Copy, PartialEq, Eq, Structural)]
pub enum AskInsertError {
    /// The flow waits for a reply already.
    Duplicate,
    /// As many flows wait as may.
    LimitReached { current: usize, max: usize },
}

/// The message of a refused wait.
pub open spec fn ask_error_text(e: AskInsertError) -> Seq<char> {
    match e {
        AskInsertError::Duplicate => "duplicate in-flight Ask request_id"@,
        AskInsertError::LimitReached { current, max } => "Ask wait limit reached ("@ + dec(
            current as nat,
        ) + "/"@ + dec(max as nat) + ")"@,
    }
}

impl AskInsertError {
    /// The message of this error.
    pub fn text(&self) -> (r: String)
        ensures
            r@ == ask_error_text(*self),
    {
        match self {
            AskInsertError::Duplicate => owned("duplicate in-flight Ask request_id"),
            AskInsertError::LimitReached { current, max } => {
                let mut s = owned("Ask wait limit reached (");
                push_usize(&mut s, *current);
                push_str(&mut s, "/");
                push_usize(&mut s, *max);
                push_str(&mut s, ")");
                s
            },
        }
    }
}

/// A wait for the reply of `target` to a request.
#[derive(Debug, Clone, Copy, PartialEq, Eq, Structural)]
pub struct AskWait {
    pub target: FlowId,
    pub request_id: u64,
}

/// Waits by asker, and their bound; zero is no bound.
#[verifier::ext_equal]
pub ghost struct AskState {
    pub waits: Map<u128, AskWait>,
    pub max: usize,
}

/// The index after a wait was asked for, and the answer.
pub open spec fn ask_added(s: AskState, asker: FlowId, target: FlowId, request_id: u64) -> (
    AskState,
    Result<(), AskInsertError>,
) {
    if s.waits.contains_key(asker.raw as u128) {
        (s, Err(AskInsertError::Duplicate))
    } else if s.max != 0 && s.waits.len() >= s.max {
        (s, Err(AskInsertError::LimitReached { current: s.waits.len() as usize, max: s.max }))
    } else {
        (
            AskState {
                waits: s.waits.insert(asker.raw as u128, AskWait { target, request_id }),
                ..s
            },
            Ok(()),
        )
    }
}

/// The flow that `asker` waits for.
pub open spec fn ask_target(s: AskState, asker: FlowId) -> Option<FlowId> {
    match entry_of(s.waits, asker) {
        Some(w) => Some(w.target),
        None => None,
    }
}

/// The index without the wait of `asker`.
pub open spec fn ask_removed(s: AskState, asker: FlowId) -> AskState {
    AskState { waits: s.waits.remove(asker.raw as u128), ..s }
}

/// Flows among `keys` that wait for `target`.
pub open spec fn waiters(waits: Map<u128, AskWait>, keys: Seq<u128>, target: FlowId) -> Seq<FlowId>
    decreases keys.len(),
{
    if keys.len() == 0 {
        Seq::empty()
    } else {
        let rest = waiters(waits, keys.drop_last(), target);
        if waits[keys.last()].target == target {
            rest.push(FlowId { raw: keys.last() as u64 })
        } else {
            rest
        }
    }
}

/// Flows that wait for `target`, oldest first.
pub open spec fn waiters_of(s: AskState, target: FlowId) -> Seq<FlowId> {
    waiters(s.waits, sorted_keys(s.waits), target)
}

proof fn lemma_waiters(waits: Map<u128, AskWait>, keys: Seq<u128>, target: FlowId)
    requires
        forall|i: int| 0 <= i < keys.len() ==> #[trigger] keys[i] <= u64::MAX,
        forall|i: int, j: int| 0 <= i < j < keys.len() ==> keys[i] < keys[j],
    ensures
        waiters(waits, keys, target).no_duplicates(),
        forall|a: FlowId| #[trigger]
            waiters(waits, keys, target).contains(a) <==> keys.contains(a.raw as u128)
                && waits[a.raw as u128].target == target,
    decreases keys.len(),
{
    if keys.len() > 0 {
        let fewer = keys.drop_last();
        let rest = waiters(waits, fewer, target);
        lemma_waiters(waits, fewer, target);
        let last = FlowId { raw: keys.last() as u64 };
        assert(keys =~= fewer.push(keys.last()));
        assert(!fewer.contains(keys.last()));
        assert forall|a: FlowId| #[trigger]
            waiters(waits, keys, target).contains(a) <==> keys.contains(a.raw as u128)
                && waits[a.raw as u128].target == target by {
            lemma_push_contains(fewer, keys.last(), a.raw as u128);
            assert(rest.contains(a) <==> fewer.contains(a.raw as u128)
                && waits[a.raw as u128].target == target);
            if rest.contains(a) {
                let i = choose|i: int| 0 <= i < rest.len() && rest[i] == a;
                assert(rest.push(last)[i] == a);
            }
            assert(rest.push(last)[rest.len() as int] == last);
        }
        assert(!rest.contains(last));
    }
}

/// The flows that wait for a target come out once each, all of them and no
/// others. Nobody waits for it after that, so a second call finds nobody, and
/// each of them may wait again where the bound allows it.
pub proof fn waiters_are_taken_once(s: AskState, target: FlowId)
    requires
        s.waits.dom().finite(),
        ids_only(s.waits),
    ensures
        waiters_of(s, target).no_duplicates(),
        forall|a: FlowId| #[trigger]
            waiters_of(s, target).contains(a) <==> ask_target(s, a) == Some(target),
        forall|a: FlowId|
            ask_target(s, a) == Some(target) ==> #[trigger] ask_target(target_gone(s, target), a)
                is None,
        forall|a: FlowId|
            ask_target(s, a) != Some(target) ==> #[trigger] ask_target(target_gone(s, target), a)
                == ask_target(s, a),
        waiters_of(target_gone(s, target), target).len() == 0,
        forall|a: FlowId, b: FlowId, rid: u64|
            ask_target(s, a) == Some(target) ==> !((#[trigger] ask_added(
                target_gone(s, target),
                a,
                b,
                rid,
            )).1 matches Err(AskInsertError::Duplicate)),
{
    key_list_exists(s.waits);
    let keys = sorted_keys(s.waits);
    assert forall|i: int| 0 <= i < keys.len() implies #[trigger] keys[i] <= u64::MAX by {
        assert(keys.contains(keys[i]));
    }
    lemma_waiters(s.waits, keys, target);
    let t = target_gone(s, target);
    assert(t.waits.dom().subset_of(s.waits.dom()));
    key_list_exists(t.waits);
    let left = sorted_keys(t.waits);
    assert forall|i: int| 0 <= i < left.len() implies #[trigger] left[i] <= u64::MAX by {
        assert(left.contains(left[i]));
        assert(s.waits.contains_key(left[i]));
    }
    lemma_waiters(t.waits, left, target);
    let w = waiters_of(t, target);
    if w.len() > 0 {
        assert(w.contains(w[0]));
        assert(left.contains(w[0].raw as u128));
    }
}

/// The index without the waits for `target`.
pub open spec fn target_gone(s: AskState, target: FlowId) -> AskState {
    AskState {
        waits: Map::new(
            |k: u128| s.waits.contains_key(k) && s.waits[k].target != target,
            |k: u128| s.waits[k],
        ),
        ..s
    }
}

/// A flow waits for one reply at a time, the bound is kept, and once a
/// target is gone nobody is recorded as waiting for it.
pub proof fn ask_index_is_consistent(
    s: AskState,
    asker: FlowId,
    target: FlowId,
    other: FlowId,
    rid: u64,
)
    requires
        s.waits.dom().finite(),
        s.max == 0 || s.waits.len() <= s.max,
    ensures
        ({
            let (t, r) = ask_added(s, asker, target, rid);
            &&& r is Ok ==> ask_target(t, asker) == Some(target)
            &&& r is Ok ==> ask_added(t, asker, other, rid).1 == Err::<(), AskInsertError>(
                AskInsertError::Duplicate,
            )
            &&& r is Err ==> t == s
            &&& t.max == 0 || t.waits.len() <= t.max
            &&& r is Ok ==> ask_removed(t, asker) == s
        }),
        ask_target(target_gone(s, target), asker) != Some(target),
        ask_target(s, asker) != Some(target) ==> ask_target(target_gone(s, target), asker)
            == ask_target(s, asker),
{
    if ask_added(s, asker, target, rid).1 is Ok {
        assert(ask_removed(ask_added(s, asker, target, rid).0, asker) =~= s);
    }
}

/// Flows that are parked until a reply comes.
pub struct AskWaitIndex {
    waits: IdMap<AskWait>,
    max: usize,
}

impl View for AskWaitIndex {
    type V = AskState;

    closed spec fn view(&self) -> AskState {
        AskState { waits: self.waits@, max: self.max }
    }
}


impl AskWaitIndex {
    /// Keys are flow ids.
    #[verifier::type_invariant]
    spec fn keyed(&self) -> bool {
        ids_only(self.waits@)
    }

    /// `max_ask_waits` of zero is no bound.
    pub fn new(max_ask_waits: u32) -> (r: Self)
        ensures
            r@ == (AskState { waits: Map::empty(), max: max_ask_waits as usize }),
    {
        AskWaitIndex { waits: IdMap::new(), max: max_ask_waits as usize }
    }

    pub fn insert(&mut self, asker: FlowId, target: FlowId, request_id: u64) -> (r: Result<
        (),
        AskInsertError,
    >)
        ensures
            (final(self)@, r) == ask_added(old(self)@, asker, target, request_id),
    {
        proof {
            use_type_invariant(&*self);
        }
        if self.waits.contains(asker.raw as u128) {
            return Err(AskInsertError::Duplicate);
        }
        let current: usize = self.waits.len();
        if self.max != 0 && current >= self.max {
            return Err(AskInsertError::LimitReached { current, max: self.max });
        }
        let mut waits = IdMap::new();
        std::mem::swap(&mut waits, &mut self.waits);
        let _ = waits.insert(asker.raw as u128, AskWait { target, request_id });
        self.waits = waits;
        Ok(())
    }

    pub fn remove_asker(&mut self, asker: FlowId) -> (r: Option<FlowId>)
        ensures
            r == ask_target(old(self)@, asker),
            final(self)@ == ask_removed(old(self)@, asker),
    {
        proof {
            use_type_invariant(&*self);
        }
        let mut waits = IdMap::new();
        std::mem::swap(&mut waits, &mut self.waits);
        let w = waits.remove(asker.raw as u128);
        self.waits = waits;
        match w {
            Some(w) => Some(w.target),
            None => None,
        }
    }

    /// The flow that `asker` waits for.
    pub fn target_of(&self, asker: FlowId) -> (r: Option<FlowId>)
        ensures
            r == ask_target(self@, asker),
    {
        match self.waits.get(asker.raw as u128) {
            Some(w) => Some(w.target),
            None => None,
        }
    }

    /// Take every flow out that waits for `target`.
    pub fn take_waiters_of(&mut self, target: FlowId) -> (r: Vec<FlowId>)
        ensures
            r@ == waiters_of(old(self)@, target),
            r@.no_duplicates(),
            forall|a: FlowId| #[trigger]
                r@.contains(a) <==> ask_target(old(self)@, a) == Some(target),
            final(self)@ == target_gone(old(self)@, target),
    {
        proof {
            use_type_invariant(&*self);
        }
        let keys = self.waits.keys();
        let mut out: Vec<FlowId> = Vec::new();
        let mut gone: Vec<u128> = Vec::new();
        let mut i: usize = 0;
        while i < keys.len()
            invariant
                *self == *old(self),
                i <= keys@.len(),
                is_key_list(self@.waits, keys@),
                ids_only(self@.waits),
                out@ == waiters(self@.waits, keys@.take(i as int), target),
                forall|k: u128|
                    #[trigger] gone@.contains(k) <==> keys@.take(i as int).contains(k)
                        && self@.waits[k].target == target,
            decreases keys@.len() - i,
        {
            let key: u128 = keys[i];
            assert(keys@.contains(keys@[i as int]));
            let ghost before = gone@;
            let ghost seen = keys@.take(i as int);
            assert(keys@.take(i + 1) =~= seen.push(key));
            assert(keys@.take(i + 1).drop_last() =~= seen);
            if let Some(w) = self.waits.get(key) {
                if w.target == target {
                    gone.push(key);
                    out.push(FlowId { raw: key as u64 });
                }
            }
            proof {
                assert forall|k: u128| #[trigger] gone@.contains(k) <==> keys@.take(
                    i + 1,
                ).contains(k) && self@.waits[k].target == target by {
                    lemma_push_contains(seen, key, k);
                    lemma_push_contains(before, key, k);
                }
            }
            i += 1;
        }
        assert(keys@.take(i as int) =~= keys@);
        proof {
            assert forall|j: int| 0 <= j < keys@.len() implies #[trigger] keys@[j] <= u64::MAX by {
                assert(keys@.contains(keys@[j]));
            }
            lemma_waiters(self@.waits, keys@, target);
        }
        let mut waits = IdMap::new();
        std::mem::swap(&mut waits, &mut self.waits);
        waits.remove_all(&gone);
        self.waits = waits;
        assert(self@.waits =~= target_gone(old(self)@, target).waits);
        out
    }
}

} // verus!
