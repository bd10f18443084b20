//! Supervisors: children that are restarted when they end.
//!
//! A supervisor is not a flow. It hears how its children ended and decides:
//! leave the child, bring it back, or take siblings down first and bring them
//! back together. Too many restarts within a period and it gives up.

use std::sync::Arc;

use vstd::prelude::*;

use crate::bytecode::cap::{rights, CapId, CapRights, RIGHTS_ADDRESSING};
use crate::bytecode::chunk::Chunk;
use crate::bytecode::restart::RestartPolicy;
use crate::bytecode::value::Value;
use crate::idmap::IdMap;
use crate::scheduler::capability::minted;
use crate::scheduler::directory::views;
use crate::scheduler::error::{LifecycleError, RuntimeError, SpawnError};
use crate::scheduler::failure::Failure;
use crate::scheduler::finalize::{killed_out, settled};
use crate::scheduler::mailbox::config::config_ok;
use crate::scheduler::monitor::FlowExitReason;
use crate::scheduler::process::{failed, FlowId, FlowOutcome};
use crate::scheduler::registry::{bounded_register, RegistryName};
use crate::scheduler::runtime::{spawned, SpawnRequest};
use crate::scheduler::shared::{exiting, ChildExit, Shared, SharedState};
use crate::scheduler::worker::fresh_token;
use crate::text::owned;
use crate::vm::native::NativeTable;

verus! {

/// Restarts that are allowed within the period.
pub const DEFAULT_MAX_RESTARTS: u32 = 3;

/// The period, in milliseconds.
pub const DEFAULT_MAX_PERIOD_MS: u64 = 5000;

/// A child: what runs in it and when it comes back.
#[derive(Debug)]
pub struct ChildSpec {
    /// Registered for the child if it is not empty.
    pub name: String,
    pub function: u32,
    pub args: Vec<Value>,
    pub restart: RestartPolicy,
}

/// Model of a [`ChildSpec`].
#[verifier::ext_equal]
pub ghost struct SpecState {
    pub name: Seq<char>,
    pub function: u32,
    pub args: Seq<Value>,
    pub restart: RestartPolicy,
}

impl View for ChildSpec {
    type V = SpecState;

    open spec fn view(&self) -> SpecState {
        SpecState {
            name: self.name@,
            function: self.function,
            args: self.args@,
            restart: self.restart,
        }
    }
}

fn copy_values(v: &Vec<Value>) -> (r: Vec<Value>)
    ensures
        r@ == v@,
{
    let mut out: Vec<Value> = Vec::new();
    let mut k: usize = 0;
    while k < v.len()
        invariant
            k <= v@.len(),
            out@ == v@.take(k as int),
        decreases v@.len() - k,
    {
        out.push(v[k].clone());
        assert(v@.take(k + 1) =~= v@.take(k as int).push(v@[k as int]));
        k += 1;
    }
    assert(v@.take(k as int) =~= v@);
    out
}

impl Clone for ChildSpec {
    fn clone(&self) -> (r: Self)
        ensures
            r@ == self@,
    {
        ChildSpec {
            name: owned(self.name.as_str()),
            function: self.function,
            args: copy_values(&self.args),
            restart: self.restart,
        }
    }
}

impl ChildSpec {
    /// A child without arguments that comes back when it fails.
    pub fn new(name: &str, function: u32) -> (r: Self)
        ensures
            r@ == (SpecState {
                name: name@,
                function,
                args: Seq::empty(),
                restart: RestartPolicy::OnFailure,
            }),
    {
        ChildSpec {
            name: owned(name),
            function,
            args: Vec::new(),
            restart: RestartPolicy::OnFailure,
        }
    }

    pub fn args(self, args: Vec<Value>) -> (r: Self)
        ensures
            r@ == (SpecState { args: args@, ..self@ }),
    {
        ChildSpec { name: self.name, function: self.function, args, restart: self.restart }
    }

    pub fn restart(self, restart: RestartPolicy) -> (r: Self)
        ensures
            r@ == (SpecState { restart, ..self@ }),
    {
        ChildSpec { name: self.name, function: self.function, args: self.args, restart }
    }
}

/// Which siblings go down and come back with a child.
#[derive(Clone, Copy, Debug, PartialEq, Eq, Structural)]
pub enum RestartStrategy {
    OneForOne,
    /// Every sibling; all come back in the order they were started in.
    OneForAll,
    /// Those that were started after the child.
    RestForOne,
}

/// Settings of a supervisor.
#[derive(Clone, Copy, Debug, PartialEq, Eq, Structural)]
pub struct SupervisorConfig {
    /// Restarts that are allowed within the period. Bringing several
    /// children back together counts once.
    pub max_restarts: u32,
    /// The period, in milliseconds.
    pub max_period: u64,
    pub strategy: RestartStrategy,
}

impl Default for SupervisorConfig {
    fn default() -> (r: Self)
        ensures
            r == (SupervisorConfig {
                max_restarts: DEFAULT_MAX_RESTARTS,
                max_period: DEFAULT_MAX_PERIOD_MS,
                strategy: RestartStrategy::OneForOne,
            }),
    {
        SupervisorConfig {
            max_restarts: DEFAULT_MAX_RESTARTS,
            max_period: DEFAULT_MAX_PERIOD_MS,
            strategy: RestartStrategy::OneForOne,
        }
    }
}

/// A child that ended this way is to come back.
pub open spec fn comes_back(policy: RestartPolicy, outcome: FlowOutcome) -> bool {
    match policy {
        RestartPolicy::Always => true,
        RestartPolicy::OnFailure => outcome is Failed,
        RestartPolicy::Never => false,
    }
}

/// Whether a child that ended this way is to come back.
pub fn should_restart(policy: RestartPolicy, outcome: &FlowOutcome) -> (r: bool)
    ensures
        r == comes_back(policy, *outcome),
{
    match policy {
        RestartPolicy::Always => true,
        RestartPolicy::OnFailure => match outcome {
            FlowOutcome::Failed(_) => true,
            FlowOutcome::Completed(_) => false,
        },
        RestartPolicy::Never => false,
    }
}

/// A child that runs.
pub struct LiveChild {
    pub spec: ChildSpec,
    /// The supervisor takes it down itself.
    pub expected_shutdown: bool,
}

/// Model of a [`LiveChild`].
#[verifier::ext_equal]
pub ghost struct LiveState {
    pub spec: SpecState,
    pub expected: bool,
}

impl View for LiveChild {
    type V = LiveState;

    open spec fn view(&self) -> LiveState {
        LiveState { spec: self.spec@, expected: self.expected_shutdown }
    }
}

/// A restart of several children that waits for siblings to go down.
pub struct Cascade {
    pub waiting: Vec<FlowId>,
    pub specs: Vec<ChildSpec>,
}

/// Model of a [`Cascade`].
#[verifier::ext_equal]
pub ghost struct CascadeState {
    pub waiting: Seq<FlowId>,
    pub specs: Seq<SpecState>,
}

/// Models of a list of children.
pub open spec fn spec_states(s: Seq<ChildSpec>) -> Seq<SpecState> {
    Seq::new(s.len(), |i: int| s[i]@)
}

impl View for Cascade {
    type V = CascadeState;

    open spec fn view(&self) -> CascadeState {
        CascadeState { waiting: self.waiting@, specs: spec_states(self.specs@) }
    }
}

/// Model of an optional cascade.
pub open spec fn cascade_view(c: Option<Cascade>) -> Option<CascadeState> {
    match c {
        Some(x) => Some(x@),
        None => None,
    }
}

/// A supervisor.
pub struct Supervisor {
    /// Names it in the notices of the runtime.
    pub number: u64,
    pub config: SupervisorConfig,
    pub chunk: Arc<Chunk>,
    pub natives: Arc<NativeTable>,
    pub by_id: IdMap<LiveChild>,
    /// The children in the order they were started in.
    pub order: Vec<FlowId>,
    pub cascade: Option<Cascade>,
    /// When children were brought back, oldest first.
    pub restart_times: Vec<u64>,
    pub gave_up: bool,
    /// Children that could not be brought back.
    pub respawn_failures: u64,
}

/// Model of a [`Supervisor`].
#[verifier::ext_equal]
pub ghost struct SupState {
    pub number: u64,
    pub config: SupervisorConfig,
    pub chunk: Chunk,
    pub natives: NativeTable,
    pub live: Map<u128, LiveState>,
    pub order: Seq<FlowId>,
    pub cascade: Option<CascadeState>,
    pub times: Seq<u64>,
    pub gave_up: bool,
    pub respawn_failures: u64,
}

impl View for Supervisor {
    type V = SupState;

    open spec fn view(&self) -> SupState {
        SupState {
            number: self.number,
            config: self.config,
            chunk: *self.chunk,
            natives: *self.natives,
            live: views(self.by_id@),
            order: self.order@,
            cascade: cascade_view(self.cascade),
            times: self.restart_times@,
            gave_up: self.gave_up,
            respawn_failures: self.respawn_failures,
        }
    }
}

/// `s` without `id`.
pub open spec fn except(s: Seq<FlowId>, id: FlowId) -> Seq<FlowId>
    decreases s.len(),
{
    if s.len() == 0 {
        s
    } else {
        let rest = except(s.drop_last(), id);
        if s.last() == id {
            rest
        } else {
            rest.push(s.last())
        }
    }
}

fn without_id(s: &Vec<FlowId>, id: FlowId) -> (r: Vec<FlowId>)
    ensures
        r@ == except(s@, id),
{
    let mut out: Vec<FlowId> = Vec::new();
    let mut k: usize = 0;
    assert(s@.take(0) =~= Seq::<FlowId>::empty());
    while k < s.len()
        invariant
            k <= s@.len(),
            out@ == except(s@.take(k as int), id),
        decreases s@.len() - k,
    {
        assert(s@.take(k + 1).drop_last() =~= s@.take(k as int));
        if s[k] != id {
            out.push(s[k]);
        }
        k += 1;
    }
    assert(s@.take(k as int) =~= s@);
    out
}

/// The first position of `id` from `from` on.
pub open spec fn position(s: Seq<FlowId>, id: FlowId, from: nat) -> Option<nat>
    decreases s.len() - from,
{
    if from >= s.len() {
        None
    } else if s[from as int] == id {
        Some(from)
    } else {
        position(s, id, from + 1)
    }
}

fn find_position(s: &Vec<FlowId>, id: FlowId) -> (r: Option<usize>)
    ensures
        match r {
            Some(k) => position(s@, id, 0) == Some(k as nat),
            None => position(s@, id, 0) is None,
        },
{
    let mut k: usize = 0;
    while k < s.len()
        invariant
            k <= s@.len(),
            position(s@, id, 0) == position(s@, id, k as nat),
        decreases s@.len() - k,
    {
        if s[k] == id {
            return Some(k);
        }
        k += 1;
    }
    None
}

/// The restart times that still count at `now`: those not before `start`.
pub open spec fn still_counting(times: Seq<u64>, start: u64) -> Seq<u64>
    decreases times.len(),
{
    if times.len() > 0 && times[0] < start {
        still_counting(times.drop_first(), start)
    } else {
        times
    }
}

/// The start of the period that ends at `now`; the start of the clock if it
/// is younger than the period.
pub open spec fn period_start(now: u64, period: u64) -> u64 {
    if now >= period {
        (now - period) as u64
    } else {
        0
    }
}

/// The restart times after one more restart was asked for at `now`.
pub open spec fn restart_noted(s: SupState, now: u64) -> Seq<u64> {
    still_counting(s.times.push(now), period_start(now, s.config.max_period))
}

/// A restart at `now` would be one too many.
pub open spec fn too_many(s: SupState, now: u64) -> bool {
    restart_noted(s, now).len() > s.config.max_restarts
}

/// Siblings that go down with a child that was at position `at` of the
/// order; `rest` is the order without it.
pub open spec fn siblings(strategy: RestartStrategy, rest: Seq<FlowId>, at: Option<nat>) -> Seq<FlowId> {
    match (strategy, at) {
        (RestartStrategy::OneForAll, _) => rest,
        (RestartStrategy::RestForOne, Some(i)) => if i <= rest.len() {
            rest.skip(i as int)
        } else {
            Seq::empty()
        },
        _ => Seq::empty(),
    }
}

/// The live children with the listed ones marked as going down.
pub open spec fn marked_down(live: Map<u128, LiveState>, ids: Seq<FlowId>, n: nat) -> Map<
    u128,
    LiveState,
>
    decreases n,
{
    if n == 0 {
        live
    } else {
        let m = marked_down(live, ids, (n - 1) as nat);
        let k = ids[n - 1].raw as u128;
        if m.contains_key(k) {
            m.insert(k, LiveState { expected: true, ..m[k] })
        } else {
            m
        }
    }
}

/// What runs in the first `n` of the listed children, as far as they live.
pub open spec fn listed_specs(live: Map<u128, LiveState>, ids: Seq<FlowId>, n: nat) -> Seq<SpecState>
    decreases n,
{
    if n == 0 {
        Seq::empty()
    } else {
        let rest = listed_specs(live, ids, (n - 1) as nat);
        let k = ids[n - 1].raw as u128;
        if live.contains_key(k) {
            rest.push(live[k].spec)
        } else {
            rest
        }
    }
}

/// What a supervisor decided.
pub enum Decision {
    Nothing,
    /// Bring one child back.
    Respawn(ChildSpec),
    /// Take these down; a cascade waits for them.
    TakeDown(Vec<FlowId>),
    /// The cascade is complete: bring these back.
    Restart(Vec<ChildSpec>),
}

/// Model of a [`Decision`].
pub ghost enum Verdict {
    Nothing,
    Respawn(SpecState),
    TakeDown(Seq<FlowId>),
    Restart(Seq<SpecState>),
}

impl View for Decision {
    type V = Verdict;

    open spec fn view(&self) -> Verdict {
        match *self {
            Decision::Nothing => Verdict::Nothing,
            Decision::Respawn(s) => Verdict::Respawn(s@),
            Decision::TakeDown(ids) => Verdict::TakeDown(ids@),
            Decision::Restart(specs) => Verdict::Restart(spec_states(specs@)),
        }
    }
}

/// A child that was being taken down is gone.
pub open spec fn cascade_progress(s: SupState, id: FlowId) -> (SupState, Verdict) {
    match s.cascade {
        None => (s, Verdict::Nothing),
        Some(c) => {
            let waiting = except(c.waiting, id);
            if waiting.len() == 0 {
                (SupState { cascade: None, ..s }, Verdict::Restart(c.specs))
            } else {
                (
                    SupState { cascade: Some(CascadeState { waiting, ..c }), ..s },
                    Verdict::Nothing,
                )
            }
        },
    }
}

/// The children that come back together with a child that was at position
/// `at`, in start order.
pub open spec fn cascade_specs(
    strategy: RestartStrategy,
    failed_spec: SpecState,
    at: nat,
    later: Seq<SpecState>,
) -> Option<Seq<SpecState>> {
    match strategy {
        RestartStrategy::OneForAll => if at > later.len() {
            None
        } else {
            Some(later.insert(at as int, failed_spec))
        },
        RestartStrategy::RestForOne => Some(seq![failed_spec] + later),
        RestartStrategy::OneForOne => Some(seq![failed_spec]),
    }
}

/// Siblings are to go down before the children come back.
pub open spec fn cascade_begun(
    s: SupState,
    failed_spec: SpecState,
    at: Option<nat>,
    later: Seq<FlowId>,
) -> (SupState, Verdict) {
    match at {
        None => (s, Verdict::Nothing),
        Some(i) => {
            let t = SupState { live: marked_down(s.live, later, later.len()), ..s };
            match cascade_specs(
                s.config.strategy,
                failed_spec,
                i,
                listed_specs(s.live, later, later.len()),
            ) {
                None => (t, Verdict::Nothing),
                Some(specs) => (
                    SupState { cascade: Some(CascadeState { waiting: later, specs }), ..t },
                    Verdict::TakeDown(later),
                ),
            }
        },
    }
}

/// What a supervisor decides when child `id` ended.
pub open spec fn decided(
    s: SupState,
    id: FlowId,
    outcome: FlowOutcome,
    restart: RestartPolicy,
    now: u64,
) -> (SupState, Verdict) {
    let k = id.raw as u128;
    let at = position(s.order, id, 0);
    let rest = except(s.order, id);
    if !s.live.contains_key(k) {
        (SupState { order: rest, ..s }, Verdict::Nothing)
    } else {
        let child = s.live[k];
        let t = SupState { order: rest, live: s.live.remove(k), ..s };
        if child.expected {
            cascade_progress(t, id)
        } else if !comes_back(restart, outcome) || t.gave_up {
            (t, Verdict::Nothing)
        } else {
            let u = SupState { times: restart_noted(t, now), gave_up: too_many(t, now), ..t };
            if too_many(t, now) {
                (u, Verdict::Nothing)
            } else if t.config.strategy is OneForOne {
                (u, Verdict::Respawn(child.spec))
            } else {
                cascade_begun(u, child.spec, at, siblings(t.config.strategy, rest, at))
            }
        }
    }
}

proof fn lemma_position(s: Seq<FlowId>, id: FlowId, from: nat)
    ensures
        match position(s, id, from) {
            Some(i) => from <= i < s.len() && s[i as int] == id && forall|j: int|
                from <= j < i ==> s[j] != id,
            None => forall|j: int| from <= j < s.len() ==> s[j] != id,
        },
    decreases s.len() - from,
{
    if from < s.len() && s[from as int] != id {
        lemma_position(s, id, from + 1);
    }
}

proof fn lemma_except_absent(s: Seq<FlowId>, id: FlowId)
    requires
        forall|j: int| 0 <= j < s.len() ==> s[j] != id,
    ensures
        except(s, id) == s,
    decreases s.len(),
{
    if s.len() > 0 {
        let t = s.drop_last();
        assert forall|j: int| 0 <= j < t.len() implies t[j] != id by {
            assert(t[j] == s[j]);
        }
        lemma_except_absent(t, id);
        assert(except(s, id) =~= s);
    }
}

proof fn lemma_except_at(s: Seq<FlowId>, id: FlowId, i: int)
    requires
        0 <= i < s.len(),
        s[i] == id,
        s.no_duplicates(),
    ensures
        except(s, id) == s.remove(i),
    decreases s.len(),
{
    let t = s.drop_last();
    if i == s.len() - 1 {
        assert forall|j: int| 0 <= j < t.len() implies t[j] != id by {
            assert(s[j] != s[i]);
        }
        lemma_except_absent(t, id);
        assert(except(s, id) =~= s.remove(i));
    } else {
        assert(t.no_duplicates()) by {
            assert forall|a: int, b: int| 0 <= a < t.len() && 0 <= b < t.len() && a != b implies t[a]
                != t[b] by {
                assert(s[a] != s[b]);
            }
        }
        lemma_except_at(t, id, i);
        assert(s.last() != id);
        assert(except(s, id) =~= s.remove(i));
    }
}

proof fn lemma_listed(live: Map<u128, LiveState>, ids: Seq<FlowId>, n: nat)
    requires
        n <= ids.len(),
        forall|j: int| 0 <= j < ids.len() ==> live.contains_key((#[trigger] ids[j]).raw as u128),
    ensures
        listed_specs(live, ids, n).len() == n,
        forall|j: int|
            0 <= j < n ==> #[trigger] listed_specs(live, ids, n)[j] == live[ids[j].raw as u128].spec,
    decreases n,
{
    if n > 0 {
        lemma_listed(live, ids, (n - 1) as nat);
        assert(live.contains_key(ids[n - 1].raw as u128));
    }
}

/// The table and the start order name the same children, once each.
pub open spec fn order_sound(s: SupState) -> bool {
    &&& s.order.no_duplicates()
    &&& forall|j: int| 0 <= j < s.order.len() ==> s.live.contains_key(
        (#[trigger] s.order[j]).raw as u128,
    )
}

/// When all come back together, they are all the children, each where it was
/// in the start order. When the rest does, it is the child and those that
/// were started after it. Nobody else is taken down.
pub proof fn cascade_keeps_start_order(
    s: SupState,
    id: FlowId,
    i: int,
    outcome: FlowOutcome,
    restart: RestartPolicy,
    now: u64,
)
    requires
        order_sound(s),
        0 <= i < s.order.len(),
        s.order[i] == id,
        decided(s, id, outcome, restart, now).1 is TakeDown,
        !(s.config.strategy is OneForOne),
    ensures
        ({
            let (t, v) = decided(s, id, outcome, restart, now);
            let from = if s.config.strategy is OneForAll {
                0
            } else {
                i
            };
            let specs = t.cascade->Some_0.specs;
            &&& t.cascade is Some
            &&& specs.len() == s.order.len() - from
            &&& forall|j: int|
                0 <= j < specs.len() ==> (#[trigger] specs[j]) == s.live[s.order[from
                    + j].raw as u128].spec
            &&& v->TakeDown_0 == s.order.remove(i).skip(from)
        }),
{
    lemma_position(s.order, id, 0);
    let p = position(s.order, id, 0)->Some_0;
    assert(p == i) by {
        if p != i {
            assert(s.order[p as int] != s.order[i]);
        }
    }
    lemma_except_at(s.order, id, i);
    let rest = s.order.remove(i);
    let later = siblings(s.config.strategy, rest, Some(p));
    let live = s.live.remove(id.raw as u128);
    if s.config.strategy is OneForAll {
        assert(rest.skip(0) =~= rest);
    }
    assert forall|j: int| 0 <= j < later.len() implies live.contains_key(
        (#[trigger] later[j]).raw as u128,
    ) by {
        let from = if s.config.strategy is OneForAll { 0int } else { i };
        let q = if from + j < i { from + j } else { from + j + 1 };
        assert(later[j] == s.order[q]);
        assert(s.order[q] != s.order[i]);
    }
    lemma_listed(live, later, later.len());
    let (t, v) = decided(s, id, outcome, restart, now);
    let specs = t.cascade->Some_0.specs;
    let from = if s.config.strategy is OneForAll { 0int } else { i };
    assert forall|j: int| 0 <= j < specs.len() implies (#[trigger] specs[j]) == s.live[s.order[from
        + j].raw as u128].spec by {
        let listed = listed_specs(live, later, later.len());
        if s.config.strategy is OneForAll {
            if j < i {
                assert(specs[j] == listed[j]);
                assert(later[j] == s.order[j]);
            } else if j > i {
                assert(specs[j] == listed[j - 1]);
                assert(later[j - 1] == s.order[j]);
            }
        } else if j > 0 {
            assert(specs[j] == listed[j - 1]);
            assert(later[j - 1] == s.order[i + j]);
        }
    }
}

proof fn lemma_counting(times: Seq<u64>, start: u64)
    ensures
        still_counting(times, start).len() <= times.len(),
    decreases times.len(),
{
    if times.len() > 0 && times[0] < start {
        lemma_counting(times.drop_first(), start);
    }
}

/// A supervisor brings children back only while the restarts of the period
/// are within bounds, and never again once it gave up.
pub proof fn restarts_are_bounded(
    s: SupState,
    id: FlowId,
    outcome: FlowOutcome,
    restart: RestartPolicy,
    now: u64,
)
    ensures
        ({
            let (t, v) = decided(s, id, outcome, restart, now);
            &&& v is Respawn || v is TakeDown ==> !s.gave_up && !t.gave_up && t.times.len()
                <= s.config.max_restarts
            &&& s.gave_up ==> t.gave_up && !(v is Respawn) && !(v is TakeDown)
            &&& s.config.strategy is OneForOne ==> !(v is TakeDown)
            &&& v is Respawn || v is TakeDown ==> comes_back(restart, outcome)
        }),
{
    let k = id.raw as u128;
    if s.live.contains_key(k) {
        let t = SupState { order: except(s.order, id), live: s.live.remove(k), ..s };
        lemma_counting(t.times.push(now), period_start(now, s.config.max_period));
    }
}

/// Of the restarts noted so far, in their order, those from `m` on are within
/// the period that ends at `now`, and those before are not.
pub open spec fn recent_from(s: SupState, now: u64, m: int) -> bool {
    &&& 0 <= m <= s.times.len()
    &&& forall|j: int| 0 <= j < m ==> s.times[j] + s.config.max_period < now
    &&& forall|j: int| m <= j < s.times.len() ==> s.times[j] + s.config.max_period >= now
}

proof fn lemma_recent(times: Seq<u64>, start: u64, m: int)
    requires
        0 <= m <= times.len(),
        forall|j: int| 0 <= j < m ==> times[j] < start,
        m < times.len() ==> times[m] >= start,
    ensures
        still_counting(times, start) == times.skip(m),
    decreases times.len(),
{
    if m > 0 {
        lemma_recent(times.drop_first(), start, m - 1);
        assert(times.drop_first().skip(m - 1) =~= times.skip(m));
    } else {
        assert(times.skip(0) =~= times);
    }
}

/// A child that ended unexpectedly comes back if its policy asks for that and
/// the period has room for one more restart; alone, it comes back as exactly
/// what it was started as. Where there is no room the supervisor gives up.
/// A child that is not to come back costs nothing.
pub proof fn a_child_comes_back_as_it_was(
    s: SupState,
    id: FlowId,
    m: int,
    outcome: FlowOutcome,
    restart: RestartPolicy,
    now: u64,
)
    requires
        s.live.contains_key(id.raw as u128),
        !s.live[id.raw as u128].expected,
        !s.gave_up,
        recent_from(s, now, m),
    ensures
        ({
            let (t, v) = decided(s, id, outcome, restart, now);
            let was = s.live[id.raw as u128].spec;
            let wanted = restart is Always || (restart is OnFailure && outcome is Failed);
            let room = s.times.len() - m + 1 <= s.config.max_restarts;
            &&& !wanted ==> v is Nothing && !t.gave_up && t.times == s.times
            &&& wanted && !room ==> v is Nothing && t.gave_up
            &&& wanted && room ==> !t.gave_up && t.times == s.times.skip(m).push(now)
            &&& wanted && room && s.config.strategy is OneForOne ==> {
                &&& v is Respawn
                &&& v->Respawn_0.name == was.name
                &&& v->Respawn_0.function == was.function
                &&& v->Respawn_0.restart == was.restart
                &&& v->Respawn_0.args == was.args
            }
            &&& wanted && room && !(s.config.strategy is OneForOne) && order_sound(s)
                && s.order.contains(id) ==> v is TakeDown
            &&& !(v is TakeDown) && order_sound(s) && s.order.contains(id) ==> t.live
                == s.live.remove(id.raw as u128) && t.cascade == s.cascade
            &&& t.config == s.config
            &&& t.chunk == s.chunk
            &&& t.natives == s.natives
            &&& t.number == s.number
            &&& t.respawn_failures == s.respawn_failures
        }),
{
    let start = period_start(now, s.config.max_period);
    let noted = s.times.push(now);
    lemma_recent(noted, start, m);
    assert(noted.skip(m) =~= s.times.skip(m).push(now));
    lemma_position(s.order, id, 0);
    if order_sound(s) && s.order.contains(id) {
        let i = s.order.index_of(id);
        lemma_except_at(s.order, id, i);
        let p = position(s.order, id, 0)->Some_0;
        assert(p == i) by {
            if p != i {
                assert(s.order[p as int] != s.order[i]);
            }
        }
        let rest = s.order.remove(i);
        let later = siblings(s.config.strategy, rest, Some(p));
        let live = s.live.remove(id.raw as u128);
        assert forall|j: int| 0 <= j < later.len() implies live.contains_key(
            (#[trigger] later[j]).raw as u128,
        ) by {
            let from = if s.config.strategy is OneForAll { 0int } else { i };
            let q = if from + j < i { from + j } else { from + j + 1 };
            assert(later[j] == s.order[q]);
            assert(s.order[q] != s.order[i]);
        }
        lemma_listed(live, later, later.len());
    }
}

/// What the supervisor does not look after does not move it, and once it gave
/// up it brings nobody back.
pub proof fn strangers_are_ignored(
    s: SupState,
    id: FlowId,
    outcome: FlowOutcome,
    restart: RestartPolicy,
    now: u64,
)
    requires
        !s.live.contains_key(id.raw as u128) || (s.gave_up
            && !s.live[id.raw as u128].expected),
    ensures
        ({
            let (t, v) = decided(s, id, outcome, restart, now);
            &&& v is Nothing
            &&& t.live == s.live.remove(id.raw as u128)
            &&& t.cascade == s.cascade
            &&& t.times == s.times
            &&& t.gave_up == s.gave_up
        }),
{
    assert(!s.live.contains_key(id.raw as u128) ==> s.live.remove(id.raw as u128) =~= s.live);
}

proof fn lemma_except(s: Seq<FlowId>, id: FlowId)
    ensures
        forall|x: FlowId| #[trigger] except(s, id).contains(x) <==> s.contains(x) && x != id,
    decreases s.len(),
{
    if s.len() > 0 {
        lemma_except(s.drop_last(), id);
        let rest = except(s.drop_last(), id);
        let all = except(s, id);
        assert forall|x: FlowId| #[trigger] all.contains(x) <==> s.contains(x) && x != id by {
            if s.contains(x) && x != id {
                let j = s.index_of(x);
                if j < s.len() - 1 {
                    assert(s.drop_last()[j] == x);
                    assert(rest.contains(x));
                    let q = rest.index_of(x);
                    assert(all[q] == x);
                } else {
                    assert(all.last() == x);
                }
            }
            if all.contains(x) {
                let q = all.index_of(x);
                if q < rest.len() {
                    assert(rest[q] == x);
                    assert(rest.contains(x));
                    assert(s.drop_last().contains(x));
                    let j = s.drop_last().index_of(x);
                    assert(s[j] == x);
                } else {
                    assert(s.last() == x);
                }
            }
        }
    }
}

/// While siblings go down the supervisor waits for each of them. When the
/// last one is gone it brings back the children that it noted, as they were.
pub proof fn a_cascade_waits_for_all(
    s: SupState,
    id: FlowId,
    outcome: FlowOutcome,
    restart: RestartPolicy,
    now: u64,
)
    requires
        s.live.contains_key(id.raw as u128),
        s.live[id.raw as u128].expected,
        s.cascade is Some,
    ensures
        ({
            let (t, v) = decided(s, id, outcome, restart, now);
            let c = s.cascade->Some_0;
            let last = forall|x: FlowId| #[trigger] c.waiting.contains(x) ==> x == id;
            &&& last ==> v == Verdict::Restart(c.specs) && t.cascade is None
            &&& !last ==> v is Nothing && t.cascade is Some && t.cascade->Some_0.specs == c.specs
                && forall|x: FlowId| #[trigger]
                t.cascade->Some_0.waiting.contains(x) <==> c.waiting.contains(x) && x != id
            &&& t.live == s.live.remove(id.raw as u128)
            &&& t.times == s.times
            &&& t.gave_up == s.gave_up
        }),
{
    let c = s.cascade->Some_0;
    lemma_except(c.waiting, id);
    let waiting = except(c.waiting, id);
    if waiting.len() > 0 {
        assert(waiting.contains(waiting[0]));
        assert(c.waiting.contains(waiting[0]));
    } else if exists|x: FlowId| #[trigger] c.waiting.contains(x) && x != id {
        let x = choose|x: FlowId| #[trigger] c.waiting.contains(x) && x != id;
        assert(waiting.contains(x));
    }
}

proof fn lemma_marked(live: Map<u128, LiveState>, ids: Seq<FlowId>, n: nat)
    requires
        n <= ids.len(),
    ensures
        marked_down(live, ids, n).dom() == live.dom(),
        forall|k: u128|
            live.contains_key(k) ==> (#[trigger] marked_down(live, ids, n)[k]).spec == live[k].spec,
        forall|j: int|
            0 <= j < n && live.contains_key((#[trigger] ids[j]).raw as u128) ==> marked_down(
                live,
                ids,
                n,
            )[ids[j].raw as u128].expected,
        forall|k: u128|
            live.contains_key(k) && (forall|j: int| 0 <= j < n ==> (#[trigger] ids[j]).raw as u128 != k)
                ==> #[trigger] marked_down(live, ids, n)[k] == live[k],
    decreases n,
{
    if n > 0 {
        lemma_marked(live, ids, (n - 1) as nat);
        let m = marked_down(live, ids, (n - 1) as nat);
        assert(marked_down(live, ids, n).dom() =~= live.dom());
        assert forall|k: u128|
            live.contains_key(k) && (forall|j: int| 0 <= j < n ==> (#[trigger] ids[j]).raw as u128 != k)
            implies #[trigger] marked_down(live, ids, n)[k] == live[k] by {
            assert(ids[n - 1].raw as u128 != k);
            assert(m[k] == live[k]);
        }
    }
}

/// Siblings that are taken down are known to go: the supervisor does not take
/// their end for a failure. Those that stay are left as they are.
pub proof fn siblings_are_expected_to_go(
    s: SupState,
    id: FlowId,
    outcome: FlowOutcome,
    restart: RestartPolicy,
    now: u64,
    k: u128,
)
    requires
        decided(s, id, outcome, restart, now).1 is TakeDown,
        s.live.contains_key(k),
        k != id.raw as u128,
    ensures
        ({
            let (t, v) = decided(s, id, outcome, restart, now);
            let goes = exists|j: int|
                0 <= j < v->TakeDown_0.len() && (#[trigger] v->TakeDown_0[j]).raw as u128 == k;
            &&& t.live.contains_key(k)
            &&& t.live[k].spec == s.live[k].spec
            &&& t.live[k].expected == (goes || s.live[k].expected)
            &&& t.cascade is Some
            &&& t.cascade->Some_0.waiting == v->TakeDown_0
        }),
{
    let at = position(s.order, id, 0);
    let rest = except(s.order, id);
    let later = siblings(s.config.strategy, rest, at);
    let live = s.live.remove(id.raw as u128);
    lemma_marked(live, later, later.len());
    let (t, v) = decided(s, id, outcome, restart, now);
    assert(v->TakeDown_0 == later);
    assert(t.live == marked_down(live, later, later.len()));
    assert(live.contains_key(k));
    if exists|j: int| 0 <= j < later.len() && (#[trigger] later[j]).raw as u128 == k {
        let j = choose|j: int| 0 <= j < later.len() && (#[trigger] later[j]).raw as u128 == k;
        assert(t.live[later[j].raw as u128].expected);
    }
}

/// A child that ended, and when.
pub ghost struct Ending {
    pub id: FlowId,
    pub outcome: FlowOutcome,
    pub restart: RestartPolicy,
    pub now: u64,
}

/// What a supervisor decides on an ending.
pub open spec fn ended(s: SupState, e: Ending) -> (SupState, Verdict) {
    decided(s, e.id, e.outcome, e.restart, e.now)
}

/// Whether an ending makes a supervisor bring children back.
pub open spec fn brings_back(s: SupState, e: Ending) -> bool {
    ended(s, e).1 is Respawn || ended(s, e).1 is TakeDown
}

/// A supervisor from its start on: it sees one ending after another, on a
/// clock that does not go back. What happens in between, such as the start of
/// a child, leaves the restarts alone.
pub open spec fn is_history(states: Seq<SupState>, ends: Seq<Ending>) -> bool {
    &&& states.len() == ends.len() + 1
    &&& states[0].times.len() == 0
    &&& forall|i: int|
        #![trigger ends[i]]
        0 <= i < ends.len() ==> {
            let t = ended(states[i], ends[i]).0;
            &&& states[i + 1].times == t.times
            &&& states[i + 1].gave_up == t.gave_up
            &&& states[i + 1].config == t.config
        }
    &&& forall|i: int, j: int| 0 <= i <= j < ends.len() ==> ends[i].now <= ends[j].now
}

/// How often children are brought back from ending `a` on and before
/// ending `b`.
pub open spec fn restarts_in(states: Seq<SupState>, ends: Seq<Ending>, a: int, b: int) -> nat
    decreases b - a,
{
    if b <= a {
        0
    } else {
        restarts_in(states, ends, a, b - 1) + if brings_back(states[b - 1], ends[b - 1]) {
            1nat
        } else {
            0nat
        }
    }
}

/// Forgetting old times takes them from the front.
proof fn lemma_suffix_counts(times: Seq<u64>, start: u64, c: nat) -> (m: nat)
    requires
        c <= times.len(),
        forall|i: int| times.len() - c <= i < times.len() ==> times[i] >= start,
    ensures
        m + c <= times.len(),
        still_counting(times, start) == times.skip(m as int),
    decreases times.len(),
{
    if times.len() > 0 && times[0] < start {
        let n = lemma_suffix_counts(times.drop_first(), start, c);
        assert(times.drop_first().skip(n as int) =~= times.skip((n + 1) as int));
        n + 1
    } else {
        assert(times.skip(0) =~= times);
        0
    }
}

/// The restarts since ending `a` are still counted while it is within the
/// period.
proof fn lemma_still_counted(states: Seq<SupState>, ends: Seq<Ending>, a: int, b: int)
    requires
        is_history(states, ends),
        0 <= a <= b <= ends.len(),
        a < b ==> ends[a].now >= period_start(ends[b - 1].now, states[0].config.max_period),
    ensures
        states[b].config == states[0].config,
        restarts_in(states, ends, a, b) <= states[b].times.len(),
        forall|i: int|
            states[b].times.len() - restarts_in(states, ends, a, b) <= i < states[b].times.len()
                ==> states[b].times[i] >= ends[a].now,
    decreases b,
{
    if b > a {
        lemma_still_counted(states, ends, a, b - 1);
        let s = states[b - 1];
        let e = ends[b - 1];
        let c = restarts_in(states, ends, a, b - 1);
        let noted = s.times.push(e.now);
        let start = period_start(e.now, s.config.max_period);
        if ended(s, e).0.times != s.times || brings_back(s, e) {
            let m = lemma_suffix_counts(noted, start, c + 1);
            assert(states[b].times == noted.skip(m as int));
        }
    } else if b > 0 {
        lemma_still_counted(states, ends, b - 1, b - 1);
        assert(ends[b - 1].now <= ends[b - 1].now);
    }
}

/// However a supervisor runs, it brings children back at most `max_restarts`
/// times within any stretch of `max_period`.
pub proof fn restarts_fit_the_period(states: Seq<SupState>, ends: Seq<Ending>, a: int, b: int)
    requires
        is_history(states, ends),
        0 <= a <= b < ends.len(),
        brings_back(states[b], ends[b]),
        ends[b].now - ends[a].now <= states[0].config.max_period,
    ensures
        restarts_in(states, ends, a, b + 1) <= states[0].config.max_restarts,
{
    lemma_still_counted(states, ends, a, b + 1);
    lemma_still_counted(states, ends, a, b);
}

/// The request that brings a child up.
pub open spec fn request_for(s: SupState, spec: SpecState, req: SpawnRequest) -> bool {
    &&& *req.chunk == s.chunk
    &&& *req.natives == s.natives
    &&& req.function == spec.function
    &&& req.restart_policy == spec.restart
    &&& req.supervisor == Some(s.number)
}

/// The supervisor with one more child.
pub open spec fn child_added(s: SupState, id: FlowId, spec: SpecState) -> SupState {
    SupState {
        live: s.live.insert(id.raw as u128, LiveState { spec, expected: false }),
        order: s.order.push(id),
        ..s
    }
}

/// The supervisor that takes child `id` down itself.
pub open spec fn child_condemned(s: SupState, id: FlowId) -> SupState {
    let k = id.raw as u128;
    if s.live.contains_key(k) {
        SupState {
            live: s.live.insert(k, LiveState { expected: true, ..s.live[k] }),
            ..s
        }
    } else {
        s
    }
}

/// The state after a kill was asked for, before it is worked off.
pub open spec fn kill_asked(s: SharedState, id: FlowId, reason: FlowExitReason) -> SharedState {
    match killed_out(s, id, reason) {
        (t, Some(f)) => exiting(t, f, failed(Failure::Killed(reason)), reason),
        (t, None) => t,
    }
}

/// The answer to a name that could not be registered.
pub open spec fn name_refusal(name: Seq<char>, e: LifecycleError, r: Result<FlowId, SpawnError>) -> bool {
    match e {
        LifecycleError::AlreadyRegistered => r matches Err(SpawnError::NameTaken { name: n }) && n@
            == name,
        _ => r == Err::<FlowId, SpawnError>(SpawnError::NameRefused(e)),
    }
}

/// What naming a new child did, with the token that was drawn. A child that
/// cannot have its name is taken down again.
pub open spec fn child_named(
    a: SupState,
    s: SharedState,
    id: FlowId,
    name: Seq<char>,
    token: Result<CapId, RuntimeError>,
    b: SupState,
    t: SharedState,
    r: Result<FlowId, SpawnError>,
) -> bool {
    let (caps, c) = minted(s.caps, id, id, rights(RIGHTS_ADDRESSING), token);
    let u = SharedState { caps, ..s };
    match c {
        Err(_) => {
            &&& r == Err::<FlowId, SpawnError>(SpawnError::MintFailed)
            &&& b == child_condemned(a, id)
            &&& settled(kill_asked(u, id, FlowExitReason::Supervisor), t)
        },
        Ok(cap) => match bounded_register(u.names, u.max_names, name, cap, id) {
            (names, Ok(_)) => (b, t, r) == (
                a,
                SharedState { names, ..u },
                Ok::<FlowId, SpawnError>(id),
            ),
            (_, Err(e)) => {
                &&& name_refusal(name, e, r)
                &&& b == child_condemned(a, id)
                &&& settled(kill_asked(u, id, FlowExitReason::Supervisor), t)
            },
        },
    }
}

/// What starting a child did.
pub open spec fn child_started(
    a: SupState,
    s: SharedState,
    spec: SpecState,
    now: u64,
    b: SupState,
    t: SharedState,
    r: Result<FlowId, SpawnError>,
) -> bool {
    exists|req: SpawnRequest, mid: SharedState, answer: Result<FlowId, SpawnError>|
        {
            &&& request_for(a, spec, req)
            &&& #[trigger] spawned(s, req, None, spec.args, now, mid, answer)
            &&& match answer {
                Err(e) => (b, t, r) == (a, mid, Err::<FlowId, SpawnError>(e)),
                Ok(id) => if spec.name.len() == 0 {
                    (b, t, r) == (child_added(a, id, spec), mid, Ok::<FlowId, SpawnError>(id))
                } else {
                    exists|token: Result<CapId, RuntimeError>|
                        {
                            &&& #[trigger] fresh_token(mid.caps, token)
                            &&& child_named(
                                child_added(a, id, spec),
                                mid,
                                id,
                                spec.name,
                                token,
                                b,
                                t,
                                r,
                            )
                        }
                },
            }
        }
}

/// What bringing a child back did: one that cannot start is given up.
pub open spec fn child_respawned(
    a: SupState,
    s: SharedState,
    spec: SpecState,
    now: u64,
    b: SupState,
    t: SharedState,
) -> bool {
    exists|mid: SupState, r: Result<FlowId, SpawnError>|
        {
            &&& #[trigger] child_started(a, s, spec, now, mid, t, r)
            &&& b == (match r {
                Ok(_) => mid,
                Err(_) => SupState {
                    respawn_failures: mid.respawn_failures.wrapping_add(1),
                    ..mid
                },
            })
        }
}

impl Supervisor {
    /// A supervisor without children.
    pub fn new(number: u64, chunk: Arc<Chunk>, natives: Arc<NativeTable>) -> (r: Self)
        ensures
            r@ == empty_supervisor(
                number,
                *chunk,
                *natives,
                SupervisorConfig {
                    max_restarts: DEFAULT_MAX_RESTARTS,
                    max_period: DEFAULT_MAX_PERIOD_MS,
                    strategy: RestartStrategy::OneForOne,
                },
            ),
    {
        Supervisor::with_config(number, chunk, natives, SupervisorConfig::default())
    }

    /// A supervisor without children.
    pub fn with_config(
        number: u64,
        chunk: Arc<Chunk>,
        natives: Arc<NativeTable>,
        config: SupervisorConfig,
    ) -> (r: Self)
        ensures
            r@ == empty_supervisor(number, *chunk, *natives, config),
    {
        let r = Supervisor {
            number,
            config,
            chunk,
            natives,
            by_id: IdMap::new(),
            order: Vec::new(),
            cascade: None,
            restart_times: Vec::new(),
            gave_up: false,
            respawn_failures: 0,
        };
        assert(r@.live =~= Map::<u128, LiveState>::empty());
        r
    }

    pub fn live_children(&self) -> (r: usize)
        ensures
            r == self@.live.len(),
    {
        let n: usize = self.by_id.len();
        assert(self@.live.dom() =~= self.by_id@.dom());
        n
    }

    /// Whether it gave up bringing children back.
    pub fn intensity_exceeded(&self) -> (r: bool)
        ensures
            r == self@.gave_up,
    {
        self.gave_up
    }

    fn insert_child(&mut self, id: FlowId, spec: ChildSpec)
        ensures
            final(self)@ == child_added(old(self)@, id, spec@),
    {
        let ghost s0 = self@;
        let ghost sp = spec@;
        self.order.push(id);
        let _ = self.by_id.insert(
            id.raw as u128,
            LiveChild { spec, expected_shutdown: false },
        );
        assert(self@.live =~= s0.live.insert(
            id.raw as u128,
            LiveState { spec: sp, expected: false },
        ));
    }

    fn condemn_child(&mut self, id: FlowId)
        ensures
            final(self)@ == child_condemned(old(self)@, id),
    {
        let ghost s0 = self@;
        let k: u128 = id.raw as u128;
        match self.by_id.remove(k) {
            Some(c) => {
                let ghost cv = c@;
                let _ = self.by_id.insert(
                    k,
                    LiveChild { spec: c.spec, expected_shutdown: true },
                );
                assert(self@.live =~= s0.live.insert(k, LiveState { expected: true, ..cv }));
            },
            None => {
                assert(self@.live =~= s0.live);
            },
        }
    }

    /// Start a child and look after it.
    pub fn start_child(&mut self, shared: &mut Shared, spec: ChildSpec, now: u64) -> (r: Result<
        FlowId,
        SpawnError,
    >)
        requires
            config_ok(old(shared).config.mailbox),
        ensures
            child_started(old(self)@, old(shared)@, spec@, now, final(self)@, final(shared)@, r),
    {
        let ghost a = self@;
        let ghost s0 = shared@;
        let ghost sp = spec@;
        let req = SpawnRequest {
            chunk: self.chunk.clone(),
            natives: self.natives.clone(),
            function: spec.function,
            restart_policy: spec.restart,
            supervisor: Some(self.number),
        };
        assert(request_for(a, sp, req));
        let answer = shared.spawn(&req, spec.args.as_slice(), now);
        let ghost mid = shared@;
        assert(spawned(s0, req, None, sp.args, now, mid, answer));
        let id = match answer {
            Ok(id) => id,
            Err(e) => return Err(e),
        };
        let name = owned(spec.name.as_str());
        self.insert_child(id, spec);
        if name.as_str().is_empty() {
            return Ok(id);
        }
        let token = shared.caps.draw();
        assert(fresh_token(mid.caps, token));
        let r = self.name_child(shared, id, name, token);
        assert(child_named(child_added(a, id, sp), mid, id, sp.name, token, self@, shared@, r));
        r
    }

    /// Register the name of a child that was started, with a drawn token.
    pub fn name_child(
        &mut self,
        shared: &mut Shared,
        id: FlowId,
        name: String,
        token: Result<CapId, RuntimeError>,
    ) -> (r: Result<FlowId, SpawnError>)
        ensures
            child_named(
                old(self)@,
                old(shared)@,
                id,
                name@,
                token,
                final(self)@,
                final(shared)@,
                r,
            ),
    {
        let cap = match shared.caps.mint_as(id, id, CapRights::addressing(), token) {
            Ok(c) => c,
            Err(_) => {
                self.condemn_child(id);
                shared.request_kill(id, FlowExitReason::Supervisor);
                return Err(SpawnError::MintFailed);
            },
        };
        match shared.registry.register(RegistryName::new(name.as_str()), cap, id) {
            Ok(_) => Ok(id),
            Err(e) => {
                self.condemn_child(id);
                shared.request_kill(id, FlowExitReason::Supervisor);
                match e {
                    LifecycleError::AlreadyRegistered => Err(SpawnError::NameTaken { name }),
                    other => Err(SpawnError::NameRefused(other)),
                }
            },
        }
    }

    /// Bring a child back; one that cannot start is given up.
    pub fn respawn_child(&mut self, shared: &mut Shared, spec: ChildSpec, now: u64)
        requires
            config_ok(old(shared).config.mailbox),
        ensures
            child_respawned(
                old(self)@,
                old(shared)@,
                spec@,
                now,
                final(self)@,
                final(shared)@,
            ),
    {
        let ghost sp = spec@;
        let r = self.start_child(shared, spec, now);
        let ghost mid = self@;
        assert(child_started(old(self)@, old(shared)@, sp, now, mid, shared@, r));
        if r.is_err() {
            self.respawn_failures = self.respawn_failures.wrapping_add(1);
        }
    }

    fn note_restart(&mut self, now: u64) -> (r: bool)
        ensures
            r == too_many(old(self)@, now),
            final(self)@ == (SupState {
                times: restart_noted(old(self)@, now),
                gave_up: old(self)@.gave_up || too_many(old(self)@, now),
                ..old(self)@
            }),
    {
        let ghost s0 = self@;
        self.restart_times.push(now);
        let start: u64 = if now >= self.config.max_period {
            now - self.config.max_period
        } else {
            0
        };
        while self.restart_times.len() > 0 && self.restart_times[0] < start
            invariant
                self@ == (SupState { times: self@.times, ..s0 }),
                still_counting(self@.times, start) == still_counting(s0.times.push(now), start),
            decreases self.restart_times@.len(),
        {
            let ghost before = self@.times;
            let _ = self.restart_times.remove(0);
            assert(self@.times =~= before.drop_first());
        }
        if self.restart_times.len() > self.config.max_restarts as usize {
            self.gave_up = true;
            true
        } else {
            false
        }
    }

    fn progress(&mut self, id: FlowId) -> (r: Decision)
        ensures
            (final(self)@, r@) == cascade_progress(old(self)@, id),
    {
        let mut slot: Option<Cascade> = None;
        std::mem::swap(&mut slot, &mut self.cascade);
        match slot {
            None => Decision::Nothing,
            Some(c) => {
                let waiting = without_id(&c.waiting, id);
                if waiting.len() == 0 {
                    Decision::Restart(c.specs)
                } else {
                    self.cascade = Some(Cascade { waiting, specs: c.specs });
                    Decision::Nothing
                }
            },
        }
    }

    fn begin_cascade(&mut self, failed_spec: ChildSpec, at: Option<usize>, later: Vec<FlowId>) -> (r:
        Decision)
        ensures
            (final(self)@, r@) == cascade_begun(
                old(self)@,
                failed_spec@,
                match at {
                    Some(i) => Some(i as nat),
                    None => None,
                },
                later@,
            ),
    {
        let i: usize = match at {
            Some(x) => x,
            None => return Decision::Nothing,
        };
        let ghost s0 = self@;
        let ghost fs = failed_spec@;
        let mut specs: Vec<ChildSpec> = Vec::new();
        let mut k: usize = 0;
        assert(spec_states(specs@) =~= Seq::<SpecState>::empty());
        while k < later.len()
            invariant
                k <= later@.len(),
                self@ == (SupState { live: marked_down(s0.live, later@, k as nat), ..s0 }),
                spec_states(specs@) == listed_specs(s0.live, later@, k as nat),
                forall|x: u128|
                    #[trigger] marked_down(s0.live, later@, k as nat).contains_key(x)
                        <==> s0.live.contains_key(x),
                forall|x: u128|
                    s0.live.contains_key(x) ==> (#[trigger] marked_down(
                        s0.live,
                        later@,
                        k as nat,
                    )[x]).spec == s0.live[x].spec,
            decreases later@.len() - k,
        {
            let key: u128 = later[k].raw as u128;
            let ghost m = self@.live;
            match self.by_id.remove(key) {
                Some(c) => {
                    let ghost cv = c@;
                    let ghost before = spec_states(specs@);
                    let copy = c.spec.clone();
                    specs.push(copy);
                    assert(spec_states(specs@) =~= before.push(cv.spec));
                    let _ = self.by_id.insert(
                        key,
                        LiveChild { spec: c.spec, expected_shutdown: true },
                    );
                    assert(self@.live =~= m.insert(key, LiveState { expected: true, ..cv }));
                },
                None => {
                    assert(self@.live =~= m);
                },
            }
            k += 1;
        }
        let ghost listed = spec_states(specs@);
        match self.config.strategy {
            RestartStrategy::OneForAll => {
                if i > specs.len() {
                    return Decision::Nothing;
                }
                specs.insert(i, failed_spec);
                assert(spec_states(specs@) =~= listed.insert(i as int, fs));
            },
            RestartStrategy::RestForOne => {
                specs.insert(0, failed_spec);
                assert(spec_states(specs@) =~= seq![fs] + listed);
            },
            RestartStrategy::OneForOne => {
                specs = Vec::new();
                specs.push(failed_spec);
                assert(spec_states(specs@) =~= seq![fs]);
            },
        }
        let mut waiting: Vec<FlowId> = Vec::new();
        let mut j: usize = 0;
        while j < later.len()
            invariant
                j <= later@.len(),
                waiting@ == later@.take(j as int),
            decreases later@.len() - j,
        {
            waiting.push(later[j]);
            assert(later@.take(j + 1) =~= later@.take(j as int).push(later@[j as int]));
            j += 1;
        }
        assert(later@.take(j as int) =~= later@);
        self.cascade = Some(Cascade { waiting, specs });
        Decision::TakeDown(later)
    }

    /// Decide what to do about a child that ended.
    pub fn decide(
        &mut self,
        id: FlowId,
        outcome: &FlowOutcome,
        restart: RestartPolicy,
        now: u64,
    ) -> (r: Decision)
        ensures
            (final(self)@, r@) == decided(old(self)@, id, *outcome, restart, now),
    {
        let ghost s0 = self@;
        let at = find_position(&self.order, id);
        self.order = without_id(&self.order, id);
        let child = match self.by_id.remove(id.raw as u128) {
            Some(c) => c,
            None => {
                assert(self@.live =~= s0.live);
                return Decision::Nothing;
            },
        };
        assert(self@.live =~= s0.live.remove(id.raw as u128));
        if child.expected_shutdown {
            return self.progress(id);
        }
        if !should_restart(restart, outcome) || self.gave_up {
            return Decision::Nothing;
        }
        if self.note_restart(now) {
            return Decision::Nothing;
        }
        let later = match self.config.strategy {
            RestartStrategy::OneForOne => return Decision::Respawn(child.spec),
            RestartStrategy::OneForAll => self.order_from(0),
            RestartStrategy::RestForOne => match at {
                Some(i) => self.order_from(i),
                None => Vec::new(),
            },
        };
        assert(s0.config.strategy is OneForAll ==> self@.order.skip(0) =~= self@.order);
        self.begin_cascade(child.spec, at, later)
    }

    fn order_from(&self, from: usize) -> (r: Vec<FlowId>)
        ensures
            r@ == (if from <= self@.order.len() {
                self@.order.skip(from as int)
            } else {
                Seq::<FlowId>::empty()
            }),
    {
        let mut out: Vec<FlowId> = Vec::new();
        let mut k: usize = from;
        while k < self.order.len()
            invariant
                from <= k,
                k <= self.order@.len() || k == from,
                from <= self.order@.len() ==> out@ == self.order@.subrange(
                    from as int,
                    k as int,
                ),
                from > self.order@.len() ==> out@ == Seq::<FlowId>::empty(),
            decreases self.order@.len() - k,
        {
            out.push(self.order[k]);
            assert(self.order@.subrange(from as int, k + 1) =~= self.order@.subrange(
                from as int,
                k as int,
            ).push(self.order@[k as int]));
            k += 1;
        }
        if from <= self.order.len() {
            assert(self.order@.subrange(from as int, k as int) =~= self.order@.skip(from as int));
        }
        out
    }

    /// Forget the siblings that are gone already; the children to bring back
    /// if none is left to wait for.
    pub fn prune_cascade(&mut self, shared: &Shared) -> (r: Decision)
        ensures
            (final(self)@, r@) == cascade_pruned(old(self)@, shared@),
    {
        let mut slot: Option<Cascade> = None;
        std::mem::swap(&mut slot, &mut self.cascade);
        let c = match slot {
            Some(c) => c,
            None => return Decision::Nothing,
        };
        let mut waiting: Vec<FlowId> = Vec::new();
        let mut k: usize = 0;
        assert(c.waiting@.take(0) =~= Seq::<FlowId>::empty());
        while k < c.waiting.len()
            invariant
                k <= c.waiting@.len(),
                waiting@ == still_alive(shared@, c.waiting@.take(k as int)),
            decreases c.waiting@.len() - k,
        {
            let id = c.waiting[k];
            assert(c.waiting@.take(k + 1).drop_last() =~= c.waiting@.take(k as int));
            if shared.directory.lookup(id).is_some() {
                waiting.push(id);
            }
            k += 1;
        }
        assert(c.waiting@.take(k as int) =~= c.waiting@);
        if waiting.len() == 0 {
            Decision::Restart(c.specs)
        } else {
            self.cascade = Some(Cascade { waiting, specs: c.specs });
            Decision::Nothing
        }
    }

    /// Hear of a child that ended, and act.
    pub fn handle_exit(&mut self, shared: &mut Shared, exit: ChildExit, now: u64)
        requires
            config_ok(old(shared).config.mailbox),
        ensures
            exit_handled(
                old(self)@,
                old(shared)@,
                exit,
                now,
                final(self)@,
                final(shared)@,
            ),
    {
        match self.decide(exit.id, &exit.outcome, exit.restart, now) {
            Decision::Nothing => {},
            Decision::Respawn(spec) => self.respawn_child(shared, spec, now),
            Decision::Restart(specs) => self.restart_all(shared, specs, now),
            Decision::TakeDown(ids) => self.run_cascade(shared, &ids, now),
        }
    }

    fn run_cascade(&mut self, shared: &mut Shared, ids: &Vec<FlowId>, now: u64)
        requires
            config_ok(old(shared).config.mailbox),
        ensures
            cascade_run(old(self)@, old(shared)@, ids@, now, final(self)@, final(shared)@),
    {
        let ghost s0 = shared@;
        self.take_down(shared, ids);
        let ghost mid = shared@;
        assert(all_taken_down(s0, ids@, mid));
        match self.prune_cascade(shared) {
            Decision::Restart(specs) => self.restart_all(shared, specs, now),
            _ => {},
        }
    }

    fn take_down(&self, shared: &mut Shared, ids: &Vec<FlowId>)
        requires
            config_ok(old(shared).config.mailbox),
        ensures
            all_taken_down(old(shared)@, ids@, final(shared)@),
            final(shared).config == old(shared).config,
    {
        let mut k: usize = 0;
        let ghost s0 = shared@;
        assert(ids@.take(0) =~= Seq::<FlowId>::empty());
        while k < ids.len()
            invariant
                k <= ids@.len(),
                all_taken_down(s0, ids@.take(k as int), shared@),
                shared.config == old(shared).config,
            decreases ids@.len() - k,
        {
            let ghost before = shared@;
            let id = ids[k];
            shared.request_kill(id, FlowExitReason::Supervisor);
            proof {
                assert(ids@.take(k + 1).drop_last() =~= ids@.take(k as int));
                assert(ids@.take(k + 1).last() == id);
                assert(taken_down(before, ids@.take(k + 1).last(), shared@));
                assert(all_taken_down(s0, ids@.take(k + 1), shared@));
                crate::scheduler::finalize::settling_keeps_config(
                    kill_asked(before, id, FlowExitReason::Supervisor),
                    shared@,
                );
            }
            k += 1;
        }
        assert(ids@.take(k as int) =~= ids@);
    }

    fn restart_all(&mut self, shared: &mut Shared, specs: Vec<ChildSpec>, now: u64)
        requires
            config_ok(old(shared).config.mailbox),
        ensures
            all_restarted(
                old(self)@,
                old(shared)@,
                spec_states(specs@),
                now,
                final(self)@,
                final(shared)@,
            ),
    {
        let mut k: usize = 0;
        let ghost a = self@;
        let ghost s0 = shared@;
        let ghost all = spec_states(specs@);
        assert(all.take(0) =~= Seq::<SpecState>::empty());
        while k < specs.len()
            invariant
                k <= specs@.len(),
                all == spec_states(specs@),
                all_restarted(a, s0, all.take(k as int), now, self@, shared@),
                config_ok(shared.config.mailbox),
            decreases specs@.len() - k,
        {
            let ghost b = self@;
            let ghost t = shared@;
            if !self.gave_up {
                let spec = specs[k].clone();
                self.respawn_child(shared, spec, now);
                proof {
                    lemma_respawn_keeps_config(b, t, all[k as int], now, self@, shared@);
                }
            }
            proof {
                assert(all.take(k + 1).drop_last() =~= all.take(k as int));
                assert(all.take(k + 1).last() == all[k as int]);
                assert(restarted_one(b, t, all.take(k + 1).last(), now, self@, shared@));
                assert(all_restarted(a, s0, all.take(k + 1), now, self@, shared@));
            }
            k += 1;
        }
        assert(all.take(k as int) =~= all);
    }
}

/// A supervisor without children.
pub open spec fn empty_supervisor(
    number: u64,
    chunk: Chunk,
    natives: NativeTable,
    config: SupervisorConfig,
) -> SupState {
    SupState {
        number,
        config,
        chunk,
        natives,
        live: Map::empty(),
        order: Seq::empty(),
        cascade: None,
        times: Seq::empty(),
        gave_up: false,
        respawn_failures: 0,
    }
}

/// The flows of a list that still have an inbox.
pub open spec fn still_alive(s: SharedState, ids: Seq<FlowId>) -> Seq<FlowId>
    decreases ids.len(),
{
    if ids.len() == 0 {
        ids
    } else {
        let rest = still_alive(s, ids.drop_last());
        if s.boxes.contains_key(ids.last().raw as u128) {
            rest.push(ids.last())
        } else {
            rest
        }
    }
}

/// The supervisor waits only for siblings that are still there.
pub open spec fn cascade_pruned(a: SupState, s: SharedState) -> (SupState, Verdict) {
    match a.cascade {
        None => (a, Verdict::Nothing),
        Some(c) => {
            let waiting = still_alive(s, c.waiting);
            if waiting.len() == 0 {
                (SupState { cascade: None, ..a }, Verdict::Restart(c.specs))
            } else {
                (
                    SupState { cascade: Some(CascadeState { waiting, ..c }), ..a },
                    Verdict::Nothing,
                )
            }
        },
    }
}

/// What taking one sibling down did.
pub open spec fn taken_down(s: SharedState, id: FlowId, t: SharedState) -> bool {
    settled(kill_asked(s, id, FlowExitReason::Supervisor), t)
}

/// What taking a list of siblings down did.
pub open spec fn all_taken_down(s: SharedState, ids: Seq<FlowId>, t: SharedState) -> bool
    decreases ids.len(),
{
    if ids.len() == 0 {
        t == s
    } else {
        exists|mid: SharedState|
            {
                &&& #[trigger] taken_down(mid, ids.last(), t)
                &&& all_taken_down(s, ids.drop_last(), mid)
            }
    }
}

/// What bringing one of several children back did. A supervisor that gave up
/// does nothing.
pub open spec fn restarted_one(
    a: SupState,
    s: SharedState,
    spec: SpecState,
    now: u64,
    b: SupState,
    t: SharedState,
) -> bool {
    if a.gave_up {
        b == a && t == s
    } else {
        child_respawned(a, s, spec, now, b, t)
    }
}

/// What bringing several children back did.
pub open spec fn all_restarted(
    a: SupState,
    s: SharedState,
    specs: Seq<SpecState>,
    now: u64,
    b: SupState,
    t: SharedState,
) -> bool
    decreases specs.len(),
{
    if specs.len() == 0 {
        b == a && t == s
    } else {
        exists|mid: SupState, u: SharedState|
            {
                &&& #[trigger] restarted_one(mid, u, specs.last(), now, b, t)
                &&& all_restarted(a, s, specs.drop_last(), now, mid, u)
            }
    }
}

/// What hearing of a child that ended did.
pub open spec fn exit_handled(
    a: SupState,
    s: SharedState,
    exit: ChildExit,
    now: u64,
    b: SupState,
    t: SharedState,
) -> bool {
    let (c, v) = decided(a, exit.id, exit.outcome, exit.restart, now);
    match v {
        Verdict::Nothing => b == c && t == s,
        Verdict::Respawn(spec) => child_respawned(c, s, spec, now, b, t),
        Verdict::Restart(specs) => all_restarted(c, s, specs, now, b, t),
        Verdict::TakeDown(ids) => cascade_run(c, s, ids, now, b, t),
    }
}

/// What taking siblings down, and bringing the children back if all are
/// gone already, did.
pub open spec fn cascade_run(
    a: SupState,
    s: SharedState,
    ids: Seq<FlowId>,
    now: u64,
    b: SupState,
    t: SharedState,
) -> bool {
    exists|mid: SharedState|
        {
            &&& #[trigger] all_taken_down(s, ids, mid)
            &&& match cascade_pruned(a, mid) {
                (d, Verdict::Restart(specs)) => all_restarted(d, mid, specs, now, b, t),
                (d, _) => b == d && t == mid,
            }
        }
}

proof fn lemma_still_alive(s: SharedState, ids: Seq<FlowId>)
    ensures
        forall|x: FlowId| #[trigger]
            still_alive(s, ids).contains(x) <==> ids.contains(x) && s.boxes.contains_key(
                x.raw as u128,
            ),
    decreases ids.len(),
{
    if ids.len() > 0 {
        lemma_still_alive(s, ids.drop_last());
        let rest = still_alive(s, ids.drop_last());
        let all = still_alive(s, ids);
        assert forall|x: FlowId| #[trigger]
            all.contains(x) <==> ids.contains(x) && s.boxes.contains_key(x.raw as u128) by {
            if ids.contains(x) && s.boxes.contains_key(x.raw as u128) {
                let j = ids.index_of(x);
                if j < ids.len() - 1 {
                    assert(ids.drop_last()[j] == x);
                    assert(rest.contains(x));
                    let q = rest.index_of(x);
                    assert(all[q] == x);
                } else {
                    assert(all.last() == x);
                }
            }
            if all.contains(x) {
                let q = all.index_of(x);
                if q < rest.len() {
                    assert(rest[q] == x);
                    assert(rest.contains(x));
                    let j = ids.drop_last().index_of(x);
                    assert(ids[j] == x);
                } else {
                    assert(ids.last() == x);
                }
            }
        }
    }
}

/// A supervisor that waits for siblings does not wait for those that are gone
/// already; if all are, the children that it noted come back at once.
pub proof fn a_cascade_forgets_the_gone(a: SupState, s: SharedState)
    requires
        a.cascade is Some,
    ensures
        ({
            let c = a.cascade->Some_0;
            let (b, v) = cascade_pruned(a, s);
            let over = forall|x: FlowId| #[trigger]
                c.waiting.contains(x) ==> !s.boxes.contains_key(x.raw as u128);
            &&& over ==> v == Verdict::Restart(c.specs) && b.cascade is None
            &&& !over ==> v is Nothing && b.cascade is Some && b.cascade->Some_0.specs == c.specs
                && forall|x: FlowId| #[trigger]
                b.cascade->Some_0.waiting.contains(x) <==> c.waiting.contains(x)
                    && s.boxes.contains_key(x.raw as u128)
            &&& b.live == a.live
            &&& b.order == a.order
        }),
{
    let c = a.cascade->Some_0;
    lemma_still_alive(s, c.waiting);
    let left = still_alive(s, c.waiting);
    if left.len() > 0 {
        assert(left.contains(left[0]));
        assert(c.waiting.contains(left[0]));
    } else if exists|x: FlowId| #[trigger]
        c.waiting.contains(x) && s.boxes.contains_key(x.raw as u128) {
        let x = choose|x: FlowId| #[trigger]
            c.waiting.contains(x) && s.boxes.contains_key(x.raw as u128);
        assert(left.contains(x));
    }
}

proof fn lemma_respawn_keeps_config(
    a: SupState,
    s: SharedState,
    spec: SpecState,
    now: u64,
    b: SupState,
    t: SharedState,
)
    requires
        child_respawned(a, s, spec, now, b, t),
    ensures
        t.config == s.config,
{
    let (m, r) = choose|mid: SupState, r: Result<FlowId, SpawnError>|
        {
            &&& #[trigger] child_started(a, s, spec, now, mid, t, r)
            &&& b == (match r {
                Ok(_) => mid,
                Err(_) => SupState {
                    respawn_failures: mid.respawn_failures.wrapping_add(1),
                    ..mid
                },
            })
        };
    assert(child_started(a, s, spec, now, m, t, r));
    let (req, mid, answer) = choose|
        req: SpawnRequest,
        mid: SharedState,
        answer: Result<FlowId, SpawnError>,
    |
        {
            &&& request_for(a, spec, req)
            &&& #[trigger] spawned(s, req, None, spec.args, now, mid, answer)
            &&& match answer {
                Err(e) => (m, t, r) == (a, mid, Err::<FlowId, SpawnError>(e)),
                Ok(id) => if spec.name.len() == 0 {
                    (m, t, r) == (child_added(a, id, spec), mid, Ok::<FlowId, SpawnError>(id))
                } else {
                    exists|token: Result<CapId, RuntimeError>|
                        {
                            &&& #[trigger] fresh_token(mid.caps, token)
                            &&& child_named(
                                child_added(a, id, spec),
                                mid,
                                id,
                                spec.name,
                                token,
                                m,
                                t,
                                r,
                            )
                        }
                },
            }
        };
    assert(mid.config == s.config);
    if let Ok(id) = answer {
        if spec.name.len() > 0 {
            let token = choose|token: Result<CapId, RuntimeError>|
                {
                    &&& #[trigger] fresh_token(mid.caps, token)
                    &&& child_named(
                        child_added(a, id, spec),
                        mid,
                        id,
                        spec.name,
                        token,
                        m,
                        t,
                        r,
                    )
                };
            let (caps, c) = minted(mid.caps, id, id, rights(RIGHTS_ADDRESSING), token);
            let u = SharedState { caps, ..mid };
            let asked = kill_asked(u, id, FlowExitReason::Supervisor);
            if settled(asked, t) {
                crate::scheduler::finalize::settling_keeps_config(asked, t);
            }
        }
    }
}

} // verus!
