//! Names of flows. A name leads to a capability, never to a bare identity.

use vstd::prelude::*;

use crate::bytecode::cap::CapId;
use crate::namemap::NameMap;
use crate::scheduler::error::LifecycleError;
use crate::scheduler::process::FlowId;
use crate::text::owned;

verus! {

/// A registry key.
#[derive(Debug, PartialEq, Eq)]
pub struct RegistryName {
    pub name: String,
}

impl View for RegistryName {
    type V = Seq<char>;

    open spec fn view(&self) -> Seq<char> {
        self.name@
    }
}

impl RegistryName {
    pub fn new(name: &str) -> (r: Self)
        ensures
            r@ == name@,
    {
        RegistryName { name: owned(name) }
    }

    pub fn as_str(&self) -> (r: &str)
        ensures
            r@ == self@,
    {
        self.name.as_str()
    }
}

/// What a name stands for.
#[derive(Debug, Clone, Copy, PartialEq, Eq, Structural)]
pub struct Entry {
    pub cap: CapId,
    pub flow: FlowId,
}

/// The names after a registration, and the answer.
pub open spec fn registered(
    m: Map<Seq<char>, Entry>,
    name: Seq<char>,
    cap: CapId,
    flow: FlowId,
) -> (Map<Seq<char>, Entry>, Result<(), LifecycleError>) {
    if name.len() == 0 {
        (m, Err(LifecycleError::EmptyName))
    } else if m.contains_key(name) {
        (m, Err(LifecycleError::AlreadyRegistered))
    } else {
        (m.insert(name, Entry { cap, flow }), Ok(()))
    }
}

/// The names without those of `flow`.
pub open spec fn names_removed(m: Map<Seq<char>, Entry>, flow: FlowId) -> Map<Seq<char>, Entry> {
    Map::new(|n: Seq<char>| m.contains_key(n) && m[n].flow != flow, |n: Seq<char>| m[n])
}

/// A taken name stays with its flow, and a registered name is found.
pub proof fn names_are_unique(m: Map<Seq<char>, Entry>, name: Seq<char>, cap: CapId, flow: FlowId)
    ensures
        m.contains_key(name) ==> registered(m, name, cap, flow).0 == m && registered(
            m,
            name,
            cap,
            flow,
        ).1 is Err,
        registered(m, name, cap, flow).1 is Ok ==> registered(m, name, cap, flow).0[name]
            == (Entry { cap, flow }),
        !names_removed(m, flow).contains_key(name) || names_removed(m, flow)[name].flow != flow,
{
}

/// Names of the live flows.
pub struct Registry {
    pub by_name: NameMap<Entry>,
}

impl View for Registry {
    type V = Map<Seq<char>, Entry>;

    open spec fn view(&self) -> Map<Seq<char>, Entry> {
        self.by_name@
    }
}

impl Registry {
    pub fn new() -> (r: Self)
        ensures
            r@ == Map::<Seq<char>, Entry>::empty(),
    {
        Registry { by_name: NameMap::new() }
    }

    /// Register a name that is not empty and not taken.
    pub fn register(&mut self, name: RegistryName, cap: CapId, flow: FlowId) -> (r: Result<
        (),
        LifecycleError,
    >)
        ensures
            (final(self)@, r) == registered(old(self)@, name@, cap, flow),
    {
        if name.name.as_str().is_empty() {
            return Err(LifecycleError::EmptyName);
        }
        if self.by_name.get(name.name.as_str()).is_some() {
            return Err(LifecycleError::AlreadyRegistered);
        }
        self.by_name.add_new(name.name, Entry { cap, flow });
        Ok(())
    }

    pub fn len(&self) -> (r: usize)
        ensures
            r == self@.len(),
    {
        self.by_name.len()
    }

    /// The capability that was registered.
    pub fn whereis(&self, name: &str) -> (r: Option<CapId>)
        ensures
            r == (if self@.contains_key(name@) {
                Some(self@[name@].cap)
            } else {
                None
            }),
    {
        match self.by_name.get(name) {
            Some(e) => Some(e.cap),
            None => None,
        }
    }

    /// The flow that a name stands for.
    pub fn target(&self, name: &str) -> (r: Option<FlowId>)
        ensures
            r == (if self@.contains_key(name@) {
                Some(self@[name@].flow)
            } else {
                None
            }),
    {
        match self.by_name.get(name) {
            Some(e) => Some(e.flow),
            None => None,
        }
    }

    /// Drop a name; false when there is none.
    pub fn unregister(&mut self, name: &str) -> (r: bool)
        ensures
            r == old(self)@.contains_key(name@),
            final(self)@ == old(self)@.remove(name@),
    {
        self.by_name.remove(name).is_some()
    }

    /// Drop every name of `flow`.
    pub fn unregister_flow(&mut self, flow: FlowId)
        ensures
            final(self)@ == names_removed(old(self)@, flow),
    {
        let n: usize = self.by_name.len();
        let mut gone: Vec<String> = Vec::new();
        let mut i: usize = 0;
        while i < n
            invariant
                *self == *old(self),
                n == self@.len(),
                i <= n,
                forall|j: int|
                    0 <= j < gone@.len() ==> self@.contains_key((#[trigger] gone@[j])@)
                        && self@[gone@[j]@].flow == flow,
                forall|j: int|
                    #![trigger self.by_name.nth(j)]
                    0 <= j < i && self@[self.by_name.nth(j)].flow == flow ==> exists|g: int|
                        0 <= g < gone@.len() && (#[trigger] gone@[g])@ == self.by_name.nth(j),
            decreases n - i,
        {
            let (name, e) = self.by_name.at(i);
            let ghost before = gone@;
            if e.flow == flow {
                gone.push(owned(name));
                assert(gone@[before.len() as int]@ == self.by_name.nth(i as int));
            }
            proof {
                assert forall|j: int|
                    #![trigger self.by_name.nth(j)]
                    0 <= j < i + 1 && self@[self.by_name.nth(j)].flow == flow implies exists|g: int|
                    0 <= g < gone@.len() && (#[trigger] gone@[g])@ == self.by_name.nth(j) by {
                    if j < i {
                        let g = choose|g: int|
                            0 <= g < before.len() && (#[trigger] before[g])@ == self.by_name.nth(
                                j,
                            );
                        assert(gone@[g]@ == self.by_name.nth(j));
                    }
                }
            }
            i += 1;
        }
        self.by_name.check_listed();
        let ghost m = self@;
        proof {
            assert forall|name: Seq<char>|
                m.contains_key(name) && m[name].flow == flow implies exists|g: int|
                0 <= g < gone@.len() && (#[trigger] gone@[g])@ == name by {
                self.by_name.positions_cover(name);
                let j = choose|j: int| 0 <= j < n && #[trigger] self.by_name.nth(j) == name;
                assert(self@[self.by_name.nth(j)].flow == flow);
            }
        }
        let mut k: usize = 0;
        while k < gone.len()
            invariant
                k <= gone@.len(),
                m == old(self)@,
                forall|name: Seq<char>|
                    m.contains_key(name) && m[name].flow == flow ==> exists|g: int|
                        0 <= g < gone@.len() && (#[trigger] gone@[g])@ == name,
                forall|j: int|
                    0 <= j < gone@.len() ==> m.contains_key((#[trigger] gone@[j])@)
                        && m[gone@[j]@].flow == flow,
                forall|name: Seq<char>|
                    self@.contains_key(name) <==> m.contains_key(name) && !(exists|g: int|
                        0 <= g < k && (#[trigger] gone@[g])@ == name),
                forall|name: Seq<char>| #[trigger]
                    self@.contains_key(name) ==> self@[name] == m[name],
            decreases gone@.len() - k,
        {
            let ghost was = self@;
            let _ = self.by_name.remove(gone[k].as_str());
            proof {
                let x = gone@[k as int]@;
                assert forall|name: Seq<char>|
                    self@.contains_key(name) <==> m.contains_key(name) && !(exists|g: int|
                        0 <= g < k + 1 && (#[trigger] gone@[g])@ == name) by {
                    if name == x {
                        assert(gone@[k as int]@ == name);
                    } else if was.contains_key(name) {
                        assert(forall|g: int|
                            0 <= g < k + 1 ==> (#[trigger] gone@[g])@ != name) by {
                            assert forall|g: int| 0 <= g < k + 1 implies (
                            #[trigger] gone@[g])@ != name by {
                                if g < k {
                                    if gone@[g]@ == name {
                                        assert(exists|h: int|
                                            0 <= h < k && (#[trigger] gone@[h])@ == name);
                                    }
                                }
                            }
                        }
                    }
                }
            }
            k += 1;
        }
        assert(self@ =~= names_removed(m, flow));
    }
}

impl Default for Registry {
    fn default() -> (r: Self)
        ensures
            r@ == Map::<Seq<char>, Entry>::empty(),
    {
        Registry::new()
    }
}

/// A registry with a bound on its size; zero is no bound.
pub struct RegistryStore {
    pub table: Registry,
    pub max_names: u32,
}

/// The names after a registration under a bound. The bound never hides an
/// empty or a taken name.
pub open spec fn bounded_register(
    m: Map<Seq<char>, Entry>,
    max: u32,
    name: Seq<char>,
    cap: CapId,
    flow: FlowId,
) -> (Map<Seq<char>, Entry>, Result<(), LifecycleError>) {
    if name.len() != 0 && !m.contains_key(name) && max != 0 && m.len() >= max {
        (m, Err(LifecycleError::RegistryLimitReached { limit: max }))
    } else {
        registered(m, name, cap, flow)
    }
}

impl RegistryStore {
    pub fn new(max_registry_names: u32) -> (r: Self)
        ensures
            r.table@ == Map::<Seq<char>, Entry>::empty(),
            r.max_names == max_registry_names,
    {
        RegistryStore { table: Registry::new(), max_names: max_registry_names }
    }

    pub fn register(&mut self, name: RegistryName, cap: CapId, flow: FlowId) -> (r: Result<
        (),
        LifecycleError,
    >)
        ensures
            (final(self).table@, r) == bounded_register(
                old(self).table@,
                old(self).max_names,
                name@,
                cap,
                flow,
            ),
            final(self).max_names == old(self).max_names,
    {
        if name.name.as_str().is_empty() {
            return Err(LifecycleError::EmptyName);
        }
        if self.table.target(name.name.as_str()).is_some() {
            return Err(LifecycleError::AlreadyRegistered);
        }
        if self.max_names != 0 && self.table.len() >= self.max_names as usize {
            return Err(LifecycleError::RegistryLimitReached { limit: self.max_names });
        }
        self.table.register(name, cap, flow)
    }

    pub fn whereis(&self, name: &str) -> (r: Option<CapId>)
        ensures
            r == (if self.table@.contains_key(name@) {
                Some(self.table@[name@].cap)
            } else {
                None
            }),
    {
        self.table.whereis(name)
    }

    pub fn target(&self, name: &str) -> (r: Option<FlowId>)
        ensures
            r == (if self.table@.contains_key(name@) {
                Some(self.table@[name@].flow)
            } else {
                None
            }),
    {
        self.table.target(name)
    }

    pub fn unregister(&mut self, name: &str) -> (r: bool)
        ensures
            r == old(self).table@.contains_key(name@),
            final(self).table@ == old(self).table@.remove(name@),
            final(self).max_names == old(self).max_names,
    {
        self.table.unregister(name)
    }

    pub fn unregister_flow(&mut self, flow: FlowId)
        ensures
            final(self).table@ == names_removed(old(self).table@, flow),
            final(self).max_names == old(self).max_names,
    {
        self.table.unregister_flow(flow)
    }
}

impl Default for RegistryStore {
    fn default() -> (r: Self)
        ensures
            r.table@ == Map::<Seq<char>, Entry>::empty(),
            r.max_names == 0,
    {
        RegistryStore::new(0)
    }
}

} // verus!
