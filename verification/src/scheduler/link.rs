//! Links between flows: an abnormal exit reaches the peer.

use vstd::prelude::*;

use crate::idmap::{ids_only, is_key_list, key_list_exists, sorted_keys, IdMap};
use crate::scheduler::error::LifecycleError;
use crate::scheduler::process::FlowId;
use crate::text::{dec, owned, push_u64};

verus! {

/// Identifier of a link.
#[derive(Debug, Clone, Copy, PartialEq, Eq, Structural, Hash)]
pub struct LinkId {
    pub raw: u64,
}

impl LinkId {
    pub fn as_u64(self) -> (r: u64)
        ensures
            r == self.raw,
    {
        self.raw
    }

    pub fn from_u64(raw: u64) -> (r: Self)
        ensures
            r.raw == raw,
    {
        LinkId { raw }
    }

    /// Printed form.
    pub fn text(self) -> (r: String)
        ensures
            r@ == "link#"@ + dec(self.raw as nat),
    {
        let mut s = owned("link#");
        push_u64(&mut s, self.raw);
        s
    }
}

/// Two linked flows.
#[derive(Debug, Clone, Copy, PartialEq, Eq, Structural)]
pub struct Link {
    pub a: FlowId,
    pub b: FlowId,
}

/// The link joins these flows, in either order.
pub open spec fn joins(l: Link, a: FlowId, b: FlowId) -> bool {
    (l.a == a && l.b == b) || (l.a == b && l.b == a)
}

/// The flow at the other end.
pub open spec fn peer_of(l: Link, f: FlowId) -> Option<FlowId> {
    if l.a == f {
        Some(l.b)
    } else if l.b == f {
        Some(l.a)
    } else {
        None
    }
}

/// Links and the next link number.
#[verifier::ext_equal]
pub ghost struct LinkState {
    pub links: Map<u128, Link>,
    pub next: u64,
}

/// Some link joins these flows.
pub open spec fn linked(s: LinkState, a: FlowId, b: FlowId) -> bool {
    exists|k: u128| #[trigger] s.links.contains_key(k) && joins(s.links[k], a, b)
}

/// No flow is linked with itself, and no two flows twice.
pub open spec fn links_sound(s: LinkState) -> bool {
    &&& forall|k: u128| #[trigger] s.links.contains_key(k) ==> s.links[k].a != s.links[k].b
    &&& forall|j: u128, k: u128|
        #[trigger] s.links.contains_key(j) && #[trigger] s.links.contains_key(k) && joins(
            s.links[j],
            s.links[k].a,
            s.links[k].b,
        ) ==> j == k
}

/// The table after a link was asked for, and the answer.
pub open spec fn link_added(s: LinkState, a: FlowId, b: FlowId) -> (
    LinkState,
    Result<LinkId, LifecycleError>,
) {
    if a == b {
        (s, Err(LifecycleError::SelfRelation))
    } else if linked(s, a, b) {
        (s, Err(LifecycleError::AlreadyLinked))
    } else {
        (
            LinkState {
                links: s.links.insert(s.next as u128, Link { a, b }),
                next: s.next.wrapping_add(1),
            },
            Ok(LinkId { raw: s.next }),
        )
    }
}

/// The table after an owner asked to drop a link, and the answer.
pub open spec fn link_dropped(s: LinkState, owner: FlowId, id: LinkId) -> (
    LinkState,
    Result<(), LifecycleError>,
) {
    let k = id.raw as u128;
    if !s.links.contains_key(k) {
        (s, Err(LifecycleError::InvalidLink))
    } else if s.links[k].a == owner || s.links[k].b == owner {
        (LinkState { links: s.links.remove(k), ..s }, Ok(()))
    } else {
        (s, Err(LifecycleError::NotOwner))
    }
}

/// Links of `f` among `keys`, with the peers.
pub open spec fn peers(links: Map<u128, Link>, keys: Seq<u128>, f: FlowId) -> Seq<(LinkId, FlowId)>
    decreases keys.len(),
{
    if keys.len() == 0 {
        Seq::empty()
    } else {
        let rest = peers(links, keys.drop_last(), f);
        match peer_of(links[keys.last()], f) {
            Some(p) => rest.push((LinkId { raw: keys.last() as u64 }, p)),
            None => rest,
        }
    }
}

/// Links of `f`, oldest first, with the peers.
pub open spec fn peers_of(s: LinkState, f: FlowId) -> Seq<(LinkId, FlowId)> {
    peers(s.links, sorted_keys(s.links), f)
}

/// The flow that link `id` joins `f` with.
pub open spec fn peer_by(s: LinkState, id: LinkId, f: FlowId) -> Option<FlowId> {
    if s.links.contains_key(id.raw as u128) {
        peer_of(s.links[id.raw as u128], f)
    } else {
        None
    }
}

proof fn lemma_peers(links: Map<u128, Link>, keys: Seq<u128>, f: FlowId)
    requires
        forall|i: int| 0 <= i < keys.len() ==> #[trigger] keys[i] <= u64::MAX,
        forall|i: int, j: int| 0 <= i < j < keys.len() ==> keys[i] < keys[j],
    ensures
        peers(links, keys, f).no_duplicates(),
        forall|id: LinkId, p: FlowId| #[trigger]
            peers(links, keys, f).contains((id, p)) <==> keys.contains(id.raw as u128) && peer_of(
                links[id.raw as u128],
                f,
            ) == Some(p),
    decreases keys.len(),
{
    if keys.len() > 0 {
        let fewer = keys.drop_last();
        let rest = peers(links, fewer, f);
        lemma_peers(links, fewer, f);
        let last = LinkId { raw: keys.last() as u64 };
        assert(keys =~= fewer.push(keys.last()));
        assert(!fewer.contains(keys.last()));
        let peer = peer_of(links[keys.last()], f);
        assert forall|id: LinkId, p: FlowId| #[trigger]
            peers(links, keys, f).contains((id, p)) <==> keys.contains(id.raw as u128) && peer_of(
                links[id.raw as u128],
                f,
            ) == Some(p) by {
            lemma_push_contains(fewer, keys.last(), id.raw as u128);
            assert(rest.contains((id, p)) <==> fewer.contains(id.raw as u128) && peer_of(
                links[id.raw as u128],
                f,
            ) == Some(p));
            if let Some(q) = peer {
                if rest.contains((id, p)) {
                    let i = choose|i: int| 0 <= i < rest.len() && rest[i] == (id, p);
                    assert(rest.push((last, q))[i] == (id, p));
                }
                assert(rest.push((last, q))[rest.len() as int] == (last, q));
            }
        }
        if let Some(q) = peer {
            assert(!rest.contains((last, q)));
        }
    }
}

/// Dropping the links of a flow reports each of them once, with the flow at
/// the other end, and no other. A second time there is nothing to report.
pub proof fn links_are_reported_once(s: LinkState, f: FlowId)
    requires
        s.links.dom().finite(),
        ids_only(s.links),
    ensures
        peers_of(s, f).no_duplicates(),
        forall|id: LinkId, p: FlowId| #[trigger]
            peers_of(s, f).contains((id, p)) <==> peer_by(s, id, f) == Some(p),
        peers_of(links_removed(s, f), f).len() == 0,
{
    key_list_exists(s.links);
    let keys = sorted_keys(s.links);
    assert forall|i: int| 0 <= i < keys.len() implies #[trigger] keys[i] <= u64::MAX by {
        assert(keys.contains(keys[i]));
    }
    lemma_peers(s.links, keys, f);
    let t = links_removed(s, f);
    assert(t.links.dom().subset_of(s.links.dom()));
    key_list_exists(t.links);
    let left = sorted_keys(t.links);
    assert forall|i: int| 0 <= i < left.len() implies #[trigger] left[i] <= u64::MAX by {
        assert(left.contains(left[i]));
        assert(s.links.contains_key(left[i]));
    }
    lemma_peers(t.links, left, f);
    let ps = peers_of(t, f);
    if ps.len() > 0 {
        assert(ps.contains((ps[0].0, ps[0].1)));
        assert(left.contains(ps[0].0.raw as u128));
    }
}

/// The table without the links of `f`.
pub open spec fn links_removed(s: LinkState, f: FlowId) -> LinkState {
    LinkState {
        links: Map::new(
            |k: u128| s.links.contains_key(k) && peer_of(s.links[k], f) is None,
            |k: u128| s.links[k],
        ),
        ..s
    }
}

/// Linking is symmetric, and a flow without links has no peers.
pub proof fn links_are_symmetric(s: LinkState, a: FlowId, b: FlowId)
    ensures
        linked(s, a, b) == linked(s, b, a),
        !linked(links_removed(s, a), a, b),
{
    if linked(s, a, b) {
        let k = choose|k: u128| #[trigger] s.links.contains_key(k) && joins(s.links[k], a, b);
        assert(joins(s.links[k], b, a));
    }
    if linked(s, b, a) {
        let k = choose|k: u128| #[trigger] s.links.contains_key(k) && joins(s.links[k], b, a);
        assert(joins(s.links[k], a, b));
    }
}

/// Adding, dropping and sweeping links keeps the table free of self-links
/// and duplicates, as long as link numbers are not reused.
pub proof fn links_stay_sound(s: LinkState, a: FlowId, b: FlowId, id: LinkId)
    requires
        links_sound(s),
        !s.links.contains_key(s.next as u128),
    ensures
        links_sound(link_added(s, a, b).0),
        links_sound(link_dropped(s, a, id).0),
        links_sound(links_removed(s, a)),
{
    let t = link_added(s, a, b).0;
    if a != b && !linked(s, a, b) {
        assert forall|j: u128, k: u128|
            #[trigger] t.links.contains_key(j) && #[trigger] t.links.contains_key(k) && joins(
                t.links[j],
                t.links[k].a,
                t.links[k].b,
            ) implies j == k by {
            let n = s.next as u128;
            if j == n && k != n {
                assert(s.links.contains_key(k) && joins(s.links[k], a, b));
            }
            if k == n && j != n {
                assert(s.links.contains_key(j) && joins(s.links[j], a, b));
            }
        }
    }
}

/// The links of the live flows.
pub struct LinkTable {
    links: IdMap<Link>,
    next: u64,
}

impl View for LinkTable {
    type V = LinkState;

    closed spec fn view(&self) -> LinkState {
        LinkState { links: self.links@, next: self.next }
    }
}

impl LinkTable {
    /// Keys are link ids.
    #[verifier::type_invariant]
    spec fn keyed(&self) -> bool {
        ids_only(self.links@)
    }

    /// A table without links; link numbers start at one.
    pub fn new() -> (r: Self)
        ensures
            r@ == (LinkState { links: Map::empty(), next: 1 }),
    {
        LinkTable { links: IdMap::new(), next: 1 }
    }

    pub fn len(&self) -> (r: usize)
        ensures
            r == self@.links.len(),
    {
        self.links.len()
    }

    fn is_linked(&self, a: FlowId, b: FlowId) -> (r: bool)
        ensures
            r == linked(self@, a, b),
    {
        let keys = self.links.keys();
        let mut i: usize = 0;
        while i < keys.len()
            invariant
                i <= keys@.len(),
                is_key_list(self@.links, keys@),
                forall|j: int| 0 <= j < i ==> !joins(self@.links[#[trigger] keys@[j]], a, b),
            decreases keys@.len() - i,
        {
            assert(keys@.contains(keys@[i as int]));
            if let Some(l) = self.links.get(keys[i]) {
                if (l.a == a && l.b == b) || (l.a == b && l.b == a) {
                    assert(self@.links.contains_key(keys@[i as int]));
                    return true;
                }
            }
            i += 1;
        }
        proof {
            if linked(self@, a, b) {
                let k = choose|k: u128|
                    #[trigger] self@.links.contains_key(k) && joins(self@.links[k], a, b);
                assert(keys@.contains(k));
                let j = choose|j: int| 0 <= j < keys@.len() && keys@[j] == k;
                assert(!joins(self@.links[keys@[j]], a, b));
            }
        }
        false
    }

    /// Link two flows.
    pub fn link(&mut self, a: FlowId, b: FlowId) -> (r: Result<LinkId, LifecycleError>)
        ensures
            (final(self)@, r) == link_added(old(self)@, a, b),
    {
        proof {
            use_type_invariant(&*self);
        }
        if a == b {
            return Err(LifecycleError::SelfRelation);
        }
        if self.is_linked(a, b) {
            return Err(LifecycleError::AlreadyLinked);
        }
        let id = LinkId { raw: self.next };
        self.next = self.next.wrapping_add(1);
        let mut links = IdMap::new();
        std::mem::swap(&mut links, &mut self.links);
        let _ = links.insert(id.raw as u128, Link { a, b });
        self.links = links;
        Ok(id)
    }

    /// Drop a link that `owner` is an end of.
    pub fn unlink_owned(&mut self, owner: FlowId, id: LinkId) -> (r: Result<(), LifecycleError>)
        ensures
            (final(self)@, r) == link_dropped(old(self)@, owner, id),
    {
        proof {
            use_type_invariant(&*self);
        }
        let mine: bool = match self.links.get(id.raw as u128) {
            Some(l) => l.a == owner || l.b == owner,
            None => return Err(LifecycleError::InvalidLink),
        };
        if mine {
            let mut links = IdMap::new();
            std::mem::swap(&mut links, &mut self.links);
            let _ = links.remove(id.raw as u128);
            self.links = links;
            Ok(())
        } else {
            Err(LifecycleError::NotOwner)
        }
    }

    /// Drop the links of `target`; they come out with the peers.
    pub fn remove_links_of(&mut self, target: FlowId) -> (r: Vec<(LinkId, FlowId)>)
        ensures
            r@ == peers_of(old(self)@, target),
            r@.no_duplicates(),
            forall|id: LinkId, p: FlowId| #[trigger]
                r@.contains((id, p)) <==> peer_by(old(self)@, id, target) == Some(p),
            final(self)@ == links_removed(old(self)@, target),
    {
        proof {
            use_type_invariant(&*self);
        }
        let keys = self.links.keys();
        let mut out: Vec<(LinkId, FlowId)> = Vec::new();
        let mut gone: Vec<u128> = Vec::new();
        let mut i: usize = 0;
        while i < keys.len()
            invariant
                *self == *old(self),
                i <= keys@.len(),
                is_key_list(self@.links, keys@),
                ids_only(self@.links),
                out@ == peers(self@.links, keys@.take(i as int), target),
                forall|k: u128|
                    #[trigger] gone@.contains(k) <==> keys@.take(i as int).contains(k) && peer_of(
                        self@.links[k],
                        target,
                    ) is Some,
            decreases keys@.len() - i,
        {
            let key: u128 = keys[i];
            assert(keys@.contains(keys@[i as int]));
            let ghost before = gone@;
            let ghost seen = keys@.take(i as int);
            assert(keys@.take(i + 1).drop_last() =~= seen);
            assert(keys@.take(i + 1) =~= seen.push(key));
            if let Some(l) = self.links.get(key) {
                let peer = if l.a == target {
                    Some(l.b)
                } else if l.b == target {
                    Some(l.a)
                } else {
                    None
                };
                if let Some(p) = peer {
                    out.push((LinkId { raw: key as u64 }, p));
                    gone.push(key);
                }
            }
            proof {
                assert forall|k: u128| #[trigger] gone@.contains(k) <==> keys@.take(
                    i + 1,
                ).contains(k) && peer_of(self@.links[k], target) is Some by {
                    lemma_push_contains(seen, key, k);
                    lemma_push_contains(before, key, k);
                }
            }
            i += 1;
        }
        assert(keys@.take(i as int) =~= keys@);
        proof {
            assert forall|j: int| 0 <= j < keys@.len() implies #[trigger] keys@[j] <= u64::MAX by {
                assert(keys@.contains(keys@[j]));
            }
            lemma_peers(self@.links, keys@, target);
        }
        let mut links = IdMap::new();
        std::mem::swap(&mut links, &mut self.links);
        links.remove_all(&gone);
        self.links = links;
        assert(self@.links =~= links_removed(old(self)@, target).links);
        out
    }
}

/// What a push adds to the elements of a sequence.
pub(crate) proof fn lemma_push_contains(s: Seq<u128>, x: u128, k: u128)
    ensures
        s.push(x).contains(k) <==> s.contains(k) || k == x,
{
    if s.contains(k) {
        let i = choose|i: int| 0 <= i < s.len() && s[i] == k;
        assert(s.push(x)[i] == k);
    }
    assert(s.push(x)[s.len() as int] == x);
}

impl Default for LinkTable {
    fn default() -> (r: Self)
        ensures
            r@ == (LinkState { links: Map::empty(), next: 1 }),
    {
        LinkTable::new()
    }
}

/// A link table with a bound on its size; zero is no bound.
pub struct LinkStore {
    pub table: LinkTable,
    pub max_links: u32,
}

/// The table after a link was asked for under a bound. The bound never hides
/// a self-link or a duplicate.
pub open spec fn bounded_link(s: LinkState, max: u32, a: FlowId, b: FlowId) -> (
    LinkState,
    Result<LinkId, LifecycleError>,
) {
    if a != b && !linked(s, a, b) && max != 0 && s.links.len() >= max {
        (s, Err(LifecycleError::LinkLimitReached { limit: max }))
    } else {
        link_added(s, a, b)
    }
}

impl LinkStore {
    pub fn new(max_links: u32) -> (r: Self)
        ensures
            r.table@ == (LinkState { links: Map::empty(), next: 1 }),
            r.max_links == max_links,
    {
        LinkStore { table: LinkTable::new(), max_links }
    }

    pub fn link(&mut self, a: FlowId, b: FlowId) -> (r: Result<LinkId, LifecycleError>)
        ensures
            (final(self).table@, r) == bounded_link(
                old(self).table@,
                old(self).max_links,
                a,
                b,
            ),
            final(self).max_links == old(self).max_links,
    {
        if a == b {
            return Err(LifecycleError::SelfRelation);
        }
        if self.table.is_linked(a, b) {
            return Err(LifecycleError::AlreadyLinked);
        }
        if self.max_links != 0 && self.table.len() >= self.max_links as usize {
            return Err(LifecycleError::LinkLimitReached { limit: self.max_links });
        }
        self.table.link(a, b)
    }

    pub fn unlink_owned(&mut self, owner: FlowId, id: LinkId) -> (r: Result<(), LifecycleError>)
        ensures
            (final(self).table@, r) == link_dropped(old(self).table@, owner, id),
            final(self).max_links == old(self).max_links,
    {
        self.table.unlink_owned(owner, id)
    }

    pub fn remove_links_of(&mut self, target: FlowId) -> (r: Vec<(LinkId, FlowId)>)
        ensures
            r@ == peers_of(old(self).table@, target),
            final(self).table@ == links_removed(old(self).table@, target),
            final(self).max_links == old(self).max_links,
    {
        self.table.remove_links_of(target)
    }
}

impl Default for LinkStore {
    fn default() -> (r: Self)
        ensures
            r.table@ == (LinkState { links: Map::empty(), next: 1 }),
            r.max_links == 0,
    {
        LinkStore::new(0)
    }
}

} // verus!
