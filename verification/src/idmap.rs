//! Ordered table keyed by an integer identifier.
//!
//! Entries live in one vector sorted by key: lookup is a binary search and
//! iteration visits keys in ascending order. Flow ids, link ids and monitor
//! refs are minted in ascending order, so insertion is usually an append.

use vstd::prelude::*;

verus! {

/// Keys of `s` strictly ascend.
spec fn ascending<V>(s: Seq<(u128, V)>) -> bool {
    forall|i: int, j: int| 0 <= i < j < s.len() ==> (#[trigger] s[i]).0 < (#[trigger] s[j]).0
}

/// The map that a list of entries denotes.
spec fn to_map<V>(s: Seq<(u128, V)>) -> Map<u128, V>
    decreases s.len(),
{
    if s.len() == 0 {
        Map::empty()
    } else {
        to_map(s.drop_last()).insert(s.last().0, s.last().1)
    }
}

/// The keys of a list of entries, in list order.
spec fn keys_of<V>(s: Seq<(u128, V)>) -> Seq<u128> {
    Seq::new(s.len(), |i: int| s[i].0)
}

proof fn lemma_lookup<V>(s: Seq<(u128, V)>)
    requires
        ascending(s),
    ensures
        to_map(s).dom().finite(),
        to_map(s).len() == s.len(),
        forall|i: int|
            0 <= i < s.len() ==> to_map(s).contains_key((#[trigger] s[i]).0) && to_map(s)[s[i].0]
                == s[i].1,
        forall|k: u128| #[trigger]
            to_map(s).contains_key(k) ==> exists|i: int| 0 <= i < s.len() && (#[trigger] s[i]).0 == k,
    decreases s.len(),
{
    if s.len() > 0 {
        let t = s.drop_last();
        assert forall|i: int, j: int| 0 <= i < j < t.len() implies (#[trigger] t[i]).0 < (#[trigger] t[j]).0 by {
            assert(t[i] == s[i] && t[j] == s[j]);
        }
        lemma_lookup(t);
        assert(!to_map(t).contains_key(s.last().0)) by {
            if to_map(t).contains_key(s.last().0) {
                let i = choose|i: int| 0 <= i < t.len() && (#[trigger] t[i]).0 == s.last().0;
                assert(s[i].0 < s[s.len() - 1].0);
            }
        }
        assert forall|i: int| 0 <= i < s.len() implies to_map(s).contains_key((#[trigger] s[i]).0)
            && to_map(s)[s[i].0] == s[i].1 by {
            if i < t.len() {
                assert(t[i] == s[i]);
                assert(s[i].0 < s[s.len() - 1].0);
            }
        }
        assert forall|k: u128| #[trigger] to_map(s).contains_key(k) implies exists|i: int|
            0 <= i < s.len() && (#[trigger] s[i]).0 == k by {
            if k == s.last().0 {
                assert(s[s.len() - 1].0 == k);
            } else {
                assert(to_map(t).contains_key(k));
                let i = choose|i: int| 0 <= i < t.len() && (#[trigger] t[i]).0 == k;
                assert(s[i].0 == k);
            }
        }
    }
}

proof fn lemma_insert<V>(s: Seq<(u128, V)>, p: int, k: u128, v: V)
    requires
        ascending(s),
        0 <= p <= s.len(),
        forall|i: int| 0 <= i < p ==> (#[trigger] s[i]).0 < k,
        forall|i: int| p <= i < s.len() ==> k < (#[trigger] s[i]).0,
    ensures
        ascending(s.insert(p, (k, v))),
        to_map(s.insert(p, (k, v))) == to_map(s).insert(k, v),
        !to_map(s).contains_key(k),
{
    let t = s.insert(p, (k, v));
    assert forall|i: int, j: int| 0 <= i < j < t.len() implies (#[trigger] t[i]).0 < (#[trigger] t[j]).0 by {
        let a = if i < p { s[i] } else { if i == p { (k, v) } else { s[i - 1] } };
        let b = if j < p { s[j] } else { if j == p { (k, v) } else { s[j - 1] } };
        assert(t[i] == a && t[j] == b);
    }
    lemma_lookup(s);
    lemma_lookup(t);
    assert forall|x: u128| to_map(t).contains_key(x) <==> to_map(s).insert(k, v).contains_key(x) by {
        if to_map(t).contains_key(x) {
            let i = choose|i: int| 0 <= i < t.len() && (#[trigger] t[i]).0 == x;
            if i < p {
                assert(s[i].0 == x);
            } else if i > p {
                assert(s[i - 1].0 == x);
            }
        }
        if to_map(s).contains_key(x) {
            let i = choose|i: int| 0 <= i < s.len() && (#[trigger] s[i]).0 == x;
            if i < p {
                assert(t[i] == s[i]);
            } else {
                assert(t[i + 1] == s[i]);
            }
        }
        assert(t[p] == (k, v));
    }
    assert forall|x: u128| #[trigger] to_map(t).contains_key(x) implies to_map(t)[x] == to_map(
        s,
    ).insert(k, v)[x] by {
        let i = choose|i: int| 0 <= i < t.len() && (#[trigger] t[i]).0 == x;
        if i < p {
            assert(t[i] == s[i]);
        } else if i > p {
            assert(t[i] == s[i - 1]);
        }
    }
    assert(to_map(t) =~= to_map(s).insert(k, v));
    if to_map(s).contains_key(k) {
        let i = choose|i: int| 0 <= i < s.len() && (#[trigger] s[i]).0 == k;
        assert(false);
    }
}

proof fn lemma_remove<V>(s: Seq<(u128, V)>, p: int)
    requires
        ascending(s),
        0 <= p < s.len(),
    ensures
        ascending(s.remove(p)),
        to_map(s.remove(p)) == to_map(s).remove(s[p].0),
{
    let t = s.remove(p);
    let k = s[p].0;
    assert forall|i: int, j: int| 0 <= i < j < t.len() implies (#[trigger] t[i]).0 < (#[trigger] t[j]).0 by {
        let a = if i < p { s[i] } else { s[i + 1] };
        let b = if j < p { s[j] } else { s[j + 1] };
        assert(t[i] == a && t[j] == b);
    }
    lemma_lookup(s);
    lemma_lookup(t);
    assert forall|x: u128| to_map(t).contains_key(x) <==> to_map(s).remove(k).contains_key(x) by {
        if to_map(t).contains_key(x) {
            let i = choose|i: int| 0 <= i < t.len() && (#[trigger] t[i]).0 == x;
            if i < p {
                assert(s[i].0 == x && s[i].0 < s[p].0);
            } else {
                assert(s[i + 1].0 == x && s[p].0 < s[i + 1].0);
            }
        }
        if to_map(s).remove(k).contains_key(x) {
            let i = choose|i: int| 0 <= i < s.len() && (#[trigger] s[i]).0 == x;
            if i < p {
                assert(t[i] == s[i]);
            } else {
                assert(i != p);
                assert(t[i - 1] == s[i]);
            }
        }
    }
    assert forall|x: u128| #[trigger] to_map(t).contains_key(x) implies to_map(t)[x] == to_map(
        s,
    ).remove(k)[x] by {
        let i = choose|i: int| 0 <= i < t.len() && (#[trigger] t[i]).0 == x;
        if i < p {
            assert(t[i] == s[i]);
        } else {
            assert(t[i] == s[i + 1]);
        }
    }
    assert(to_map(t) =~= to_map(s).remove(k));
}

proof fn lemma_update<V>(s: Seq<(u128, V)>, p: int, v: V)
    requires
        ascending(s),
        0 <= p < s.len(),
    ensures
        ascending(s.update(p, (s[p].0, v))),
        to_map(s.update(p, (s[p].0, v))) == to_map(s).insert(s[p].0, v),
{
    let k = s[p].0;
    let t = s.update(p, (k, v));
    lemma_remove(s, p);
    let r = s.remove(p);
    assert forall|i: int| 0 <= i < p implies (#[trigger] r[i]).0 < k by {
        assert(r[i] == s[i]);
    }
    assert forall|i: int| p <= i < r.len() implies k < (#[trigger] r[i]).0 by {
        assert(r[i] == s[i + 1]);
    }
    lemma_insert(r, p, k, v);
    assert(t =~= r.insert(p, (k, v)));
    assert(to_map(s).remove(k).insert(k, v) =~= to_map(s).insert(k, v));
}

/// `s` lists the keys of `m`, ascending.
pub open spec fn is_key_list<V>(m: Map<u128, V>, s: Seq<u128>) -> bool {
    &&& forall|i: int, j: int| 0 <= i < j < s.len() ==> s[i] < s[j]
    &&& forall|k: u128| #[trigger] s.contains(k) <==> m.contains_key(k)
}

/// The keys of a finite map, ascending.
pub open spec fn sorted_keys<V>(m: Map<u128, V>) -> Seq<u128> {
    choose|s: Seq<u128>| is_key_list(m, s)
}

/// The entries of `m` whose keys `keys` does not list.
pub open spec fn without<V>(m: Map<u128, V>, keys: Seq<u128>) -> Map<u128, V> {
    Map::new(|k: u128| m.contains_key(k) && !keys.contains(k), |k: u128| m[k])
}

/// Every key is an id of 64 bits.
pub open spec fn ids_only<V>(m: Map<u128, V>) -> bool {
    forall|k: u128| #[trigger] m.contains_key(k) ==> k <= u64::MAX
}

/// A map has one ascending key list.
pub proof fn key_list_is_unique<V>(m: Map<u128, V>, s: Seq<u128>)
    requires
        is_key_list(m, s),
    ensures
        sorted_keys(m) == s,
{
    let t = sorted_keys(m);
    assert(is_key_list(m, t));
    assert forall|k: u128| #[trigger] s.contains(k) <==> t.contains(k) by {
        assert(m.contains_key(k) <==> s.contains(k));
        assert(m.contains_key(k) <==> t.contains(k));
    }
    lemma_ascending_unique(t, s);
}

/// A finite map has an ascending key list.
pub proof fn key_list_exists<V>(m: Map<u128, V>)
    requires
        m.dom().finite(),
    ensures
        is_key_list(m, sorted_keys(m)),
{
    let s = lemma_key_list(m);
    key_list_is_unique(m, s);
}

proof fn lemma_key_list<V>(m: Map<u128, V>) -> (s: Seq<u128>)
    requires
        m.dom().finite(),
    ensures
        is_key_list(m, s),
    decreases m.dom().len(),
{
    if m.dom().is_empty() {
        let s = Seq::<u128>::empty();
        assert forall|k: u128| #[trigger] s.contains(k) <==> m.contains_key(k) by {
            assert(!m.dom().contains(k));
        }
        s
    } else {
        let k = m.dom().choose();
        let t = lemma_key_list(m.remove(k));
        let s = lemma_placed(t, k);
        assert forall|x: u128| #[trigger] s.contains(x) <==> m.contains_key(x) by {
            assert(t.contains(x) <==> m.remove(k).contains_key(x));
        }
        s
    }
}

proof fn lemma_placed(t: Seq<u128>, k: u128) -> (s: Seq<u128>)
    requires
        forall|i: int, j: int| 0 <= i < j < t.len() ==> t[i] < t[j],
        !t.contains(k),
    ensures
        forall|i: int, j: int| 0 <= i < j < s.len() ==> s[i] < s[j],
        forall|x: u128| #[trigger] s.contains(x) <==> t.contains(x) || x == k,
    decreases t.len(),
{
    if t.len() == 0 || t.last() < k {
        let s = t.push(k);
        assert forall|x: u128| #[trigger] s.contains(x) <==> t.contains(x) || x == k by {
            lemma_push_member(t, k, x);
        }
        s
    } else {
        let head = t.drop_last();
        let last = t.last();
        assert(t =~= head.push(last));
        assert(t.contains(last));
        assert forall|x: u128| #[trigger] head.contains(x) implies t.contains(x) by {
            lemma_push_member(head, last, x);
        }
        let placed = lemma_placed(head, k);
        let s = placed.push(last);
        assert forall|x: u128| #[trigger] placed.contains(x) implies x < last by {
            if head.contains(x) {
                let i = choose|i: int| 0 <= i < head.len() && head[i] == x;
                assert(t[i] < t[t.len() - 1]);
            }
        }
        assert forall|i: int, j: int| 0 <= i < j < s.len() implies s[i] < s[j] by {
            if j == placed.len() {
                assert(placed.contains(placed[i]));
            }
        }
        assert forall|x: u128| #[trigger] s.contains(x) <==> t.contains(x) || x == k by {
            lemma_push_member(placed, last, x);
            lemma_push_member(head, last, x);
        }
        s
    }
}

proof fn lemma_push_member(t: Seq<u128>, k: u128, x: u128)
    ensures
        t.push(k).contains(x) <==> t.contains(x) || x == k,
{
    let s = t.push(k);
    if t.contains(x) {
        let i = choose|i: int| 0 <= i < t.len() && t[i] == x;
        assert(s[i] == x);
    }
    if x == k {
        assert(s[t.len() as int] == x);
    }
    if s.contains(x) && x != k {
        let i = choose|i: int| 0 <= i < s.len() && s[i] == x;
        assert(t[i] == x);
    }
}

proof fn lemma_ascending_unique(a: Seq<u128>, b: Seq<u128>)
    requires
        forall|i: int, j: int| 0 <= i < j < a.len() ==> a[i] < a[j],
        forall|i: int, j: int| 0 <= i < j < b.len() ==> b[i] < b[j],
        forall|k: u128| #[trigger] a.contains(k) <==> b.contains(k),
    ensures
        a == b,
    decreases a.len(),
{
    if a.len() == 0 {
        if b.len() > 0 {
            assert(b.contains(b[0]));
            assert(a.contains(b[0]));
        }
        assert(a =~= b);
    } else {
        assert(a.contains(a[0]));
        assert(b.contains(a[0]));
        let j = choose|j: int| 0 <= j < b.len() && b[j] == a[0];
        assert(b.contains(b[0]));
        assert(a.contains(b[0]));
        let i = choose|i: int| 0 <= i < a.len() && a[i] == b[0];
        assert(a[0] <= a[i] && b[0] <= b[j]);
        assert(a[0] == b[0]);
        let ra = a.drop_first();
        let rb = b.drop_first();
        assert forall|k: u128| #[trigger] ra.contains(k) <==> rb.contains(k) by {
            if ra.contains(k) {
                let x = choose|x: int| 0 <= x < ra.len() && ra[x] == k;
                assert(a[x + 1] == k && a[0] < a[x + 1]);
                assert(a.contains(k));
                assert(b.contains(k));
                let y = choose|y: int| 0 <= y < b.len() && b[y] == k;
                assert(y != 0);
                assert(rb[y - 1] == k);
            }
            if rb.contains(k) {
                let x = choose|x: int| 0 <= x < rb.len() && rb[x] == k;
                assert(b[x + 1] == k && b[0] < b[x + 1]);
                assert(b.contains(k));
                assert(a.contains(k));
                let y = choose|y: int| 0 <= y < a.len() && a[y] == k;
                assert(y != 0);
                assert(ra[y - 1] == k);
            }
        }
        lemma_ascending_unique(ra, rb);
        assert(a =~= seq![a[0]] + ra);
        assert(b =~= seq![b[0]] + rb);
    }
}

/// Sorted association table from `u128` keys to values.
pub struct IdMap<V> {
    entries: Vec<(u128, V)>,
}

impl<V> View for IdMap<V> {
    type V = Map<u128, V>;

    closed spec fn view(&self) -> Map<u128, V> {
        to_map(self.entries@)
    }
}

impl<V> IdMap<V> {
    #[verifier::type_invariant]
    spec fn sorted(&self) -> bool {
        ascending(self.entries@)
    }

    /// The empty table.
    pub fn new() -> (r: Self)
        ensures
            r@ == Map::<u128, V>::empty(),
    {
        IdMap { entries: Vec::new() }
    }

    /// Number of entries.
    pub fn len(&self) -> (r: usize)
        ensures
            r == self@.len(),
            self@.dom().finite(),
    {
        proof {
            use_type_invariant(&*self);
            lemma_lookup(self.entries@);
        }
        self.entries.len()
    }

    /// Position of the first entry whose key is at least `key`.
    fn lower_bound(&self, key: u128) -> (p: usize)
        ensures
            p <= self.entries@.len(),
            forall|i: int| 0 <= i < p ==> (#[trigger] self.entries@[i]).0 < key,
            forall|i: int| p <= i < self.entries@.len() ==> key <= (#[trigger] self.entries@[i]).0,
    {
        proof {
            use_type_invariant(&*self);
        }
        let mut lo: usize = 0;
        let mut hi: usize = self.entries.len();
        while lo < hi
            invariant
                ascending(self.entries@),
                lo <= hi <= self.entries@.len(),
                forall|i: int| 0 <= i < lo ==> (#[trigger] self.entries@[i]).0 < key,
                forall|i: int|
                    hi <= i < self.entries@.len() ==> key <= (#[trigger] self.entries@[i]).0,
            decreases hi - lo,
        {
            let mid: usize = lo + (hi - lo) / 2;
            if self.entries[mid].0 < key {
                assert forall|i: int| 0 <= i < mid + 1 implies (#[trigger] self.entries@[i]).0
                    < key by {
                    if i < mid {
                        assert(self.entries@[i].0 < self.entries@[mid as int].0);
                    }
                }
                lo = mid + 1;
            } else {
                assert forall|i: int| mid <= i < self.entries@.len() implies key <= (
                #[trigger] self.entries@[i]).0 by {
                    if i > mid {
                        assert(self.entries@[mid as int].0 < self.entries@[i].0);
                    }
                }
                hi = mid;
            }
        }
        lo
    }

    /// Whether `key` has an entry.
    pub fn contains(&self, key: u128) -> (r: bool)
        ensures
            r == self@.contains_key(key),
    {
        self.get(key).is_some()
    }

    /// The value stored under `key`.
    pub fn get(&self, key: u128) -> (r: Option<&V>)
        ensures
            match r {
                Some(v) => self@.contains_key(key) && *v == self@[key],
                None => !self@.contains_key(key),
            },
    {
        proof {
            use_type_invariant(&*self);
            lemma_lookup(self.entries@);
        }
        let p = self.lower_bound(key);
        if p < self.entries.len() && self.entries[p].0 == key {
            assert(self.entries@[p as int].0 == key);
            Some(&self.entries[p].1)
        } else {
            proof {
                if self@.contains_key(key) {
                    let i = choose|i: int|
                        0 <= i < self.entries@.len() && (#[trigger] self.entries@[i]).0 == key;
                    if p < i {
                        assert(self.entries@[p as int].0 < self.entries@[i].0);
                    }
                }
            }
            None
        }
    }

    /// Store `value` under `key`; the previous value, if any, is returned.
    pub fn insert(&mut self, key: u128, value: V) -> (r: Option<V>)
        ensures
            final(self)@ == old(self)@.insert(key, value),
            match r {
                Some(v) => old(self)@.contains_key(key) && v == old(self)@[key],
                None => !old(self)@.contains_key(key),
            },
    {
        proof {
            use_type_invariant(&*self);
            lemma_lookup(self.entries@);
        }
        let p = self.lower_bound(key);
        let ghost s0 = self.entries@;
        let mut e: Vec<(u128, V)> = Vec::new();
        std::mem::swap(&mut e, &mut self.entries);
        if p < e.len() && e[p].0 == key {
            let gone = e.remove(p);
            proof {
                lemma_remove(s0, p as int);
                lemma_update(s0, p as int, value);
                assert(s0.remove(p as int).insert(p as int, (key, value)) =~= s0.update(
                    p as int,
                    (key, value),
                ));
            }
            e.insert(p, (key, value));
            self.entries = e;
            Some(gone.1)
        } else {
            proof {
                assert forall|i: int| p <= i < s0.len() implies key < (#[trigger] s0[i]).0 by {
                    if p < i {
                        assert(s0[p as int].0 < s0[i].0);
                    }
                }
                lemma_insert(s0, p as int, key, value);
            }
            e.insert(p, (key, value));
            self.entries = e;
            None
        }
    }

    /// Remove the entry of `key`.
    pub fn remove(&mut self, key: u128) -> (r: Option<V>)
        ensures
            final(self)@ == old(self)@.remove(key),
            match r {
                Some(v) => old(self)@.contains_key(key) && v == old(self)@[key],
                None => !old(self)@.contains_key(key),
            },
    {
        proof {
            use_type_invariant(&*self);
            lemma_lookup(self.entries@);
        }
        let p = self.lower_bound(key);
        let ghost s0 = self.entries@;
        if p < self.entries.len() && self.entries[p].0 == key {
            let mut e: Vec<(u128, V)> = Vec::new();
            std::mem::swap(&mut e, &mut self.entries);
            let gone = e.remove(p);
            proof {
                lemma_remove(s0, p as int);
            }
            self.entries = e;
            Some(gone.1)
        } else {
            proof {
                if self@.contains_key(key) {
                    let i = choose|i: int| 0 <= i < s0.len() && (#[trigger] s0[i]).0 == key;
                    if p < i {
                        assert(s0[p as int].0 < s0[i].0);
                    }
                }
                assert(self@.remove(key) =~= self@);
            }
            None
        }
    }

    /// Drop every entry.
    pub fn clear(&mut self)
        ensures
            final(self)@ == Map::<u128, V>::empty(),
    {
        self.entries = Vec::new();
    }

    /// All keys, ascending.
    pub fn keys(&self) -> (r: Vec<u128>)
        ensures
            r@ == sorted_keys(self@),
            is_key_list(self@, r@),
            r@.len() == self@.len(),
            self@.dom().finite(),
    {
        proof {
            use_type_invariant(&*self);
            lemma_lookup(self.entries@);
        }
        let mut out: Vec<u128> = Vec::new();
        let mut i: usize = 0;
        while i < self.entries.len()
            invariant
                i <= self.entries@.len(),
                out@ == keys_of(self.entries@).take(i as int),
            decreases self.entries@.len() - i,
        {
            out.push(self.entries[i].0);
            i += 1;
            assert(out@ =~= keys_of(self.entries@).take(i as int));
        }
        assert(keys_of(self.entries@).take(i as int) =~= keys_of(self.entries@));
        proof {
            assert forall|k: u128| #[trigger] out@.contains(k) <==> self@.contains_key(k) by {
                if out@.contains(k) {
                    let j = choose|j: int| 0 <= j < out@.len() && out@[j] == k;
                    assert(self.entries@[j].0 == k);
                }
                if self@.contains_key(k) {
                    let j = choose|j: int|
                        0 <= j < self.entries@.len() && (#[trigger] self.entries@[j]).0 == k;
                    assert(out@[j] == k);
                }
            }
            assert forall|a: int, b: int| 0 <= a < b < out@.len() implies out@[a] < out@[b] by {
                assert(self.entries@[a].0 < self.entries@[b].0);
            }
            key_list_is_unique(self@, out@);
        }
        out
    }

    /// Remove the entries of all listed keys.
    pub fn remove_all(&mut self, keys: &Vec<u128>)
        ensures
            final(self)@ == without(old(self)@, keys@),
    {
        let mut i: usize = 0;
        assert(self@ =~= without(old(self)@, keys@.take(0)));
        while i < keys.len()
            invariant
                i <= keys@.len(),
                self@ == without(old(self)@, keys@.take(i as int)),
            decreases keys@.len() - i,
        {
            let _ = self.remove(keys[i]);
            proof {
                let a = keys@.take(i as int);
                let b = keys@.take(i + 1);
                assert(b =~= a.push(keys@[i as int]));
                assert forall|k: u128| #[trigger] b.contains(k) <==> a.contains(k) || k
                    == keys@[i as int] by {
                    if a.contains(k) {
                        let x = choose|x: int| 0 <= x < a.len() && a[x] == k;
                        assert(b[x] == k);
                    }
                    assert(b[i as int] == keys@[i as int]);
                }
                assert(self@ =~= without(old(self)@, b));
            }
            i += 1;
        }
        assert(keys@.take(i as int) =~= keys@);
    }
}

impl<V> Default for IdMap<V> {
    fn default() -> (r: Self)
        ensures
            r@ == Map::<u128, V>::empty(),
    {
        IdMap::new()
    }
}

} // verus!
