//! Table keyed by a name.

use vstd::prelude::*;

use crate::text::same_text;

verus! {

/// The names are all different.
spec fn distinct<V>(s: Seq<(String, V)>) -> bool {
    forall|i: int, j: int| 0 <= i < j < s.len() ==> (#[trigger] s[i]).0@ != (#[trigger] s[j]).0@
}

/// The map that a list of entries denotes.
spec fn to_map<V>(s: Seq<(String, V)>) -> Map<Seq<char>, V>
    decreases s.len(),
{
    if s.len() == 0 {
        Map::empty()
    } else {
        to_map(s.drop_last()).insert(s.last().0@, s.last().1)
    }
}

proof fn lemma_lookup<V>(s: Seq<(String, V)>)
    requires
        distinct(s),
    ensures
        to_map(s).dom().finite(),
        to_map(s).len() == s.len(),
        forall|i: int|
            0 <= i < s.len() ==> to_map(s).contains_key((#[trigger] s[i]).0@) && to_map(
                s,
            )[s[i].0@] == s[i].1,
        forall|k: Seq<char>| #[trigger]
            to_map(s).contains_key(k) ==> exists|i: int|
                0 <= i < s.len() && (#[trigger] s[i]).0@ == k,
    decreases s.len(),
{
    if s.len() > 0 {
        let t = s.drop_last();
        let last = s.last();
        assert forall|i: int, j: int| 0 <= i < j < t.len() implies (#[trigger] t[i]).0@ != (
        #[trigger] t[j]).0@ by {
            assert(t[i] == s[i] && t[j] == s[j]);
        }
        lemma_lookup(t);
        assert(!to_map(t).contains_key(last.0@)) by {
            if to_map(t).contains_key(last.0@) {
                let i = choose|i: int| 0 <= i < t.len() && (#[trigger] t[i]).0@ == last.0@;
                assert(s[i].0@ != s[s.len() - 1].0@);
            }
        }
        assert forall|i: int| 0 <= i < s.len() implies to_map(s).contains_key(
            (#[trigger] s[i]).0@,
        ) && to_map(s)[s[i].0@] == s[i].1 by {
            if i < t.len() {
                assert(t[i] == s[i]);
                assert(s[i].0@ != s[s.len() - 1].0@);
            }
        }
        assert forall|k: Seq<char>| #[trigger] to_map(s).contains_key(k) implies exists|i: int|
            0 <= i < s.len() && (#[trigger] s[i]).0@ == k by {
            if k == last.0@ {
                assert(s[s.len() - 1].0@ == k);
            } else {
                let i = choose|i: int| 0 <= i < t.len() && (#[trigger] t[i]).0@ == k;
                assert(s[i].0@ == k);
            }
        }
    }
}

proof fn lemma_remove<V>(s: Seq<(String, V)>, p: int)
    requires
        distinct(s),
        0 <= p < s.len(),
    ensures
        distinct(s.remove(p)),
        to_map(s.remove(p)) == to_map(s).remove(s[p].0@),
{
    let t = s.remove(p);
    assert forall|i: int, j: int| 0 <= i < j < t.len() implies (#[trigger] t[i]).0@ != (
    #[trigger] t[j]).0@ by {
        let a = if i < p {
            i
        } else {
            i + 1
        };
        let b = if j < p {
            j
        } else {
            j + 1
        };
        assert(t[i] == s[a] && t[j] == s[b]);
    }
    lemma_lookup(s);
    lemma_lookup(t);
    let m = to_map(s).remove(s[p].0@);
    assert forall|k: Seq<char>| to_map(t).contains_key(k) <==> m.contains_key(k) by {
        if to_map(t).contains_key(k) {
            let i = choose|i: int| 0 <= i < t.len() && (#[trigger] t[i]).0@ == k;
            let a = if i < p {
                i
            } else {
                i + 1
            };
            assert(t[i] == s[a]);
            assert(s[a].0@ != s[p].0@);
        }
        if m.contains_key(k) {
            let i = choose|i: int| 0 <= i < s.len() && (#[trigger] s[i]).0@ == k;
            let a = if i < p {
                i
            } else {
                i - 1
            };
            assert(t[a] == s[i]);
        }
    }
    assert forall|k: Seq<char>| to_map(t).contains_key(k) implies to_map(t)[k] == m[k] by {
        let i = choose|i: int| 0 <= i < t.len() && (#[trigger] t[i]).0@ == k;
        let a = if i < p {
            i
        } else {
            i + 1
        };
        assert(t[i] == s[a]);
    }
    assert(to_map(t) =~= m);
}

/// Association table from names to values.
pub struct NameMap<V> {
    entries: Vec<(String, V)>,
}

impl<V> View for NameMap<V> {
    type V = Map<Seq<char>, V>;

    closed spec fn view(&self) -> Map<Seq<char>, V> {
        to_map(self.entries@)
    }
}

impl<V> NameMap<V> {
    #[verifier::type_invariant]
    spec fn sound(&self) -> bool {
        distinct(self.entries@)
    }

    /// The empty table.
    pub fn new() -> (r: Self)
        ensures
            r@ == Map::<Seq<char>, V>::empty(),
    {
        NameMap { entries: Vec::new() }
    }

    pub fn len(&self) -> (r: usize)
        ensures
            r == self@.len(),
            self@.dom().finite(),
    {
        proof {
            use_type_invariant(&*self);
            lemma_lookup(self.entries@);
        }
        self.entries.len()
    }

    fn position(&self, name: &str) -> (r: Option<usize>)
        ensures
            match r {
                Some(i) => i < self.entries@.len() && self.entries@[i as int].0@ == name@,
                None => forall|i: int|
                    0 <= i < self.entries@.len() ==> (#[trigger] self.entries@[i]).0@ != name@,
            },
    {
        let mut i: usize = 0;
        while i < self.entries.len()
            invariant
                i <= self.entries@.len(),
                forall|j: int| 0 <= j < i ==> (#[trigger] self.entries@[j]).0@ != name@,
            decreases self.entries@.len() - i,
        {
            if same_text(self.entries[i].0.as_str(), name) {
                return Some(i);
            }
            i += 1;
        }
        None
    }

    /// The value under `name`.
    pub fn get(&self, name: &str) -> (r: Option<&V>)
        ensures
            match r {
                Some(v) => self@.contains_key(name@) && *v == self@[name@],
                None => !self@.contains_key(name@),
            },
    {
        proof {
            use_type_invariant(&*self);
            lemma_lookup(self.entries@);
        }
        match self.position(name) {
            Some(i) => {
                assert(self.entries@[i as int].0@ == name@);
                Some(&self.entries[i].1)
            },
            None => None,
        }
    }

    /// Store a value under a name that has none.
    pub fn add_new(&mut self, name: String, value: V)
        requires
            !old(self)@.contains_key(name@),
        ensures
            final(self)@ == old(self)@.insert(name@, value),
    {
        proof {
            use_type_invariant(&*self);
            lemma_lookup(self.entries@);
        }
        let ghost s0 = self.entries@;
        let mut e: Vec<(String, V)> = Vec::new();
        std::mem::swap(&mut e, &mut self.entries);
        e.push((name, value));
        proof {
            assert forall|i: int, j: int| 0 <= i < j < e@.len() implies (#[trigger] e@[i]).0@ != (
            #[trigger] e@[j]).0@ by {
                if j == s0.len() {
                    assert(to_map(s0).contains_key(s0[i].0@));
                }
            }
            assert(e@.drop_last() =~= s0);
        }
        self.entries = e;
    }

    /// Remove the entry of `name`.
    pub fn remove(&mut self, name: &str) -> (r: Option<V>)
        ensures
            final(self)@ == old(self)@.remove(name@),
            match r {
                Some(v) => old(self)@.contains_key(name@) && v == old(self)@[name@],
                None => !old(self)@.contains_key(name@),
            },
    {
        proof {
            use_type_invariant(&*self);
            lemma_lookup(self.entries@);
        }
        match self.position(name) {
            Some(i) => {
                let ghost s0 = self.entries@;
                assert(s0[i as int].0@ == name@);
                let mut e: Vec<(String, V)> = Vec::new();
                std::mem::swap(&mut e, &mut self.entries);
                let gone = e.remove(i);
                proof {
                    lemma_remove(s0, i as int);
                }
                self.entries = e;
                Some(gone.1)
            },
            None => {
                assert(self@.remove(name@) =~= self@);
                None
            },
        }
    }

    /// An entry at a position; the table does not say which one that is.
    pub fn at(&self, i: usize) -> (r: (&str, &V))
        requires
            i < self@.len(),
        ensures
            self@.contains_key(r.0@),
            self@[r.0@] == *r.1,
            self.nth(i as int) == r.0@,
    {
        proof {
            use_type_invariant(&*self);
            lemma_lookup(self.entries@);
        }
        assert(to_map(self.entries@).contains_key(self.entries@[i as int].0@));
        (self.entries[i].0.as_str(), &self.entries[i].1)
    }

    /// The name at a position.
    pub closed spec fn nth(&self, i: int) -> Seq<char> {
        self.entries@[i].0@
    }

    /// Every name stands at a position.
    pub proof fn positions_cover(&self, name: Seq<char>)
        requires
            self.listed(),
            self@.contains_key(name),
        ensures
            exists|i: int| 0 <= i < self@.len() && #[trigger] self.nth(i) == name,
    {
        lemma_lookup(self.entries@);
        let i = choose|i: int| 0 <= i < self.entries@.len() && (#[trigger] self.entries@[i]).0@
            == name;
        assert(self.nth(i) == name);
    }

    /// The table lists every name once.
    pub closed spec fn listed(&self) -> bool {
        distinct(self.entries@)
    }

    /// Every table lists every name once.
    pub fn check_listed(&self)
        ensures
            self.listed(),
    {
        proof {
            use_type_invariant(&*self);
        }
    }
}

} // verus!
