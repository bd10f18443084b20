//! Growable ring: a FIFO in a vector whose front moves.
//!
//! Growth is geometric and stops at a bound that each push gives, so a
//! queue with a large bound does not pay for it up front.

use vstd::prelude::*;

verus! {

/// FIFO storage.
pub struct Ring<T> {
    buf: Vec<Option<T>>,
    head: usize,
    len: usize,
}

/// Slot of element `i`, counted from `head` and around the end.
spec fn slot(head: int, i: int, cap: int) -> int {
    if head + i < cap {
        head + i
    } else {
        head + i - cap
    }
}

/// The front lies in the buffer and the first `len` slots are filled.
spec fn filled<T>(buf: Seq<Option<T>>, head: int, len: int) -> bool {
    &&& 0 <= len <= buf.len()
    &&& buf.len() == 0 ==> head == 0
    &&& buf.len() > 0 ==> 0 <= head < buf.len()
    &&& forall|i: int| 0 <= i < len ==> buf[#[trigger] slot(head, i, buf.len() as int)] is Some
}

/// The elements in order.
spec fn contents<T>(buf: Seq<Option<T>>, head: int, len: int) -> Seq<T> {
    Seq::new(len as nat, |i: int| buf[slot(head, i, buf.len() as int)]->Some_0)
}

impl<T> View for Ring<T> {
    type V = Seq<T>;

    closed spec fn view(&self) -> Seq<T> {
        contents(self.buf@, self.head as int, self.len as int)
    }
}

fn slot_index(head: usize, i: usize, cap: usize) -> (r: usize)
    requires
        head < cap,
        i < cap,
    ensures
        r == slot(head as int, i as int, cap as int),
        r < cap,
{
    if i < cap - head {
        head + i
    } else {
        i - (cap - head)
    }
}

impl<T> Ring<T> {
    #[verifier::type_invariant]
    spec fn sound(&self) -> bool {
        filled(self.buf@, self.head as int, self.len as int)
    }

    /// An empty ring without a buffer.
    pub fn new() -> (r: Self)
        ensures
            r@ == Seq::<T>::empty(),
    {
        let r = Ring { buf: Vec::new(), head: 0, len: 0 };
        assert(r@ =~= Seq::<T>::empty());
        r
    }

    pub fn len(&self) -> (r: usize)
        ensures
            r == self@.len(),
    {
        self.len
    }

    /// Element `i`.
    pub fn get(&self, i: usize) -> (r: &T)
        requires
            i < self@.len(),
        ensures
            *r == self@[i as int],
    {
        proof {
            use_type_invariant(&*self);
        }
        let at: usize = slot_index(self.head, i, self.buf.len());
        match &self.buf[at] {
            Some(v) => v,
            None => {
                assert(false);
                vstd::pervasive::unreached()
            },
        }
    }

    /// Take the front element out.
    pub fn pop_front(&mut self) -> (r: Option<T>)
        ensures
            old(self)@.len() == 0 ==> r is None && final(self)@ == old(self)@,
            old(self)@.len() > 0 ==> r == Some(old(self)@[0]) && final(self)@
                == old(self)@.drop_first(),
    {
        proof {
            use_type_invariant(&*self);
        }
        if self.len == 0 {
            return None;
        }
        let head: usize = self.head;
        let len: usize = self.len;
        let ghost before = self.buf@;
        let ghost all = self@;
        self.len = 0;
        self.head = 0;
        let mut buf: Vec<Option<T>> = Vec::new();
        std::mem::swap(&mut buf, &mut self.buf);
        let cap: usize = buf.len();
        assert(slot(head as int, 0, cap as int) == head);
        let mut value: Option<T> = None;
        std::mem::swap(&mut value, &mut buf[head]);
        let next: usize = if len == 1 {
            0
        } else {
            slot_index(head, 1, cap)
        };
        proof {
            if len > 1 {
                assert forall|i: int| 0 <= i < len - 1 implies buf@[#[trigger] slot(
                    next as int,
                    i,
                    cap as int,
                )] == before[slot(head as int, i + 1, cap as int)] by {
                    assert(slot(next as int, i, cap as int) == slot(
                        head as int,
                        i + 1,
                        cap as int,
                    ));
                }
                assert forall|i: int| 0 <= i < len - 1 implies buf@[#[trigger] slot(
                    next as int,
                    i,
                    cap as int,
                )] is Some by {
                    assert(before[slot(head as int, i + 1, cap as int)] is Some);
                }
            }
            assert(contents(buf@, next as int, len - 1) =~= all.drop_first());
        }
        self.buf = buf;
        self.head = next;
        self.len = len - 1;
        value
    }

    /// Take element `at` out; the others keep their order.
    pub fn remove(&mut self, at: usize) -> (r: T)
        requires
            at < old(self)@.len(),
        ensures
            r == old(self)@[at as int],
            final(self)@ == old(self)@.remove(at as int),
    {
        proof {
            use_type_invariant(&*self);
        }
        let head: usize = self.head;
        let len: usize = self.len;
        let ghost before = self.buf@;
        let ghost all = self@;
        self.len = 0;
        self.head = 0;
        let mut buf: Vec<Option<T>> = Vec::new();
        std::mem::swap(&mut buf, &mut self.buf);
        let cap: usize = buf.len();
        let hole: usize = slot_index(head, at, cap);
        let mut taken: Option<T> = None;
        std::mem::swap(&mut taken, &mut buf[hole]);
        let mut i: usize = at;
        while i + 1 < len
            invariant
                filled(before, head as int, len as int),
                before.len() == cap,
                buf@.len() == cap,
                head < cap,
                at <= i < len <= cap,
                buf@[slot(head as int, i as int, cap as int)] is None,
                forall|j: int|
                    0 <= j < at ==> buf@[#[trigger] slot(head as int, j, cap as int)]
                        == before[slot(head as int, j, cap as int)],
                forall|j: int|
                    at <= j < i ==> buf@[#[trigger] slot(head as int, j, cap as int)]
                        == before[slot(head as int, j + 1, cap as int)],
                forall|j: int|
                    i < j < len ==> buf@[#[trigger] slot(head as int, j, cap as int)]
                        == before[slot(head as int, j, cap as int)],
            decreases len - i,
        {
            let from: usize = slot_index(head, i + 1, cap);
            let to: usize = slot_index(head, i, cap);
            let mut moved: Option<T> = None;
            std::mem::swap(&mut moved, &mut buf[from]);
            buf.set(to, moved);
            i += 1;
        }
        proof {
            assert forall|j: int| 0 <= j < len - 1 implies buf@[#[trigger] slot(
                head as int,
                j,
                cap as int,
            )] is Some by {
                if j >= at {
                    assert(before[slot(head as int, j + 1, cap as int)] is Some);
                } else {
                    assert(before[slot(head as int, j, cap as int)] is Some);
                }
            }
            assert(contents(buf@, head as int, len - 1) =~= all.remove(at as int));
        }
        let next: usize = if len == 1 {
            0
        } else {
            head
        };
        proof {
            if len == 1 {
                assert(contents(buf@, 0, 0) =~= all.remove(at as int));
            }
        }
        self.buf = buf;
        self.head = next;
        self.len = len - 1;
        assert(before[slot(head as int, at as int, cap as int)] is Some);
        match taken {
            Some(v) => v,
            None => {
                assert(false);
                vstd::pervasive::unreached()
            },
        }
    }

    /// Append `value`. The buffer grows to at most `bound` slots.
    pub fn push_back(&mut self, value: T, bound: usize)
        requires
            old(self)@.len() < bound,
        ensures
            final(self)@ == old(self)@.push(value),
    {
        proof {
            use_type_invariant(&*self);
        }
        let head: usize = self.head;
        let len: usize = self.len;
        let ghost before = self.buf@;
        let ghost all = self@;
        self.len = 0;
        self.head = 0;
        let mut buf: Vec<Option<T>> = Vec::new();
        std::mem::swap(&mut buf, &mut self.buf);
        let cap: usize = buf.len();
        if len < cap {
            let at: usize = slot_index(head, len, cap);
            proof {
                assert forall|j: int| 0 <= j < len implies #[trigger] slot(
                    head as int,
                    j,
                    cap as int,
                ) != at by {}
            }
            buf.set(at, Some(value));
            proof {
                assert forall|j: int| 0 <= j < len + 1 implies buf@[#[trigger] slot(
                    head as int,
                    j,
                    cap as int,
                )] is Some by {
                    if j < len {
                        assert(before[slot(head as int, j, cap as int)] is Some);
                    }
                }
                assert(contents(buf@, head as int, len + 1) =~= all.push(value));
            }
            self.buf = buf;
            self.head = head;
            self.len = len + 1;
        } else {
            let doubled: usize = if cap == 0 {
                2
            } else if cap <= usize::MAX / 2 {
                cap * 2
            } else {
                usize::MAX
            };
            let next: usize = if doubled < bound {
                doubled
            } else {
                bound
            };
            let mut grown: Vec<Option<T>> = Vec::new();
            let mut i: usize = 0;
            while i < len
                invariant
                    filled(before, head as int, len as int),
                    before.len() == cap,
                    len == cap,
                    buf@.len() == cap,
                    i <= len,
                    grown@.len() == i,
                    forall|j: int|
                        0 <= j < i ==> grown@[j] == before[#[trigger] slot(
                            head as int,
                            j,
                            cap as int,
                        )],
                    forall|j: int|
                        i <= j < len ==> buf@[#[trigger] slot(head as int, j, cap as int)]
                            == before[slot(head as int, j, cap as int)],
                decreases len - i,
            {
                let at: usize = slot_index(head, i, cap);
                let mut moved: Option<T> = None;
                std::mem::swap(&mut moved, &mut buf[at]);
                grown.push(moved);
                i += 1;
            }
            let ghost carried = grown@;
            grown.push(Some(value));
            let ghost kept = grown@;
            while grown.len() < next
                invariant
                    kept.len() == len + 1,
                    len + 1 <= next,
                    len + 1 <= grown@.len() <= next,
                    forall|j: int| 0 <= j < len + 1 ==> grown@[j] == kept[j],
                decreases next - grown@.len(),
            {
                grown.push(None);
            }
            proof {
                assert forall|j: int| 0 <= j < len + 1 implies grown@[#[trigger] slot(
                    0,
                    j,
                    grown@.len() as int,
                )] is Some by {
                    assert(grown@[j] == kept[j]);
                    if j < len {
                        assert(before[slot(head as int, j, cap as int)] is Some);
                        assert(kept[j] == carried[j]);
                    }
                }
                let c = contents(grown@, 0, len + 1);
                assert forall|j: int| 0 <= j < len + 1 implies c[j] == all.push(value)[j] by {
                    assert(slot(0, j, grown@.len() as int) == j);
                    assert(grown@[j] == kept[j]);
                    if j < len {
                        assert(kept[j] == carried[j]);
                        assert(carried[j] == before[slot(head as int, j, cap as int)]);
                    }
                }
                assert(c =~= all.push(value));
            }
            self.buf = grown;
            self.head = 0;
            self.len = len + 1;
        }
    }
}

} // verus!
