//! Run queues: a shared one and one per worker, all first in, first out.

use std::collections::VecDeque;

use vstd::prelude::*;

verus! {

/// What a steal found.
#[derive(Debug)]
pub enum Steal<T> {
    Empty,
    Success(T),
}

/// A queue after its front left, and the front.
pub open spec fn front_taken<T>(q: Seq<T>) -> (Seq<T>, Option<T>) {
    if q.len() == 0 {
        (q, None)
    } else {
        (q.drop_first(), Some(q[0]))
    }
}

/// What a steal says of an optional task.
pub open spec fn steal_of<T>(t: Option<T>) -> Steal<T> {
    match t {
        Some(x) => Steal::Success(x),
        None => Steal::Empty,
    }
}

/// Queue of new and woken tasks, shared by the workers.
pub struct Injector<T> {
    pub tasks: VecDeque<T>,
}

impl<T> View for Injector<T> {
    type V = Seq<T>;

    open spec fn view(&self) -> Seq<T> {
        self.tasks@
    }
}

impl<T> Injector<T> {
    pub fn new() -> (r: Self)
        ensures
            r@ == Seq::<T>::empty(),
    {
        Injector { tasks: VecDeque::new() }
    }

    pub fn push(&mut self, task: T)
        ensures
            final(self)@ == old(self)@.push(task),
    {
        self.tasks.push_back(task);
    }

    /// Take the oldest task.
    pub fn steal(&mut self) -> (r: Steal<T>)
        ensures
            final(self)@ == front_taken(old(self)@).0,
            r == steal_of(front_taken(old(self)@).1),
    {
        match self.tasks.pop_front() {
            Some(t) => {
                assert(self@ =~= old(self)@.drop_first());
                Steal::Success(t)
            },
            None => Steal::Empty,
        }
    }
}

impl<T> Default for Injector<T> {
    fn default() -> (r: Self)
        ensures
            r@ == Seq::<T>::empty(),
    {
        Injector::new()
    }
}

/// Queue of one worker. Others may steal from it.
pub struct Worker<T> {
    pub tasks: VecDeque<T>,
}

impl<T> View for Worker<T> {
    type V = Seq<T>;

    open spec fn view(&self) -> Seq<T> {
        self.tasks@
    }
}

impl<T> Worker<T> {
    pub fn new_fifo() -> (r: Self)
        ensures
            r@ == Seq::<T>::empty(),
    {
        Worker { tasks: VecDeque::new() }
    }

    pub fn push(&mut self, task: T)
        ensures
            final(self)@ == old(self)@.push(task),
    {
        self.tasks.push_back(task);
    }

    /// Take the oldest task.
    pub fn pop(&mut self) -> (r: Option<T>)
        ensures
            (final(self)@, r) == front_taken(old(self)@),
    {
        match self.tasks.pop_front() {
            Some(t) => {
                assert(self@ =~= old(self)@.drop_first());
                Some(t)
            },
            None => None,
        }
    }

    /// A handle to steal from this queue.
    pub fn stealer(&mut self) -> (r: Stealer<'_, T>)
        ensures
            r.victim@ == old(self)@,
            *final(self) == *final(r.victim),
    {
        Stealer { victim: self }
    }
}

/// Handle to steal from the queue of another worker.
pub struct Stealer<'a, T> {
    pub victim: &'a mut Worker<T>,
}

impl<'a, T> Stealer<'a, T> {
    /// Take the oldest task of the other worker.
    pub fn steal(self) -> (r: Steal<T>)
        ensures
            final(self.victim)@ == front_taken(old(self.victim)@).0,
            r == steal_of(front_taken(old(self.victim)@).1),
    {
        match self.victim.pop() {
            Some(t) => Steal::Success(t),
            None => Steal::Empty,
        }
    }
}

/// Where a worker found its next task.
#[derive(Debug, Clone, Copy, PartialEq, Eq, Structural)]
pub enum Found<T> {
    Local(T),
    Injected(T),
    Stolen(T),
    Nothing,
}

/// The first queue that is not empty.
pub open spec fn first_busy<T>(locals: Seq<Seq<T>>, from: nat) -> Option<int>
    decreases locals.len() - from,
{
    if from >= locals.len() {
        None
    } else if locals[from as int].len() > 0 {
        Some(from as int)
    } else {
        first_busy(locals, from + 1)
    }
}

/// The queues after worker `w` looked for work, and what it found: its own
/// oldest task, else the oldest shared one, else the oldest of the first
/// worker that has one.
pub open spec fn work_found<T>(locals: Seq<Seq<T>>, shared: Seq<T>, w: int) -> (
    Seq<Seq<T>>,
    Seq<T>,
    Found<T>,
) {
    if 0 <= w < locals.len() && locals[w].len() > 0 {
        (locals.update(w, locals[w].drop_first()), shared, Found::Local(locals[w][0]))
    } else if shared.len() > 0 {
        (locals, shared.drop_first(), Found::Injected(shared[0]))
    } else {
        match first_busy(locals, 0) {
            Some(v) => (
                locals.update(v, locals[v].drop_first()),
                shared,
                Found::Stolen(locals[v][0]),
            ),
            None => (locals, shared, Found::Nothing),
        }
    }
}

/// Models of the workers' queues.
pub open spec fn queues<T>(s: Seq<Worker<T>>) -> Seq<Seq<T>> {
    Seq::new(s.len(), |i: int| s[i]@)
}

/// Look for the next task of worker `w`.
pub fn find_work<T>(locals: &mut Vec<Worker<T>>, shared: &mut Injector<T>, w: usize) -> (r: Found<T>)
    ensures
        (queues(final(locals)@), final(shared)@, r) == work_found(
            queues(old(locals)@),
            old(shared)@,
            w as int,
        ),
{
    let ghost l0 = queues(locals@);
    if w < locals.len() {
        assert(l0[w as int] == locals@[w as int]@);
        if let Some(t) = locals[w].pop() {
            assert(queues(locals@) =~= l0.update(w as int, l0[w as int].drop_first()));
            return Found::Local(t);
        }
        assert(queues(locals@) =~= l0);
    }
    if let Steal::Success(t) = shared.steal() {
        return Found::Injected(t);
    }
    let mut v: usize = 0;
    while v < locals.len()
        invariant
            v <= locals@.len(),
            l0 == queues(old(locals)@),
            queues(locals@) == l0,
            shared@ == old(shared)@,
            old(shared)@.len() == 0,
            w < l0.len() ==> l0[w as int].len() == 0,
            first_busy(l0, 0) == first_busy(l0, v as nat),
        decreases locals@.len() - v,
    {
        assert(l0[v as int] == locals@[v as int]@);
        if let Some(t) = locals[v].pop() {
            assert(queues(locals@) =~= l0.update(v as int, l0[v as int].drop_first()));
            return Found::Stolen(t);
        }
        assert(queues(locals@) =~= l0);
        v += 1;
    }
    Found::Nothing
}

/// No task is lost or invented when a worker looks for one.
pub proof fn work_is_conserved<T>(locals: Seq<Seq<T>>, shared: Seq<T>, w: int)
    ensures
        ({
            let (l, s, f) = work_found(locals, shared, w);
            match f {
                Found::Nothing => l == locals && s == shared && shared.len() == 0
                    && first_busy(locals, 0) is None,
                Found::Local(t) => s == shared && locals[w] == seq![t] + l[w],
                Found::Injected(t) => l == locals && shared == seq![t] + s,
                Found::Stolen(t) => s == shared && exists|v: int|
                    0 <= v < locals.len() && locals[v] == seq![t] + #[trigger] l[v],
            }
        }),
{
    let (l, s, f) = work_found(locals, shared, w);
    match f {
        Found::Local(t) => {
            assert(locals[w] =~= seq![t] + l[w]);
        },
        Found::Injected(t) => {
            assert(shared =~= seq![t] + s);
        },
        Found::Stolen(t) => {
            lemma_first_busy(locals, 0);
            let v = first_busy(locals, 0)->Some_0;
            assert(locals[v] =~= seq![t] + l[v]);
        },
        Found::Nothing => {},
    }
}

proof fn lemma_first_busy<T>(locals: Seq<Seq<T>>, from: nat)
    ensures
        first_busy(locals, from) matches Some(v) ==> from <= v < locals.len() && locals[v].len() > 0,
    decreases locals.len() - from,
{
    if from < locals.len() && locals[from as int].len() == 0 {
        lemma_first_busy(locals, from + 1);
    }
}

} // verus!
