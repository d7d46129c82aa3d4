//! A bounded-concurrency map over an ordered list of items, as a state machine.
//!
//! The coordinator decides which item starts next and where each result goes.
//! Whoever drives it performs the work: it asks for the next item with
//! [`Parallel::dispatch`], runs the operation, and reports the outcome with
//! [`Parallel::complete`], in whatever order the operations end. Results are
//! collected by the position of their item, so the order of completion leaves
//! no trace in what [`Parallel::finish`] returns. The first failure reported
//! stops further dispatch and becomes the result of the whole run. So does
//! [`Parallel::revoke`], by which the driver passes on that its liveness
//! token was revoked: nothing more is handed out after it.

use vstd::prelude::*;

verus! {

/// Number of operations that run at the same time in this system.
pub const WORKERS: usize = 4;

/// What the coordinator knows of one item.
#[derive(Debug)]
pub enum Slot<T> {
    /// Not handed out yet.
    Waiting,
    /// Handed out, outcome not reported yet.
    Running,
    /// Ended with this value.
    Done(T),
    /// Ended with a failure.
    Failed,
}

/// How many items of `s` are running.
pub open spec fn running_count<T>(s: Seq<Slot<T>>) -> nat
    decreases s.len(),
{
    if s.len() == 0 {
        0
    } else {
        running_count(s.drop_last()) + if s.last() is Running {
            1nat
        } else {
            0nat
        }
    }
}

/// Replacing one slot changes the count by what that slot gave and gives.
pub proof fn lemma_running_count_update<T>(s: Seq<Slot<T>>, i: int, v: Slot<T>)
    requires
        0 <= i < s.len(),
    ensures
        running_count(s.update(i, v)) + (if s[i] is Running {
            1nat
        } else {
            0nat
        }) == running_count(s) + (if v is Running {
            1nat
        } else {
            0nat
        }),
    decreases s.len(),
{
    let t = s.update(i, v);
    if i == s.len() - 1 {
        assert(t.drop_last() =~= s.drop_last());
    } else {
        assert(t.drop_last() =~= s.drop_last().update(i, v));
        lemma_running_count_update(s.drop_last(), i, v);
    }
}

/// A list without a running item counts zero.
pub proof fn lemma_running_count_zero<T>(s: Seq<Slot<T>>)
    requires
        forall|i: int| 0 <= i < s.len() ==> !(#[trigger] s[i] is Running),
    ensures
        running_count(s) == 0,
    decreases s.len(),
{
    if s.len() > 0 {
        lemma_running_count_zero(s.drop_last());
    }
}

/// One step of a run: item `i` was waiting and is handed out.
pub open spec fn handed_out_at<T>(a: Seq<Slot<T>>, b: Seq<Slot<T>>, i: int) -> bool {
    &&& 0 <= i < a.len()
    &&& a[i] is Waiting
    &&& b == a.update(i, Slot::Running)
}

/// One step of a run: item `i` was running and reports the value `v`.
pub open spec fn reported_at<T>(a: Seq<Slot<T>>, b: Seq<Slot<T>>, i: int, v: T) -> bool {
    &&& 0 <= i < a.len()
    &&& a[i] is Running
    &&& b == a.update(i, Slot::Done(v))
}

/// The coordinator of one run over `slots().len()` items.
#[derive(Debug)]
pub struct Parallel<T, E> {
    capacity: usize,
    slots: Vec<Slot<T>>,
    next: usize,
    running: usize,
    failure: Option<E>,
    alive: bool,
}

impl<T, E> Parallel<T, E> {
    /// The state of every item, by position in the input.
    pub closed spec fn slots(&self) -> Seq<Slot<T>> {
        self.slots@
    }

    /// The most operations allowed to run at once.
    pub closed spec fn limit(&self) -> nat {
        self.capacity as nat
    }

    /// The first failure reported, if any.
    pub closed spec fn failure(&self) -> Option<E> {
        self.failure
    }

    /// Whether the run may still hand out items: it was not revoked.
    pub closed spec fn alive(&self) -> bool {
        self.alive
    }

    /// Position of the first item not handed out yet.
    pub closed spec fn next_index(&self) -> nat {
        self.next as nat
    }

    /// Whether the coordinator's own tally of running items is right.
    pub closed spec fn counted(&self) -> bool {
        self.running as nat == running_count(self.slots@)
    }

    /// Items are handed out in input order, never more than `limit()` run,
    /// and a failure is kept exactly where an item has failed.
    pub open spec fn wf(&self) -> bool {
        &&& self.limit() >= 1
        &&& self.failure() is Some <==> exists|i: int|
            0 <= i < self.slots().len() && (#[trigger] self.slots()[i]) is Failed
        &&& self.next_index() <= self.slots().len()
        &&& forall|i: int|
            0 <= i < self.slots().len() ==> ((#[trigger] self.slots()[i]) is Waiting <==> i
                >= self.next_index())
        &&& running_count(self.slots()) <= self.limit()
        &&& self.counted()
    }

    /// Whether another item may start now.
    pub open spec fn can_dispatch(&self) -> bool {
        &&& self.alive()
        &&& self.failure() is None
        &&& self.next_index() < self.slots().len()
        &&& running_count(self.slots()) < self.limit()
    }

    /// Whether the run has its result: a failure, or a value for every item.
    pub open spec fn settled(&self) -> bool {
        self.failure() is Some || forall|i: int|
            0 <= i < self.slots().len() ==> (#[trigger] self.slots()[i]) is Done
    }

    /// A run over `total` items with at most `capacity` operations at once.
    pub fn new(total: usize, capacity: usize) -> (r: Self)
        requires
            capacity >= 1,
        ensures
            r.wf(),
            r.limit() == capacity,
            r.next_index() == 0,
            r.alive(),
            r.failure() is None,
            r.slots() == Seq::new(total as nat, |i: int| Slot::<T>::Waiting),
    {
        let mut slots: Vec<Slot<T>> = Vec::new();
        let mut i: usize = 0;
        while i < total
            invariant
                i <= total,
                slots@ == Seq::new(i as nat, |k: int| Slot::<T>::Waiting),
            decreases total - i,
        {
            slots.push(Slot::Waiting);
            i += 1;
            assert(slots@ =~= Seq::new(i as nat, |k: int| Slot::<T>::Waiting));
        }
        proof {
            lemma_running_count_zero(slots@);
        }
        Parallel { capacity, slots, next: 0, running: 0, failure: None, alive: true }
    }

    /// Number of items in the run.
    pub fn total(&self) -> (r: usize)
        ensures
            r == self.slots().len(),
    {
        self.slots.len()
    }

    /// Whether item `index` was handed out and has not reported yet.
    pub fn is_running(&self, index: usize) -> (r: bool)
        ensures
            r == (index < self.slots().len() && self.slots()[index as int] is Running),
    {
        if index < self.slots.len() {
            match &self.slots[index] {
                Slot::Running => true,
                _ => false,
            }
        } else {
            false
        }
    }

    /// Stops the run from handing out items; what is running may still
    /// report.
    pub fn revoke(&mut self)
        requires
            old(self).wf(),
        ensures
            final(self).wf(),
            !final(self).alive(),
            final(self).limit() == old(self).limit(),
            final(self).failure() == old(self).failure(),
            final(self).next_index() == old(self).next_index(),
            final(self).slots() == old(self).slots(),
    {
        self.alive = false;
    }

    /// Whether the run was not revoked.
    pub fn is_alive(&self) -> (r: bool)
        ensures
            r == self.alive(),
    {
        self.alive
    }

    /// Hands out the next item, in input order, if the run is alive, none
    /// has failed and fewer than `limit()` are running; otherwise changes
    /// nothing.
    pub fn dispatch(&mut self) -> (r: Option<usize>)
        requires
            old(self).wf(),
        ensures
            final(self).wf(),
            final(self).limit() == old(self).limit(),
            final(self).alive() == old(self).alive(),
            final(self).failure() == old(self).failure(),
            r is Some <==> old(self).can_dispatch(),
            match r {
                Some(i) => {
                    &&& i == old(self).next_index()
                    &&& final(self).next_index() == i + 1
                    &&& handed_out_at(old(self).slots(), final(self).slots(), i as int)
                },
                None => {
                    &&& final(self).next_index() == old(self).next_index()
                    &&& final(self).slots() == old(self).slots()
                },
            },
    {
        if !self.alive || self.failure.is_some() || self.next >= self.slots.len() || self.running
            >= self.capacity {
            return None;
        }
        let i = self.next;
        let ghost before = self.slots@;
        proof {
            lemma_running_count_update(self.slots@, i as int, Slot::Running);
        }
        self.slots[i] = Slot::Running;
        self.next = i + 1;
        self.running = self.running + 1;
        proof {
            assert forall|k: int| 0 <= k < before.len() implies !(#[trigger] self.slots@[k]
                is Failed) by {
                assert(!(before[k] is Failed));
            }
        }
        Some(i)
    }

    /// Records how the operation on item `index` ended. A value goes to the
    /// item's own position; the first failure is kept, later ones are dropped.
    pub fn complete(&mut self, index: usize, result: Result<T, E>)
        requires
            old(self).wf(),
            index < old(self).slots().len(),
            old(self).slots()[index as int] is Running,
        ensures
            final(self).wf(),
            final(self).limit() == old(self).limit(),
            final(self).alive() == old(self).alive(),
            final(self).next_index() == old(self).next_index(),
            match result {
                Ok(v) => {
                    &&& reported_at(old(self).slots(), final(self).slots(), index as int, v)
                    &&& final(self).failure() == old(self).failure()
                },
                Err(e) => {
                    &&& final(self).slots() == old(self).slots().update(index as int, Slot::Failed)
                    &&& final(self).failure() == if old(self).failure() is Some {
                        old(self).failure()
                    } else {
                        Some(e)
                    }
                },
            },
    {
        let ghost before = self.slots@;
        proof {
            lemma_running_count_update(self.slots@, index as int, Slot::<T>::Failed);
            lemma_running_count_update(self.slots@, index as int, Slot::Done(result->Ok_0));
        }
        match result {
            Ok(v) => {
                self.slots[index] = Slot::Done(v);
                proof {
                    if self.failure is Some {
                        let i = choose|i: int|
                            0 <= i < before.len() && (#[trigger] before[i]) is Failed;
                        assert(self.slots@[i] is Failed);
                    } else {
                        assert forall|k: int| 0 <= k < before.len() implies !(
                        #[trigger] self.slots@[k] is Failed) by {
                            assert(!(before[k] is Failed));
                        }
                    }
                }
            },
            Err(e) => {
                self.slots[index] = Slot::Failed;
                if self.failure.is_none() {
                    self.failure = Some(e);
                }
                assert(self.slots@[index as int] is Failed);
            },
        }
        self.running = self.running - 1;
    }

    /// Whether the run has its result.
    pub fn is_settled(&self) -> (r: bool)
        requires
            self.wf(),
        ensures
            r == self.settled(),
    {
        if self.failure.is_some() {
            return true;
        }
        let mut i: usize = 0;
        while i < self.slots.len()
            invariant
                i <= self.slots@.len(),
                self.failure is None,
                forall|k: int| 0 <= k < i ==> (#[trigger] self.slots@[k]) is Done,
            decreases self.slots@.len() - i,
        {
            match &self.slots[i] {
                Slot::Done(_) => {},
                _ => {
                    assert(!(self.slots()[i as int] is Done));
                    return false;
                },
            }
            i += 1;
        }
        true
    }

    /// The result of a settled run: the first failure reported, or the values
    /// in the order of their items.
    pub fn finish(self) -> (r: Result<Vec<T>, E>)
        requires
            self.wf(),
            self.settled(),
        ensures
            (forall|i: int| 0 <= i < self.slots().len() ==> (#[trigger] self.slots()[i]) is Done)
                ==> r is Ok,
            match r {
                Ok(v) => {
                    &&& self.failure() is None
                    &&& v@.len() == self.slots().len()
                    &&& forall|i: int|
                        0 <= i < v@.len() ==> (#[trigger] self.slots()[i]) == Slot::Done(v@[i])
                },
                Err(e) => self.failure() == Some(e),
            },
    {
        let ghost all = self.slots@;
        proof {
            if self.failure is Some {
                let i = choose|i: int| 0 <= i < all.len() && (#[trigger] all[i]) is Failed;
                assert(!(all[i] is Done));
            }
        }
        let Parallel { capacity: _, slots, next: _, running: _, failure, alive: _ } = self;
        let mut slots = slots;
        match failure {
            Some(e) => {
                return Err(e);
            },
            None => {},
        }
        let mut rev: Vec<T> = Vec::new();
        while slots.len() > 0
            invariant
                slots@.len() + rev@.len() == all.len(),
                slots@ == all.subrange(0, slots@.len() as int),
                forall|i: int| 0 <= i < all.len() ==> (#[trigger] all[i]) is Done,
                forall|k: int|
                    0 <= k < rev@.len() ==> all[all.len() - 1 - k] == Slot::Done(#[trigger] rev@[k]),
            decreases slots@.len(),
        {
            let ghost before = slots@;
            let s = slots.pop();
            assert(slots@ =~= all.subrange(0, slots@.len() as int));
            assert(before[before.len() - 1] == all[before.len() - 1]);
            match s {
                Some(Slot::Done(v)) => {
                    rev.push(v);
                },
                _ => {
                    assert(false);
                },
            }
        }
        let mut out: Vec<T> = Vec::new();
        let ghost taken = rev@;
        while rev.len() > 0
            invariant
                rev@.len() + out@.len() == taken.len(),
                rev@ == taken.subrange(0, rev@.len() as int),
                forall|k: int| 0 <= k < out@.len() ==> #[trigger] out@[k] == taken[taken.len() - 1 - k],
            decreases rev@.len(),
        {
            let ghost before = rev@;
            let v = rev.pop();
            assert(rev@ =~= taken.subrange(0, rev@.len() as int));
            assert(before[before.len() - 1] == taken[before.len() - 1]);
            match v {
                Some(x) => {
                    out.push(x);
                },
                None => {
                    assert(false);
                },
            }
        }
        assert forall|i: int| 0 <= i < out@.len() implies (#[trigger] all[i]) == Slot::Done(
            out@[i],
        ) by {
            let k = taken.len() - 1 - i;
            assert(all[all.len() - 1 - k] == Slot::Done(taken[k]));
        }
        Ok(out)
    }
}

} // verus!
