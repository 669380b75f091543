//! Event channels: each listener bound to a channel has a bounded queue
//! of its own, and every event written to the channel is queued for every
//! listener.
use vstd::prelude::*;
use std::collections::VecDeque;

verus! {

/// A listener of a channel: the position of its queue.
#[derive(Debug, Clone, Copy, Eq, PartialEq, Hash, Structural)]
pub struct ListenerId(usize);

impl ListenerId {
    pub closed spec fn spec_index(&self) -> usize {
        self.0
    }

    /// The listener whose queue is at `index`.
    pub fn new(index: usize) -> (r: ListenerId)
        ensures
            r.spec_index() == index,
    {
        ListenerId(index)
    }

    pub fn index(&self) -> (r: usize)
        ensures
            r == self.spec_index(),
    {
        self.0
    }
}

/// A listener of one variant of a channel of enum events: the variant and
/// the position of its queue among those of the variant.
#[derive(Debug, Clone, Copy, Eq, PartialEq, Hash)]
pub struct EnumChannelListenerId<T> {
    variant: T,
    index: usize,
}

impl<T: Copy> EnumChannelListenerId<T> {
    pub closed spec fn spec_variant(&self) -> T {
        self.variant
    }

    pub closed spec fn spec_index(&self) -> usize {
        self.index
    }

    pub fn new(variant: T, index: usize) -> (r: EnumChannelListenerId<T>)
        ensures
            r.spec_variant() == variant,
            r.spec_index() == index,
    {
        EnumChannelListenerId { variant, index }
    }

    pub fn variant(&self) -> (r: T)
        ensures
            r == self.spec_variant(),
    {
        self.variant
    }

    pub fn index(&self) -> (r: usize)
        ensures
            r == self.spec_index(),
    {
        self.index
    }
}

/// A written event did not fit the queue of a listener; it is handed back.
#[derive(Debug, Clone, Copy, PartialEq, Eq)]
pub struct PushError<T>(pub T);

/// A channel of events: one bounded first-in first-out queue per bound
/// listener.
pub struct Channel<T> {
    queues: Vec<VecDeque<T>>,
    capacities: Vec<usize>,
}

impl<T: Clone> Channel<T> {
    /// The queued events of each listener, oldest first.
    pub closed spec fn queues(&self) -> Seq<Seq<T>> {
        self.queues@.map_values(|q: VecDeque<T>| q@)
    }

    /// How many events each listener's queue holds at most.
    pub closed spec fn capacities(&self) -> Seq<usize> {
        self.capacities@
    }

    /// Each listener has a queue and a positive capacity that the queue
    /// keeps to.
    pub closed spec fn wf(&self) -> bool {
        &&& self.queues@.len() == self.capacities@.len()
        &&& forall|i: int| 0 <= i < self.capacities@.len() ==> #[trigger] self.capacities@[i] > 0
        &&& forall|i: int| 0 <= i < self.queues@.len() ==> (#[trigger] self.queues@[i])@.len() <= self.capacities@[i]
    }

    /// A channel without listeners.
    pub fn default() -> (r: Channel<T>)
        ensures
            r.wf(),
            r.queues() == Seq::<Seq<T>>::empty(),
    {
        let r = Channel { queues: Vec::new(), capacities: Vec::new() };
        assert(r.queues() =~= Seq::<Seq<T>>::empty());
        r
    }

    /// Binds a new listener whose queue holds at most `message_capacity` events.
    pub fn bind_listener(&mut self, message_capacity: usize) -> (r: ListenerId)
        requires
            old(self).wf(),
            message_capacity > 0,
        ensures
            final(self).wf(),
            r.spec_index() == old(self).queues().len(),
            final(self).queues() == old(self).queues().push(Seq::<T>::empty()),
            final(self).capacities() == old(self).capacities().push(message_capacity),
    {
        let new_id = self.queues.len();
        self.queues.push(VecDeque::with_capacity(message_capacity));
        self.capacities.push(message_capacity);
        proof {
            assert(self.queues() =~= old(self).queues().push(Seq::<T>::empty()));
        }
        ListenerId(new_id)
    }

    /// Takes the oldest event queued for the listener, if any.
    pub fn read(&mut self, listener_id: ListenerId) -> (r: Option<T>)
        requires
            old(self).wf(),
            listener_id.spec_index() < old(self).queues().len(),
        ensures
            final(self).wf(),
            final(self).capacities() == old(self).capacities(),
            ({
                let i = listener_id.spec_index() as int;
                let q = old(self).queues()[i];
                if q.len() == 0 {
                    r is None && final(self).queues() == old(self).queues()
                } else {
                    r == Some(q[0]) && final(self).queues() == old(self).queues().update(i, q.drop_first())
                }
            }),
    {
        let i = listener_id.0;
        let r = self.queues[i].pop_front();
        proof {
            let q = old(self).queues()[i as int];
            if q.len() == 0 {
                assert(self.queues() =~= old(self).queues());
            } else {
                assert(self.queues() =~= old(self).queues().update(i as int, q.drop_first()));
            }
        }
        r
    }

    /// Queues a clone of `event` for every listener.
    pub fn write(&mut self, event: T) -> (r: Result<(), PushError<T>>)
        requires
            old(self).wf(),
            forall|i: int| 0 <= i < old(self).queues().len() ==>
                (#[trigger] old(self).queues()[i]).len() < old(self).capacities()[i],
        ensures
            final(self).wf(),
            r is Ok,
            final(self).capacities() == old(self).capacities(),
            final(self).queues().len() == old(self).queues().len(),
            forall|i: int| 0 <= i < old(self).queues().len() ==> {
                &&& (#[trigger] final(self).queues()[i]).len() == old(self).queues()[i].len() + 1
                &&& final(self).queues()[i].drop_last() == old(self).queues()[i]
                &&& cloned::<T>(event, final(self).queues()[i].last())
            },
    {
        let n = self.queues.len();
        let mut i: usize = 0;
        while i < n
            invariant
                self.wf(),
                n == self.queues@.len(),
                i <= n,
                self.capacities() == old(self).capacities(),
                self.queues().len() == old(self).queues().len(),
                forall|j: int| i <= j < n ==> #[trigger] self.queues()[j] == old(self).queues()[j],
                forall|j: int| i <= j < n ==> (#[trigger] old(self).queues()[j]).len() < old(self).capacities()[j],
                forall|j: int| 0 <= j < i ==> {
                    &&& (#[trigger] self.queues()[j]).len() == old(self).queues()[j].len() + 1
                    &&& self.queues()[j].drop_last() == old(self).queues()[j]
                    &&& cloned::<T>(event, self.queues()[j].last())
                },
            decreases n - i,
        {
            let copy = event.clone();
            let ghost before = self.queues();
            self.queues[i].push_back(copy);
            proof {
                assert(self.queues() =~= before.update(i as int, before[i as int].push(copy)));
                assert(self.queues()[i as int].drop_last() =~= before[i as int]);
            }
            i = i + 1;
        }
        Ok(())
    }

    /// Writes the events in order, each as by `write`.
    pub fn write_iter(&mut self, events: Vec<T>) -> (r: Result<(), PushError<T>>)
        requires
            old(self).wf(),
            forall|i: int| 0 <= i < old(self).queues().len() ==>
                (#[trigger] old(self).queues()[i]).len() + events.len() <= old(self).capacities()[i],
        ensures
            final(self).wf(),
            r is Ok,
            final(self).capacities() == old(self).capacities(),
            final(self).queues().len() == old(self).queues().len(),
            forall|i: int| 0 <= i < old(self).queues().len() ==> {
                &&& (#[trigger] final(self).queues()[i]).len() == old(self).queues()[i].len() + events.len()
                &&& final(self).queues()[i].subrange(0, old(self).queues()[i].len() as int) == old(self).queues()[i]
                &&& forall|k: int| 0 <= k < events@.len() ==>
                    cloned::<T>(events@[k], #[trigger] final(self).queues()[i][old(self).queues()[i].len() + k])
            },
    {
        let ghost all = events@;
        let total = events.len();
        let mut rest = events;
        let mut k: usize = 0;
        while rest.len() > 0
            invariant
                self.wf(),
                k + rest@.len() == all.len(),
                all.len() == total,
                rest@ == all.subrange(k as int, all.len() as int),
                self.capacities() == old(self).capacities(),
                self.queues().len() == old(self).queues().len(),
                forall|i: int| 0 <= i < old(self).queues().len() ==> {
                    &&& (#[trigger] self.queues()[i]).len() == old(self).queues()[i].len() + k
                    &&& self.queues()[i].subrange(0, old(self).queues()[i].len() as int) == old(self).queues()[i]
                    &&& forall|m: int| 0 <= m < k ==>
                        cloned::<T>(all[m], #[trigger] self.queues()[i][old(self).queues()[i].len() + m])
                    &&& old(self).queues()[i].len() + all.len() <= old(self).capacities()[i]
                },
            decreases rest@.len(),
        {
            let ghost before = self.queues();
            let event = rest.remove(0);
            proof {
                assert(event == all[k as int]);
                assert(rest@ =~= all.subrange(k + 1, all.len() as int));
            }
            let _ = self.write(event);
            proof {
                assert forall|i: int| 0 <= i < old(self).queues().len() implies {
                    &&& (#[trigger] self.queues()[i]).len() == old(self).queues()[i].len() + k + 1
                    &&& self.queues()[i].subrange(0, old(self).queues()[i].len() as int) == old(self).queues()[i]
                    &&& forall|m: int| 0 <= m < k + 1 ==>
                        cloned::<T>(all[m], #[trigger] self.queues()[i][old(self).queues()[i].len() + m])
                } by {
                    let q = self.queues()[i];
                    let n0 = old(self).queues()[i].len() as int;
                    assert(q.drop_last() == before[i]);
                    assert(q.subrange(0, n0) =~= before[i].subrange(0, n0));
                    assert forall|m: int| 0 <= m < k + 1 implies
                        cloned::<T>(all[m], #[trigger] q[n0 + m]) by {
                        if m < k {
                            assert(q[n0 + m] == q.drop_last()[n0 + m]);
                        } else {
                            assert(q[n0 + m] == q.last());
                        }
                    }
                }
            }
            k = k + 1;
        }
        Ok(())
    }
}

/// A listener reads events in the order they were written: after an event
/// is queued behind `q`, the next read gives the oldest event of `q`, or
/// the new one when `q` was empty, and what stays queued keeps its order.
pub proof fn lemma_read_after_write<T>(q: Seq<T>, x: T)
    ensures
        q.push(x)[0] == (if q.len() == 0 { x } else { q[0] }),
        q.len() > 0 ==> q.push(x).drop_first() == q.drop_first().push(x),
        q.len() == 0 ==> q.push(x).drop_first() == Seq::<T>::empty(),
{
    if q.len() > 0 {
        assert(q.push(x).drop_first() =~= q.drop_first().push(x));
    } else {
        assert(q.push(x).drop_first() =~= Seq::<T>::empty());
    }
}

} // verus!
