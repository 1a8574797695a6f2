//! Updates on their way to a live scene.
//!
//! A scene has one writer. Work that runs beside it never touches the
//! scene: it queues what it has to say, and the writer takes the queue once
//! in each tick and applies it.

use vstd::prelude::*;

verus! {

/// The components of a loaded object, to be given to an entity.
#[derive(Clone, Copy, Debug, PartialEq, Eq, Structural)]
pub struct Update {
    /// The entity that asked for the object.
    pub entity: u64,
    /// The loaded object, named by the number under which the owner of the
    /// queue keeps it.
    pub object: u64,
}

/// A bounded queue of updates.
pub struct UpdateQueue {
    pending: Vec<Update>,
    capacity: usize,
}

impl View for UpdateQueue {
    type V = Seq<Update>;

    closed spec fn view(&self) -> Seq<Update> {
        self.pending@
    }
}

/// The queue after `update` was offered to it, and whether it was taken: a
/// queue that holds `capacity` updates refuses it.
pub open spec fn spec_enqueue(q: Seq<Update>, capacity: nat, update: Update) -> (Seq<Update>, bool) {
    if q.len() < capacity {
        (q.push(update), true)
    } else {
        (q, false)
    }
}

/// A queue never holds more than its capacity: one that does not before an
/// update is offered does not afterwards.
pub proof fn lemma_bounded(q: Seq<Update>, capacity: nat, update: Update)
    requires
        q.len() <= capacity,
    ensures
        spec_enqueue(q, capacity, update).0.len() <= capacity,
{
}

impl UpdateQueue {
    /// How many updates the queue takes.
    pub closed spec fn spec_capacity(&self) -> nat {
        self.capacity as nat
    }

    /// An empty queue that takes `capacity` updates.
    pub fn new(capacity: usize) -> (q: UpdateQueue)
        ensures
            q@ == Seq::<Update>::empty(),
            q.spec_capacity() == capacity,
    {
        UpdateQueue { pending: Vec::new(), capacity }
    }

    /// How many updates the queue takes.
    pub fn capacity(&self) -> (n: usize)
        ensures
            n == self.spec_capacity(),
    {
        self.capacity
    }

    /// How many updates wait.
    pub fn len(&self) -> (n: usize)
        ensures
            n == self@.len(),
    {
        self.pending.len()
    }

    /// Queues `update` behind the others. A full queue refuses it and
    /// stays as it is.
    pub fn enqueue(&mut self, update: Update) -> (taken: bool)
        ensures
            final(self).spec_capacity() == old(self).spec_capacity(),
            final(self)@ == spec_enqueue(old(self)@, old(self).spec_capacity(), update).0,
            taken == spec_enqueue(old(self)@, old(self).spec_capacity(), update).1,
    {
        if self.pending.len() < self.capacity {
            self.pending.push(update);
            true
        } else {
            false
        }
    }

    /// Takes every update that waits, in the order in which they were
    /// queued, and leaves the queue empty.
    pub fn drain(&mut self) -> (taken: Vec<Update>)
        ensures
            final(self).spec_capacity() == old(self).spec_capacity(),
            taken@ == old(self)@,
            final(self)@ == Seq::<Update>::empty(),
    {
        let mut taken: Vec<Update> = Vec::new();
        std::mem::swap(&mut taken, &mut self.pending);
        taken
    }
}

/// The updates that hand the object `object` to each of `entities`.
pub fn fan_out(entities: &Vec<u64>, object: u64) -> (updates: Vec<Update>)
    ensures
        updates@ == Seq::new(entities@.len(), |i: int| Update { entity: entities@[i], object }),
{
    let mut updates: Vec<Update> = Vec::new();
    let mut i: usize = 0;
    while i < entities.len()
        invariant
            i <= entities.len(),
            updates@.len() == i,
            forall|k: int| 0 <= k < i ==> updates@[k] == (Update { entity: entities@[k], object }),
        decreases entities.len() - i,
    {
        updates.push(Update { entity: entities[i], object });
        i += 1;
    }
    assert(updates@ =~= Seq::new(
        entities@.len(),
        |i: int| Update { entity: entities@[i], object },
    ));
    updates
}

} // verus!
