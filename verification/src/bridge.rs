//! Multi-consumer event delivery: every consumer keeps its own cursor into
//! the world's append-only contact and proximity logs. Each consumer sees
//! every event exactly once, in arrival order, and no consumer can disturb
//! another: reading only advances the reader's own cursor, and never touches
//! the log.

use vstd::prelude::*;

use crate::types::{PhysicsContactEvent, PhysicsProximityEvent};
use crate::world::Physics;

verus! {

/// The consumers' cursors. Consumer `id` has read the first
/// `contact_cursors[id]` contact events and the first `prox_cursors[id]`
/// proximity events of the log.
pub struct EventBridge {
    pub contact_cursors: Vec<usize>,
    pub prox_cursors: Vec<usize>,
}

impl EventBridge {
    /// Every cursor lies inside the log it reads.
    pub open spec fn wf(self, phys: Physics) -> bool {
        &&& self.contact_cursors@.len() == self.prox_cursors@.len()
        &&& forall|c: int|
            0 <= c < self.contact_cursors@.len() ==> (#[trigger] self.contact_cursors@[c] as int)
                <= phys.contacts@.len()
        &&& forall|c: int|
            0 <= c < self.prox_cursors@.len() ==> (#[trigger] self.prox_cursors@[c] as int)
                <= phys.proximities@.len()
    }

    /// The number of registered consumers.
    pub open spec fn consumers(self) -> int {
        self.contact_cursors@.len() as int
    }

    pub fn new() -> (r: EventBridge)
        ensures
            r.consumers() == 0,
            forall|p: Physics| #[trigger] r.wf(p),
    {
        EventBridge { contact_cursors: Vec::new(), prox_cursors: Vec::new() }
    }

    /// Register a new consumer; it will see every event logged from this
    /// point on, and nothing earlier.
    pub fn register_consumer(&mut self, phys: &Physics) -> (id: usize)
        requires
            old(self).wf(*phys),
        ensures
            final(self).wf(*phys),
            id as int == old(self).consumers(),
            final(self).consumers() == old(self).consumers() + 1,
            final(self).contact_cursors@ == old(self).contact_cursors@.push(
                phys.contacts@.len() as usize,
            ),
            final(self).prox_cursors@ == old(self).prox_cursors@.push(
                phys.proximities@.len() as usize,
            ),
    {
        let id = self.contact_cursors.len();
        self.contact_cursors.push(phys.contacts.len());
        self.prox_cursors.push(phys.proximities.len());
        id
    }

    /// Hand consumer `id` every contact event it has not seen, oldest
    /// first, and remember that it saw them: the returned sequence is
    /// exactly the log between the consumer's cursor and the log's end, the
    /// cursor moves to the end, and neither the log nor any other consumer's
    /// cursor changes.
    pub fn read_contacts(&mut self, phys: &Physics, id: usize) -> (out: Vec<PhysicsContactEvent>)
        requires
            old(self).wf(*phys),
            (id as int) < old(self).consumers(),
        ensures
            final(self).wf(*phys),
            out@ == phys.contacts@.subrange(
                old(self).contact_cursors@[id as int] as int,
                phys.contacts@.len() as int,
            ),
            final(self).contact_cursors@ == old(self).contact_cursors@.update(
                id as int,
                phys.contacts@.len() as usize,
            ),
            final(self).prox_cursors@ == old(self).prox_cursors@,
    {
        let start = self.contact_cursors[id];
        let n = phys.contacts.len();
        let mut out: Vec<PhysicsContactEvent> = Vec::new();
        let mut k: usize = start;
        while k < n
            invariant
                start <= k <= n,
                n == phys.contacts@.len(),
                out@ == phys.contacts@.subrange(start as int, k as int),
            decreases n - k,
        {
            out.push(phys.contacts[k]);
            proof {
                assert(out@ =~= phys.contacts@.subrange(start as int, k as int + 1));
            }
            k += 1;
        }
        self.contact_cursors.set(id, n);
        out
    }

    /// Hand consumer `id` every proximity event it has not seen, oldest
    /// first, and remember that it saw them; the exact counterpart of
    /// `read_contacts`.
    pub fn read_proximities(&mut self, phys: &Physics, id: usize) -> (out: Vec<
        PhysicsProximityEvent,
    >)
        requires
            old(self).wf(*phys),
            (id as int) < old(self).consumers(),
        ensures
            final(self).wf(*phys),
            out@ == phys.proximities@.subrange(
                old(self).prox_cursors@[id as int] as int,
                phys.proximities@.len() as int,
            ),
            final(self).prox_cursors@ == old(self).prox_cursors@.update(
                id as int,
                phys.proximities@.len() as usize,
            ),
            final(self).contact_cursors@ == old(self).contact_cursors@,
    {
        let start = self.prox_cursors[id];
        let n = phys.proximities.len();
        let mut out: Vec<PhysicsProximityEvent> = Vec::new();
        let mut k: usize = start;
        while k < n
            invariant
                start <= k <= n,
                n == phys.proximities@.len(),
                out@ == phys.proximities@.subrange(start as int, k as int),
            decreases n - k,
        {
            out.push(phys.proximities[k]);
            proof {
                assert(out@ =~= phys.proximities@.subrange(start as int, k as int + 1));
            }
            k += 1;
        }
        self.prox_cursors.set(id, n);
        out
    }
}

/// Successive reads compose without gap or overlap: what a consumer is
/// handed from cursor `a` to `b` and then from `b` to `c` is exactly the log
/// from `a` to `c` — every event once, in arrival order.
pub proof fn lemma_reads_compose<T>(log: Seq<T>, a: int, b: int, c: int)
    requires
        0 <= a <= b <= c <= log.len(),
    ensures
        log.subrange(a, b) + log.subrange(b, c) == log.subrange(a, c),
{
    assert(log.subrange(a, b) + log.subrange(b, c) =~= log.subrange(a, c));
}

} // verus!
