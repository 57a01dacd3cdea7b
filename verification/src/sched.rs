//! The scheduler hand-off interface: an explicitly initialized ready
//! queue, a push, and the selection of the first thread whose trap
//! frame the platform layer restores on its exception return.
use crate::vspace::{Tcb, TrapFrame};
use vstd::prelude::*;

verus! {

/// The ready queue.  Its storage is initialized explicitly: boot does
/// not rely on the platform having zeroed static memory.
pub struct Scheduler {
    pub queue: Vec<Tcb>,
}

impl Scheduler {
    pub fn new() -> (s: Scheduler)
        ensures
            s.queue@.len() == 0,
    {
        Scheduler { queue: Vec::new() }
    }

    /// Resets the ready queue to empty.
    pub fn init(&mut self)
        ensures
            final(self).queue@.len() == 0,
    {
        self.queue = Vec::new();
    }

    /// Enqueues a thread at the back of the ready queue.
    pub fn push(&mut self, tcb: Tcb)
        ensures
            final(self).queue@.len() == old(self).queue@.len() + 1,
            forall|i: int|
                0 <= i < old(self).queue@.len() ==> final(self).queue@[i] == old(self).queue@[i],
            final(self).queue@[old(self).queue@.len() as int] == tcb,
    {
        self.queue.push(tcb);
    }

    /// The trap frame the first activation restores: that of the
    /// thread at the head of the ready queue, if any.
    pub fn activate(&self) -> (r: Option<TrapFrame>)
        ensures
            self.queue@.len() > 0 ==> r == Some(self.queue@[0].tf),
            self.queue@.len() == 0 ==> r is None,
    {
        if self.queue.len() > 0 {
            Some(self.queue[0].tf)
        } else {
            None
        }
    }
}

} // verus!
