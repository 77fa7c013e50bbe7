//! The interrupt bus.
//!
//! Any node can raise an `Interrupt`; the executor checks the bus between
//! steps and stops the flow with the interrupt's full context. Interrupts
//! queue up in the order they were raised; an `Abort` also sets a flag that
//! stays set until the bus is cleared.

use crate::error::{Interrupt, InterruptKind};
use vstd::prelude::*;

verus! {

broadcast use vstd::std_specs::vec::group_vec_axioms;

/// A queue of raised interrupts and the abort flag.
pub struct InterruptBus {
    queue: Vec<Interrupt>,
    aborted: bool,
}

/// The model of a bus: the pending interrupts in the order raised, and
/// whether an abort was raised.
pub struct BusView {
    pub queue: Seq<Interrupt>,
    pub aborted: bool,
}

impl View for InterruptBus {
    type V = BusView;

    closed spec fn view(&self) -> BusView {
        BusView { queue: self.queue@, aborted: self.aborted }
    }
}

/// The bus after `i` is raised.
pub open spec fn after_raise(b: BusView, i: Interrupt) -> BusView {
    BusView { queue: b.queue.push(i), aborted: b.aborted || i.kind == InterruptKind::Abort }
}

/// Whether the executor has something to act on.
pub open spec fn is_pending(b: BusView) -> bool {
    b.queue.len() > 0 || b.aborted
}

/// The empty bus.
pub open spec fn empty_bus() -> BusView {
    BusView { queue: Seq::empty(), aborted: false }
}

impl InterruptBus {
    pub fn new() -> (r: Self)
        ensures
            r@ == empty_bus(),
    {
        InterruptBus { queue: Vec::new(), aborted: false }
    }

    /// Raise an interrupt. Several raises queue up; an `Abort` also sets the
    /// abort flag.
    pub fn raise(&mut self, i: Interrupt)
        ensures
            final(self)@ == after_raise(old(self)@, i),
    {
        if i.kind == InterruptKind::Abort {
            self.aborted = true;
        }
        self.queue.push(i);
    }

    /// Is there a pending interrupt, or was an abort raised?
    pub fn pending(&self) -> (r: bool)
        ensures
            r == is_pending(self@),
    {
        self.queue.len() > 0 || self.aborted
    }

    /// A copy of the first pending interrupt, which stays queued.
    pub fn take(&self) -> (r: Option<Interrupt>)
        ensures
            self@.queue.len() == 0 ==> r is None,
            self@.queue.len() > 0 ==> r == Some(self@.queue[0]),
    {
        if self.queue.len() == 0 {
            None
        } else {
            Some(self.queue[0].clone())
        }
    }

    /// Remove and return all pending interrupts, in the order raised. The
    /// abort flag is left as it is.
    pub fn drain(&mut self) -> (r: Vec<Interrupt>)
        ensures
            r@ == old(self)@.queue,
            final(self)@ == (BusView { queue: Seq::empty(), aborted: old(self)@.aborted }),
    {
        let mut out: Vec<Interrupt> = Vec::new();
        std::mem::swap(&mut out, &mut self.queue);
        out
    }

    /// Was an explicit abort raised?
    pub fn aborted(&self) -> (r: bool)
        ensures
            r == self@.aborted,
    {
        self.aborted
    }

    /// Forget every interrupt and the abort flag.
    pub fn clear(&mut self)
        ensures
            final(self)@ == empty_bus(),
    {
        self.queue.clear();
        self.aborted = false;
    }
}

impl Default for InterruptBus {
    fn default() -> (r: Self)
        ensures
            r@ == empty_bus(),
    {
        InterruptBus::new()
    }
}

/// Law: right after a raise the bus is pending, and the raised interrupt is
/// the last one queued.
pub proof fn law_raise_makes_pending(b: BusView, i: Interrupt)
    ensures
        is_pending(after_raise(b, i)),
        after_raise(b, i).queue.last() == i,
        after_raise(b, i).queue.len() == b.queue.len() + 1,
{
}

/// Law: the first interrupt raised stays first, whatever is raised after it.
pub proof fn law_first_raised_stays_first(b: BusView, i: Interrupt, j: Interrupt)
    requires
        b.queue.len() == 0,
    ensures
        after_raise(after_raise(b, i), j).queue[0] == i,
{
}

/// Law: once an abort is raised the bus stays aborted, and so pending,
/// through further raises and through a drain; only `clear` resets it.
pub proof fn law_abort_is_sticky(b: BusView, i: Interrupt)
    requires
        b.aborted,
    ensures
        after_raise(b, i).aborted,
        is_pending(BusView { queue: Seq::empty(), aborted: b.aborted }),
        !is_pending(empty_bus()),
{
}

} // verus!
