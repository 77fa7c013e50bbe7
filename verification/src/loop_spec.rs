//! Loop specifications: repeat a node a fixed number of times, while a slot
//! equals a target, until it does, or once per item of a list slot, always
//! under a hard cap on iterations.

use crate::blackboard::SlotKey;
use crate::value::{value_eq, Value, ValueView};
use vstd::prelude::*;

verus! {

/// Kind of loop.
#[derive(Debug)]
pub enum LoopKind {
    /// Repeat exactly `count` times.
    Repeat { count: u32 },
    /// Loop while `slot` equals `target`.
    While { slot: SlotKey, target: Value },
    /// Loop until `slot` equals `target`.
    Until { slot: SlotKey, target: Value },
    /// Loop once per item in the list stored at `slot`.
    Foreach { slot: SlotKey },
}

impl Clone for LoopKind {
    fn clone(&self) -> (r: Self)
        ensures
            match (r, *self) {
                (LoopKind::Repeat { count: a }, LoopKind::Repeat { count: b }) => a == b,
                (LoopKind::While { slot: s1, target: t1 }, LoopKind::While { slot: s2, target: t2 }) =>
                    s1@ == s2@ && t1@ == t2@,
                (LoopKind::Until { slot: s1, target: t1 }, LoopKind::Until { slot: s2, target: t2 }) =>
                    s1@ == s2@ && t1@ == t2@,
                (LoopKind::Foreach { slot: s1 }, LoopKind::Foreach { slot: s2 }) => s1@ == s2@,
                _ => false,
            },
    {
        match self {
            LoopKind::Repeat { count } => LoopKind::Repeat { count: *count },
            LoopKind::While { slot, target } => LoopKind::While {
                slot: slot.clone(),
                target: target.clone(),
            },
            LoopKind::Until { slot, target } => LoopKind::Until {
                slot: slot.clone(),
                target: target.clone(),
            },
            LoopKind::Foreach { slot } => LoopKind::Foreach { slot: slot.clone() },
        }
    }
}

/// A loop spec attached to a node.
#[derive(Debug)]
pub struct LoopSpec {
    pub kind: LoopKind,
    /// Hard cap on iterations regardless of condition.
    pub max_iters: u32,
}

impl Clone for LoopSpec {
    fn clone(&self) -> (r: Self)
        ensures
            r.max_iters == self.max_iters,
            same_kind(r.kind, self.kind),
    {
        LoopSpec { kind: self.kind.clone(), max_iters: self.max_iters }
    }
}

/// Two loop kinds that a clone cannot tell apart.
pub open spec fn same_kind(a: LoopKind, b: LoopKind) -> bool {
    match (a, b) {
        (LoopKind::Repeat { count: x }, LoopKind::Repeat { count: y }) => x == y,
        (LoopKind::While { slot: s1, target: t1 }, LoopKind::While { slot: s2, target: t2 }) => s1@
            == s2@ && t1@ == t2@,
        (LoopKind::Until { slot: s1, target: t1 }, LoopKind::Until { slot: s2, target: t2 }) => s1@
            == s2@ && t1@ == t2@,
        (LoopKind::Foreach { slot: s1 }, LoopKind::Foreach { slot: s2 }) => s1@ == s2@,
        _ => false,
    }
}

/// The cap a constructor derives from a requested bound: at least one.
pub open spec fn at_least_one(n: u32) -> u32 {
    if n == 0 {
        1
    } else {
        n
    }
}

/// Does the loop run another iteration, given the iteration count so far
/// and the current value of its slot?
pub open spec fn loop_continues(spec: LoopSpec, iteration: u32, slot_value: ValueView) -> bool {
    if iteration >= spec.max_iters {
        false
    } else {
        match spec.kind {
            LoopKind::Repeat { count } => iteration < count,
            LoopKind::While { target, .. } => value_eq(slot_value, target@),
            LoopKind::Until { target, .. } => !value_eq(slot_value, target@),
            LoopKind::Foreach { .. } => match slot_value {
                ValueView::List(items) => iteration < items.len(),
                _ => false,
            },
        }
    }
}

fn max_one(n: u32) -> (r: u32)
    ensures
        r == at_least_one(n),
{
    if n == 0 {
        1
    } else {
        n
    }
}

impl LoopSpec {
    pub fn repeat(count: u32) -> (r: Self)
        ensures
            r.kind == (LoopKind::Repeat { count }),
            r.max_iters == at_least_one(count),
    {
        LoopSpec { kind: LoopKind::Repeat { count }, max_iters: max_one(count) }
    }

    pub fn while_eq(slot: &str, target: Value, max: u32) -> (r: Self)
        ensures
            r.kind matches LoopKind::While { slot: s, target: t } && s@ == slot@ && t == target,
            r.max_iters == at_least_one(max),
    {
        LoopSpec { kind: LoopKind::While { slot: SlotKey::new(slot), target }, max_iters: max_one(max) }
    }

    pub fn until_eq(slot: &str, target: Value, max: u32) -> (r: Self)
        ensures
            r.kind matches LoopKind::Until { slot: s, target: t } && s@ == slot@ && t == target,
            r.max_iters == at_least_one(max),
    {
        LoopSpec { kind: LoopKind::Until { slot: SlotKey::new(slot), target }, max_iters: max_one(max) }
    }

    pub fn foreach(slot: &str, max: u32) -> (r: Self)
        ensures
            r.kind matches LoopKind::Foreach { slot: s } && s@ == slot@,
            r.max_iters == at_least_one(max),
    {
        LoopSpec { kind: LoopKind::Foreach { slot: SlotKey::new(slot) }, max_iters: max_one(max) }
    }

    /// Decide whether to continue given the iteration count and a read of
    /// the loop's slot.
    pub fn continues(&self, state: &LoopState, slot_value: &Value) -> (r: bool)
        ensures
            r == loop_continues(*self, state.iteration, slot_value@),
    {
        if state.iteration >= self.max_iters {
            return false;
        }
        match &self.kind {
            LoopKind::Repeat { count } => state.iteration < *count,
            LoopKind::While { target, .. } => slot_value.equals(target),
            LoopKind::Until { target, .. } => !slot_value.equals(target),
            LoopKind::Foreach { .. } => {
                match slot_value {
                    Value::List(items) => {
                        proof {
                            crate::value::lemma_list_view(*items);
                        }
                        (state.iteration as usize) < items.len()
                    },
                    _ => false,
                }
            },
        }
    }

    /// For foreach loops, the item for the current iteration.
    pub fn current_item<'a>(&self, slot_value: &'a Value, state: &LoopState) -> (r: Option<
        &'a Value,
    >)
        ensures
            r is Some <==> (self.kind is Foreach && slot_value is List && state.iteration
                < slot_value->List_0@.len()),
            r matches Some(v) ==> *v == slot_value->List_0@[state.iteration as int],
    {
        if let LoopKind::Foreach { .. } = &self.kind {
            if let Value::List(items) = slot_value {
                let i = state.iteration as usize;
                if i < items.len() {
                    return Some(&items[i]);
                }
            }
        }
        None
    }

    /// The slot this loop reads its condition from (if any).
    pub fn slot(&self) -> (r: Option<&SlotKey>)
        ensures
            match self.kind {
                LoopKind::Repeat { .. } => r is None,
                LoopKind::While { slot, .. } => r == Some(&slot),
                LoopKind::Until { slot, .. } => r == Some(&slot),
                LoopKind::Foreach { slot } => r == Some(&slot),
            },
    {
        match &self.kind {
            LoopKind::While { slot, .. } | LoopKind::Until { slot, .. } | LoopKind::Foreach {
                slot,
            } => Some(slot),
            LoopKind::Repeat { .. } => None,
        }
    }
}

/// Mutable loop state tracked by the executor.
#[derive(Clone, Copy, Debug)]
pub struct LoopState {
    pub iteration: u32,
    pub done: bool,
}

impl LoopState {
    pub fn new() -> (r: Self)
        ensures
            r.iteration == 0,
            !r.done,
    {
        LoopState { iteration: 0, done: false }
    }

    pub fn advance(&mut self)
        requires
            old(self).iteration < u32::MAX,
        ensures
            final(self).iteration == old(self).iteration + 1,
            final(self).done == old(self).done,
    {
        self.iteration = self.iteration + 1;
    }
}

impl Default for LoopState {
    fn default() -> (r: Self)
        ensures
            r.iteration == 0,
            !r.done,
    {
        LoopState::new()
    }
}

/// Law: no loop runs past its cap: a loop continues only below `max_iters`.
pub proof fn law_cap_bounds_iterations(spec: LoopSpec, iteration: u32, slot_value: ValueView)
    ensures
        loop_continues(spec, iteration, slot_value) ==> iteration < spec.max_iters,
{
}

/// Law: `repeat(count)` runs exactly `count` iterations, whatever the slot holds.
pub proof fn law_repeat_runs_count_times(count: u32, iteration: u32, slot_value: ValueView)
    ensures
        loop_continues(
            LoopSpec { kind: LoopKind::Repeat { count }, max_iters: at_least_one(count) },
            iteration,
            slot_value,
        ) <==> iteration < count,
{
}

/// Law: a foreach loop runs once per item of the list, up to its cap, and
/// never over a slot that holds no list.
pub proof fn law_foreach_runs_once_per_item(spec: LoopSpec, iteration: u32, items: Seq<ValueView>, other: ValueView)
    requires
        spec.kind is Foreach,
        !(other is List),
    ensures
        loop_continues(spec, iteration, ValueView::List(items)) <==> (iteration < items.len()
            && iteration < spec.max_iters),
        !loop_continues(spec, iteration, other),
{
}

/// Law: for the same slot value, a while loop and an until loop with the same
/// target and cap make opposite decisions below the cap.
pub proof fn law_while_until_complement(slot: SlotKey, target: Value, max: u32, iteration: u32, v: ValueView)
    requires
        iteration < max,
    ensures
        loop_continues(LoopSpec { kind: LoopKind::While { slot, target }, max_iters: max }, iteration, v)
            == !loop_continues(
            LoopSpec { kind: LoopKind::Until { slot, target }, max_iters: max },
            iteration,
            v,
        ),
{
}

} // verus!
