//! The decisions of a run, as step functions.
//!
//! The executor performs the work (running agents, asking humans, nested
//! runs); these state machines decide what happens next. `LoopRun` decides
//! the iterations of a looping node. `RunState` decides the steps of a whole
//! run and how it ends; its laws hold over any sequence of its steps.

use crate::causal::{same_cause, Cause};
use crate::error::{error_message, AgentError, AgentResult, Interrupt, InterruptKind};
use crate::executor::{
    edge_views, error_input, error_routes, next_view, routed, run_label, same_trust, steps_left, unhandled_failure,
    RunOutcome, RunStatus, Scheduler, SchedulerView, Step, Task,
};
use crate::graph::{Edge, EdgeKind};
use crate::id::{NodeId, RunId, SpanId};
use crate::interrupt::{after_raise, is_pending, InterruptBus};
use crate::loop_spec::{loop_continues, LoopSpec, LoopState};
use crate::trust::TrustContext;
use crate::value::{Value, ValueView};
use vstd::prelude::*;

verus! {

/// How running a node ended.
#[derive(Debug)]
pub enum NodeOutcome {
    /// The node produced this output.
    Done(Value),
    /// The node failed.
    Failed(AgentError),
}

/// What a looping node does next.
#[derive(Debug)]
pub enum LoopStep {
    /// Run one more iteration, with this cause and input.
    Iterate { cause: Cause, input: Value },
    /// The loop is over, with this outcome for the node.
    Stop(NodeOutcome),
}

/// The input of an iteration: for a `foreach` loop over a list, the item of
/// this iteration; else the task's input.
pub open spec fn iteration_input(spec: LoopSpec, iteration: u32, slot: ValueView, task_input: ValueView) -> ValueView {
    if spec.kind is Foreach && slot is List && iteration < slot->List_0.len() {
        slot->List_0[iteration as int]
    } else {
        task_input
    }
}

/// The progress of a looping node: the iterations so far and the output of
/// the last one.
pub struct LoopRun {
    pub state: LoopState,
    pub last_output: Value,
}

impl LoopRun {
    /// No iteration yet; the output so far is null.
    pub fn new() -> (r: Self)
        ensures
            r.state.iteration == 0,
            r.last_output@ == ValueView::Null,
    {
        LoopRun { state: LoopState::new(), last_output: Value::null() }
    }

    /// Decide the next iteration. A pending interrupt ends the loop with the
    /// last output; a failed read of the loop's slot fails the node; a
    /// loop whose condition no longer holds ends with the last output;
    /// otherwise one more iteration runs, caused by the previous iteration's
    /// span (the task's cause at first).
    pub fn next(
        &self,
        spec: &LoopSpec,
        pending: bool,
        slot_read: AgentResult<Value>,
        task: &Task,
        parent: Option<SpanId>,
    ) -> (r: LoopStep)
        ensures
            pending ==> (r matches LoopStep::Stop(NodeOutcome::Done(v)) && v@ == self.last_output@),
            !pending ==> match slot_read {
                Err(e) => r == LoopStep::Stop(NodeOutcome::Failed(e)),
                Ok(v) => if loop_continues(*spec, self.state.iteration, v@) {
                    &&& r matches LoopStep::Iterate { cause, input }
                    &&& input@ == iteration_input(*spec, self.state.iteration, v@, task.input@)
                    &&& match parent {
                        Some(p) => cause == Cause::LoopIteration(p, self.state.iteration),
                        None => same_cause(cause, task.cause),
                    }
                } else {
                    r matches LoopStep::Stop(NodeOutcome::Done(out)) && out@ == self.last_output@
                },
            },
    {
        if pending {
            return LoopStep::Stop(NodeOutcome::Done(self.last_output.clone()));
        }
        let slot_val = match slot_read {
            Err(e) => {
                return LoopStep::Stop(NodeOutcome::Failed(e));
            },
            Ok(v) => v,
        };
        if !spec.continues(&self.state, &slot_val) {
            return LoopStep::Stop(NodeOutcome::Done(self.last_output.clone()));
        }
        proof {
            if slot_val is List {
                crate::value::lemma_list_view(slot_val->List_0);
            }
        }
        let input = match spec.current_item(&slot_val, &self.state) {
            Some(item) => item.clone(),
            None => task.input.clone(),
        };
        let cause = crate::executor::loop_cause(parent, self.state.iteration, &task.cause);
        LoopStep::Iterate { cause, input }
    }

    /// Record how an iteration ended: an output is kept and the loop
    /// advances (`None`: go on); a failure ends the loop and fails the node.
    pub fn record(&mut self, outcome: NodeOutcome) -> (r: Option<NodeOutcome>)
        requires
            old(self).state.iteration < u32::MAX,
        ensures
            match outcome {
                NodeOutcome::Done(v) => {
                    &&& r is None
                    &&& final(self).last_output == v
                    &&& final(self).state.iteration == old(self).state.iteration + 1
                },
                NodeOutcome::Failed(e) => {
                    &&& r == Some(NodeOutcome::Failed(e))
                    &&& *final(self) == *old(self)
                },
            },
    {
        match outcome {
            NodeOutcome::Done(v) => {
                self.last_output = v;
                self.state.advance();
                None
            },
            NodeOutcome::Failed(e) => Some(NodeOutcome::Failed(e)),
        }
    }
}

/// The model of a run: its scheduler, how it ended if it has, and whether
/// it keeps an interrupt.
pub struct RunView {
    pub sched: SchedulerView,
    pub status: Option<RunStatus>,
    pub interrupted: bool,
}

/// The steps of a run.
pub enum RunEvent {
    /// Ask the scheduler for the next task, with or without an interrupt
    /// pending.
    Next { pending: bool },
    /// Tasks queued for these nodes: a success or a failure followed along
    /// edges.
    Queued { targets: Seq<NodeId> },
    /// A failure that no error edge handles: the run stops.
    Unhandled,
    /// The steps a nested run took, counted.
    Added { n: u32 },
}

/// The steps counted after `n` more, saturating at the largest count.
pub open spec fn added_steps(steps: u32, n: u32) -> u32 {
    if steps + n > u32::MAX {
        u32::MAX
    } else {
        (steps + n) as u32
    }
}

/// A run that has not ended yet and keeps no interrupt.
pub open spec fn run_start(v: RunView) -> bool {
    v.status is None && !v.interrupted
}

/// What holds of a run at every moment: while it runs it keeps no
/// interrupt; a completed run keeps none; a step-limited run has reached
/// its cap and keeps none.
pub open spec fn run_ok(v: RunView) -> bool {
    &&& v.status is None ==> !v.interrupted
    &&& v.status == Some(RunStatus::Completed) ==> !v.interrupted
    &&& v.status == Some(RunStatus::StepLimited) ==> v.sched.steps >= v.sched.max_steps && !v.interrupted
}

/// One step of a run that has not ended, from `a` to `b`.
pub open spec fn run_step(a: RunView, e: RunEvent, b: RunView) -> bool {
    &&& a.status is None
    &&& match e {
        RunEvent::Next { pending } => {
            &&& b.sched == next_view(a.sched, pending)
            &&& if a.sched.targets.len() == 0 {
                b.status == Some(RunStatus::Completed) && !b.interrupted
            } else if pending {
                b.status == Some(RunStatus::Interrupted)
            } else if a.sched.steps >= a.sched.max_steps {
                b.status == Some(RunStatus::StepLimited) && !b.interrupted
            } else {
                b.status is None && !b.interrupted
            }
        },
        RunEvent::Queued { targets } => b == (RunView {
            sched: SchedulerView { targets: a.sched.targets + targets, ..a.sched },
            ..a
        }),
        RunEvent::Unhandled => b.sched == a.sched && b.status == Some(RunStatus::Interrupted),
        RunEvent::Added { n } => b == (RunView {
            sched: SchedulerView { steps: added_steps(a.sched.steps, n), ..a.sched },
            ..a
        }),
    }
}

/// `views` are the states of a run that took `events`, one after another,
/// from a start.
pub open spec fn is_run(views: Seq<RunView>, events: Seq<RunEvent>) -> bool {
    &&& views.len() == events.len() + 1
    &&& run_start(views[0])
    &&& forall|i: int| 0 <= i < events.len() ==> run_step(views[i], #[trigger] events[i], views[i + 1])
}

/// Every nested run counted in `events` took no more steps than what was
/// left of the cap when it was counted.
pub open spec fn adds_within_cap(views: Seq<RunView>, events: Seq<RunEvent>) -> bool {
    forall|i: int|
        0 <= i < events.len() ==> (#[trigger] events[i] matches RunEvent::Added { n } ==> n <= steps_left(
            views[i].sched.max_steps,
            views[i].sched.steps,
        ))
}

/// Law: whatever steps a run takes, at every moment a completed run keeps no
/// interrupt and a step-limited run has reached its cap; the cap never
/// changes.
pub proof fn law_run_outcome(views: Seq<RunView>, events: Seq<RunEvent>)
    requires
        is_run(views, events),
    ensures
        forall|i: int|
            0 <= i < views.len() ==> run_ok(#[trigger] views[i]) && views[i].sched.max_steps == views[0].sched.max_steps,
    decreases events.len(),
{
    if events.len() > 0 {
        let n = events.len() - 1;
        let vs = views.take(n + 1);
        let es = events.take(n);
        assert forall|i: int| 0 <= i < es.len() implies run_step(vs[i], #[trigger] es[i], vs[i + 1]) by {
            assert(run_step(views[i], events[i], views[i + 1]));
        }
        law_run_outcome(vs, es);
        assert(run_step(views[n], events[n], views[n + 1]));
        assert(views[n] == vs[n]);
        assert forall|i: int| 0 <= i < views.len() implies run_ok(#[trigger] views[i]) && views[i].sched.max_steps
            == views[0].sched.max_steps by {
            if i <= n {
                assert(views[i] == vs[i]);
            }
        }
    }
}

/// Law: a run that starts within its cap, and whose nested runs each took
/// no more than what was left, never counts past its cap.
pub proof fn law_run_within_cap(views: Seq<RunView>, events: Seq<RunEvent>)
    requires
        is_run(views, events),
        views[0].sched.steps <= views[0].sched.max_steps,
        adds_within_cap(views, events),
    ensures
        forall|i: int| 0 <= i < views.len() ==> (#[trigger] views[i]).sched.steps <= views[0].sched.max_steps,
    decreases events.len(),
{
    law_run_outcome(views, events);
    if events.len() > 0 {
        let n = events.len() - 1;
        let vs = views.take(n + 1);
        let es = events.take(n);
        assert forall|i: int| 0 <= i < es.len() implies run_step(vs[i], #[trigger] es[i], vs[i + 1]) by {
            assert(run_step(views[i], events[i], views[i + 1]));
        }
        assert forall|i: int| 0 <= i < es.len() implies (#[trigger] es[i] matches RunEvent::Added { n } ==> n
            <= steps_left(vs[i].sched.max_steps, vs[i].sched.steps)) by {
            assert(es[i] == events[i]);
        }
        law_run_within_cap(vs, es);
        assert(run_step(views[n], events[n], views[n + 1]));
        assert(views[n] == vs[n]);
        assert(views[n].sched.max_steps == views[0].sched.max_steps);
        assert forall|i: int| 0 <= i < views.len() implies (#[trigger] views[i]).sched.steps
            <= views[0].sched.max_steps by {
            if i <= n {
                assert(views[i] == vs[i]);
            }
        }
    }
}

/// Law: nested runs share the step budget. A child run that starts with no
/// steps and the cap `child_step_budget` gives it (what is left of the
/// parent's cap), and whose own nested runs each took no more than what was
/// left, ends within that cap; counting its steps keeps the parent within
/// the parent's cap.
pub proof fn law_nested_run_within_cap(parent: RunView, child: Seq<RunView>, child_events: Seq<RunEvent>)
    requires
        parent.sched.steps <= parent.sched.max_steps,
        is_run(child, child_events),
        child[0].sched.steps == 0,
        child[0].sched.max_steps == steps_left(parent.sched.max_steps, parent.sched.steps),
        adds_within_cap(child, child_events),
    ensures
        child.last().sched.steps <= steps_left(parent.sched.max_steps, parent.sched.steps),
        added_steps(parent.sched.steps, child.last().sched.steps) <= parent.sched.max_steps,
{
    law_run_within_cap(child, child_events);
    assert(child.last() == child[child.len() - 1]);
}

/// A run in progress: the scheduler, and once the run has ended, its status
/// and the interrupt it keeps.
pub struct RunState {
    sched: Scheduler,
    status: Option<RunStatus>,
    interrupted: Option<Interrupt>,
}

impl View for RunState {
    type V = RunView;

    closed spec fn view(&self) -> RunView {
        RunView { sched: self.sched@, status: self.status, interrupted: self.interrupted is Some }
    }
}

impl RunState {
    /// The run's invariant: `run_ok` of its model. Every method keeps it.
    pub closed spec fn wf(&self) -> bool {
        run_ok(self@)
    }

    /// The pending tasks, bottom to top.
    pub closed spec fn tasks(&self) -> Seq<Task> {
        self.sched.tasks()
    }

    /// The interrupt the run keeps.
    pub closed spec fn interrupt(&self) -> Option<Interrupt> {
        self.interrupted
    }

    /// A run holding one task per entry node, each caused by the run, with
    /// the entry input and trust; `steps` were already taken.
    pub fn start(
        entries: &[NodeId],
        entry_input: &Value,
        trust: &TrustContext,
        run: RunId,
        max_steps: u32,
        steps: u32,
    ) -> (r: Self)
        ensures
            r.wf(),
            r@ == (RunView { sched: SchedulerView { targets: entries@, steps, max_steps }, status: None, interrupted: false }),
            forall|i: int| 0 <= i < r.tasks().len() ==> {
                let t = #[trigger] r.tasks()[i];
                &&& t.cause matches Cause::External(c) && c@ == run_label(run)
                &&& t.input@ == entry_input@
                &&& same_trust(t.trust, *trust)
            },
    {
        RunState {
            sched: Scheduler::start(entries, entry_input, trust, run, max_steps, steps),
            status: None,
            interrupted: None,
        }
    }

    /// Has the run not ended yet?
    pub fn is_running(&self) -> (r: bool)
        ensures
            r == (self@.status is None),
    {
        self.status.is_none()
    }

    /// The steps taken.
    pub fn steps(&self) -> (r: u32)
        ensures
            r == self@.sched.steps,
    {
        self.sched.steps()
    }

    /// The next task, or `None` once the run has ended: with no task left it
    /// has completed; with an interrupt pending on `bus` it is interrupted
    /// and keeps the first pending interrupt; at the cap it is step-limited.
    pub fn next(&mut self, bus: &InterruptBus) -> (r: Option<Task>)
        requires
            old(self).wf(),
            old(self)@.status is None,
        ensures
            final(self).wf(),
            run_step(old(self)@, RunEvent::Next { pending: is_pending(bus@) }, final(self)@),
            r is Some <==> final(self)@.status is None,
            r matches Some(t) ==> t == old(self).tasks().last(),
            old(self).tasks().len() > 0 ==> final(self).tasks() == old(self).tasks().drop_last(),
            final(self)@.status == Some(RunStatus::Interrupted) ==> final(self).interrupt() == if bus@.queue.len()
                > 0 {
                Some(bus@.queue[0])
            } else {
                None
            },
    {
        let pending = bus.pending();
        match self.sched.next(pending) {
            Step::Finished => {
                self.status = Some(RunStatus::Completed);
                None
            },
            Step::Interrupted => {
                self.status = Some(RunStatus::Interrupted);
                self.interrupted = bus.take();
                None
            },
            Step::StepLimited => {
                self.status = Some(RunStatus::StepLimited);
                None
            },
            Step::Run(t) => Some(t),
        }
    }

    /// Follow a node's output along its edges (see
    /// `Scheduler::follow_success`).
    pub fn node_done(&mut self, edges: &[Edge], snapshot: &Value, output: &Value, trust: &TrustContext)
        requires
            old(self).wf(),
            old(self)@.status is None,
        ensures
            final(self).wf(),
            exists|passed: Seq<bool>|
                #![trigger routed(edge_views(edges@), passed, edges@.len() as int)]
                {
                    &&& passed.len() == edges@.len()
                    &&& forall|i: int|
                        0 <= i < edges@.len() && (#[trigger] edges@[i]).kind != EdgeKind::OnError && edges@[i].condition is None
                            ==> passed[i]
                    &&& run_step(
                        old(self)@,
                        RunEvent::Queued { targets: routed(edge_views(edges@), passed, edges@.len() as int) },
                        final(self)@,
                    )
                },
            forall|i: int| old(self).tasks().len() <= i < final(self).tasks().len() ==> {
                let t = #[trigger] final(self).tasks()[i];
                &&& t.cause is Parent
                &&& t.input@ == output@
                &&& same_trust(t.trust, *trust)
            },
            forall|i: int| 0 <= i < old(self).tasks().len() ==> #[trigger] final(self).tasks()[i] == old(self).tasks()[i],
    {
        self.sched.follow_success(edges, snapshot, output, trust);
    }

    /// Follow a node's failure along its error edges (see
    /// `Scheduler::follow_failure`). With no error edge the run stops: an
    /// internal interrupt at the node is raised on `bus`, and the run keeps
    /// the first pending interrupt. Returns whether an error edge took it.
    pub fn node_failed(
        &mut self,
        edges: &[Edge],
        err: &AgentError,
        trust: &TrustContext,
        node: NodeId,
        bus: &mut InterruptBus,
    ) -> (r: bool)
        requires
            old(self).wf(),
            old(self)@.status is None,
        ensures
            final(self).wf(),
            r == (error_routes(edge_views(edges@), edges@.len() as int).len() > 0),
            r ==> run_step(
                old(self)@,
                RunEvent::Queued { targets: error_routes(edge_views(edges@), edges@.len() as int) },
                final(self)@,
            ) && final(bus)@ == old(bus)@,
            r ==> forall|i: int| old(self).tasks().len() <= i < final(self).tasks().len() ==> {
                let t = #[trigger] final(self).tasks()[i];
                &&& t.cause matches Cause::External(c) && c@ == "error-edge"@
                &&& (!(*err is Io) && !(*err is Json) ==> t.input@ == error_input(error_message(*err)))
                &&& same_trust(t.trust, *trust)
            },
            !r ==> run_step(old(self)@, RunEvent::Unhandled, final(self)@),
            !r ==> final(bus)@.queue.len() == old(bus)@.queue.len() + 1 && final(bus)@.queue.drop_last()
                == old(bus)@.queue && final(bus)@.queue.last().kind == InterruptKind::Internal
                && final(bus)@.queue.last().node == Some(node) && final(self).interrupt() == Some(
                final(bus)@.queue[0],
            ),
            !r && !(*err is Io) && !(*err is Json) ==> final(bus)@.queue.last().reason@ == error_message(*err),
    {
        let handled = self.sched.follow_failure(edges, err, trust);
        if !handled {
            let ghost before = bus@;
            bus.raise(unhandled_failure(err, node));
            proof {
                assert(bus@.queue.drop_last() =~= before.queue);
            }
            self.status = Some(RunStatus::Interrupted);
            self.interrupted = bus.take();
        }
        handled
    }

    /// Count the steps a nested run took.
    pub fn add_steps(&mut self, n: u32)
        requires
            old(self).wf(),
            old(self)@.status is None,
        ensures
            final(self).wf(),
            run_step(old(self)@, RunEvent::Added { n }, final(self)@),
            final(self).tasks() == old(self).tasks(),
    {
        self.sched.add_steps(n);
    }

    /// The outcome of an ended run: its status, steps and kept interrupt,
    /// with the run's id, span count and final blackboard. A completed run
    /// keeps no interrupt; a step-limited one has reached its cap.
    pub fn finish(self, run_id: RunId, span_count: usize, final_snapshot: Vec<(String, Value)>) -> (r: RunOutcome)
        requires
            self.wf(),
            self@.status is Some,
        ensures
            r.status == self@.status->0,
            r.steps == self@.sched.steps,
            r.interrupted == self.interrupt(),
            r.run_id == run_id,
            r.span_count == span_count,
            r.final_snapshot == final_snapshot,
            r.status == RunStatus::Completed ==> r.interrupted is None,
            r.status == RunStatus::StepLimited ==> r.interrupted is None && r.steps >= self@.sched.max_steps,
    {
        let status = match self.status {
            Some(s) => s,
            None => RunStatus::Completed,
        };
        RunOutcome { run_id, steps: self.sched.steps(), span_count, final_snapshot, interrupted: self.interrupted, status }
    }
}

} // verus!
