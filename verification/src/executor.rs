//! The decisions of the graph executor.
//!
//! The executor drives a graph: it keeps a stack of tasks (a node, why it
//! runs, its input and the trust it runs under), stops on a pending
//! interrupt or when the step cap is hit, routes a node's output along its
//! outgoing edges, and routes failures along error edges. This module holds
//! that scheduling state and the decisions the executor makes around each
//! node; running agents, humans and handlers is left to the caller,
//! which hands their results back here.

use crate::agent::{AgentOutput, AgentStatus};
use crate::blackboard::{after_write, is_denial, read_result, Blackboard, BlackboardView, SlotKey};
use crate::causal::{CausalTrace, Cause, EffectKind};
use crate::id::AgentId;
use crate::interrupt::{after_raise, BusView, InterruptBus};
use crate::meta::MetaSignal;
use crate::policy::{policy_allows, Permission};
use crate::validate::{scan_error, InputValidator};
use crate::error::{error_message, AgentError, AgentResult, Interrupt, InterruptKind};
use crate::goal::{GoalReport, GoalStatus};
use crate::graph::{EdgeKind, EdgeView, Edge, Node};
use crate::id::{uuid_hyphenated, NodeId, RunId, SpanId};
use crate::text::{debug_quoted, debug_text, decimal, decimal_string};
use crate::trust::TrustContext;
use crate::value::{Value, ValueView};
use vstd::prelude::*;
use vstd::string::StringExecFns;

verus! {

broadcast use vstd::std_specs::vec::group_vec_axioms;

/// The default cap on node invocations in one run.
pub const DEFAULT_MAX_STEPS: u32 = 10_000;

/// Per-run configuration.
#[derive(Debug)]
pub struct RunConfig {
    /// Cap on node invocations (guards against runaway loops and graphs).
    pub max_steps: u32,
    /// The blackboard seed: (slot, value) pairs written before the run.
    pub seed: Vec<(String, Value)>,
}

impl Default for RunConfig {
    fn default() -> (r: Self)
        ensures
            r.max_steps == DEFAULT_MAX_STEPS,
            r.seed@.len() == 0,
    {
        RunConfig { max_steps: DEFAULT_MAX_STEPS, seed: Vec::new() }
    }
}

impl RunConfig {
    pub fn with_seed(self, seed: Vec<(String, Value)>) -> (r: Self)
        ensures
            r.max_steps == self.max_steps,
            r.seed == seed,
    {
        RunConfig { seed, ..self }
    }
}

/// How a run ended.
#[derive(Clone, Copy, Debug, PartialEq, Eq, Structural)]
pub enum RunStatus {
    /// Completed normally.
    Completed,
    /// Stopped by an interrupt.
    Interrupted,
    /// Stopped because the step cap was hit.
    StepLimited,
}

/// The outcome of a run.
#[derive(Debug)]
pub struct RunOutcome {
    pub run_id: RunId,
    pub steps: u32,
    pub span_count: usize,
    /// The blackboard at the end of the run, as (slot, value) pairs.
    pub final_snapshot: Vec<(String, Value)>,
    /// The interrupt that stopped the run, if any.
    pub interrupted: Option<Interrupt>,
    pub status: RunStatus,
}

/// A unit of work: a node, why it runs, its input, and the trust it runs
/// under (already narrowed for the call chain).
#[derive(Debug)]
pub struct Task {
    pub node: NodeId,
    pub cause: Cause,
    pub input: Value,
    pub trust: TrustContext,
}

/// What the executor does next.
#[derive(Debug)]
pub enum Step {
    /// Run the given work item.
    Run(Task),
    /// An interrupt is pending: stop.
    Interrupted,
    /// The step cap is reached: stop.
    StepLimited,
    /// No work is left: the run is complete.
    Finished,
}

/// The pending tasks (run last-in first-out) and the step counter.
pub struct Scheduler {
    queue: Vec<Task>,
    steps: u32,
    max_steps: u32,
}

/// The model of a scheduler: the nodes of the pending tasks, bottom to top,
/// the steps taken and the cap.
pub struct SchedulerView {
    pub targets: Seq<NodeId>,
    pub steps: u32,
    pub max_steps: u32,
}

/// The nodes of a list of tasks.
pub open spec fn task_targets(q: Seq<Task>) -> Seq<NodeId> {
    Seq::new(q.len(), |i: int| q[i].node)
}

impl View for Scheduler {
    type V = SchedulerView;

    closed spec fn view(&self) -> SchedulerView {
        SchedulerView { targets: task_targets(self.queue@), steps: self.steps, max_steps: self.max_steps }
    }
}

/// The cause text of the entry tasks of a run.
pub open spec fn run_label(run: RunId) -> Seq<char> {
    "run "@ + ("run-"@ + uuid_hyphenated(run.0))
}

/// The scheduler after one `next`: the top task is taken, and a step is
/// counted when it runs.
pub open spec fn next_view(s: SchedulerView, pending: bool) -> SchedulerView {
    if s.targets.len() == 0 {
        s
    } else if !pending && s.steps < s.max_steps {
        SchedulerView { targets: s.targets.drop_last(), steps: (s.steps + 1) as u32, ..s }
    } else {
        SchedulerView { targets: s.targets.drop_last(), ..s }
    }
}

/// The targets of the edges that carry a successful output: every edge but
/// the error edges, among the first `n`, whose condition passed.
pub open spec fn routed(edges: Seq<EdgeView>, passed: Seq<bool>, n: int) -> Seq<NodeId>
    decreases n,
{
    if n <= 0 || n > edges.len() {
        Seq::empty()
    } else {
        let prev = routed(edges, passed, n - 1);
        if edges[n - 1].kind != EdgeKind::OnError && passed[n - 1] {
            prev.push(edges[n - 1].to)
        } else {
            prev
        }
    }
}

/// The targets of the error edges among the first `n`.
pub open spec fn error_routes(edges: Seq<EdgeView>, n: int) -> Seq<NodeId>
    decreases n,
{
    if n <= 0 || n > edges.len() {
        Seq::empty()
    } else {
        let prev = error_routes(edges, n - 1);
        if edges[n - 1].kind == EdgeKind::OnError {
            prev.push(edges[n - 1].to)
        } else {
            prev
        }
    }
}

/// The views of a list of edges.
pub open spec fn edge_views(edges: Seq<Edge>) -> Seq<EdgeView> {
    Seq::new(edges.len(), |i: int| edges[i]@)
}

/// A task's trust is the given one: the same actor, depth, authorities and
/// constraints, so no task holds more authority than the node that made it.
pub open spec fn same_trust(t: TrustContext, trust: TrustContext) -> bool {
    &&& t.actor == trust.actor
    &&& t.depth == trust.depth
    &&& t.authority_set() == trust.authority_set()
    &&& t.constraint_set() == trust.constraint_set()
}

/// The input an error edge carries.
pub open spec fn error_input(err: Seq<char>) -> ValueView {
    ValueView::Str("error: "@ + err)
}

impl Scheduler {
    /// The pending tasks, bottom to top.
    pub closed spec fn tasks(&self) -> Seq<Task> {
        self.queue@
    }

    /// A scheduler holding one task per entry node, in order, each caused
    /// by the run, with the entry input and trust; `steps` were already
    /// taken by the executor.
    pub fn start(
        entries: &[NodeId],
        entry_input: &Value,
        trust: &TrustContext,
        run: RunId,
        max_steps: u32,
        steps: u32,
    ) -> (r: Self)
        ensures
            r@ == (SchedulerView { targets: entries@, steps, max_steps }),
            forall|i: int| 0 <= i < r.tasks().len() ==> {
                let t = #[trigger] r.tasks()[i];
                &&& t.cause matches Cause::External(c) && c@ == run_label(run)
                &&& t.input@ == entry_input@
                &&& same_trust(t.trust, *trust)
            },
    {
        let mut label = String::from_str("run ");
        let id = run.to_string();
        label.append(id.as_str());
        let mut queue: Vec<Task> = Vec::new();
        let mut i: usize = 0;
        while i < entries.len()
            invariant
                i <= entries@.len(),
                label@ == run_label(run),
                queue@.len() == i,
                forall|k: int| 0 <= k < i ==> (#[trigger] queue@[k]).node == entries@[k],
                forall|k: int| 0 <= k < i ==> {
                    let t = #[trigger] queue@[k];
                    &&& t.cause matches Cause::External(c) && c@ == run_label(run)
                    &&& t.input@ == entry_input@
                    &&& same_trust(t.trust, *trust)
                },
            decreases entries.len() - i,
        {
            queue.push(Task {
                node: entries[i],
                cause: Cause::External(label.clone()),
                input: entry_input.clone(),
                trust: trust.clone(),
            });
            i = i + 1;
        }
        let r = Scheduler { queue, steps, max_steps };
        assert(task_targets(r.tasks()) =~= entries@);
        r
    }

    /// The next thing to do: take the most recently pushed task; stop if an
    /// interrupt is pending or the cap is reached (the task is dropped),
    /// else count a step and run it.
    pub fn next(&mut self, pending: bool) -> (r: Step)
        ensures
            final(self)@ == next_view(old(self)@, pending),
            old(self)@.targets.len() == 0 ==> r is Finished,
            old(self)@.targets.len() > 0 && pending ==> r is Interrupted,
            old(self)@.targets.len() > 0 && !pending && old(self)@.steps >= old(self)@.max_steps ==> r is StepLimited,
            old(self)@.targets.len() > 0 && !pending && old(self)@.steps < old(self)@.max_steps ==> (r matches Step::Run(t)
                && t == old(self).tasks().last()),
            old(self).tasks().len() > 0 ==> final(self).tasks() == old(self).tasks().drop_last(),
            old(self).tasks().len() == 0 ==> final(self).tasks() == old(self).tasks(),
    {
        let ghost before = self.queue@;
        match self.queue.pop() {
            None => Step::Finished,
            Some(task) => {
                proof {
                    assert(task_targets(self.queue@) =~= task_targets(before).drop_last());
                    assert(task == before.last());
                }
                if pending {
                    Step::Interrupted
                } else if self.steps >= self.max_steps {
                    Step::StepLimited
                } else {
                    self.steps = self.steps + 1;
                    Step::Run(task)
                }
            },
        }
    }

    /// Push a task for every edge that carries a successful output and whose
    /// condition passed (`passed[i]` for `edges[i]`), in edge order. Each is
    /// caused by a fresh span id and carries the output and the trust.
    pub fn route(&mut self, edges: &[Edge], passed: &[bool], output: &Value, trust: &TrustContext)
        requires
            edges@.len() == passed@.len(),
        ensures
            final(self)@ == (SchedulerView {
                targets: old(self)@.targets + routed(edge_views(edges@), passed@, edges@.len() as int),
                ..old(self)@
            }),
            forall|i: int| old(self).tasks().len() <= i < final(self).tasks().len() ==> {
                let t = #[trigger] final(self).tasks()[i];
                &&& t.cause is Parent
                &&& t.input@ == output@
                &&& same_trust(t.trust, *trust)
            },
            forall|i: int| 0 <= i < old(self).tasks().len() ==> #[trigger] final(self).tasks()[i] == old(self).tasks()[i],
    {
        let ghost start = self.queue@;
        let mut i: usize = 0;
        while i < edges.len()
            invariant
                i <= edges@.len(),
                edges@.len() == passed@.len(),
                self.steps == old(self).steps,
                self.max_steps == old(self).max_steps,
                start == old(self).queue@,
                self.queue@.len() >= start.len(),
                forall|k: int| 0 <= k < start.len() ==> #[trigger] self.queue@[k] == start[k],
                task_targets(self.queue@) == task_targets(start) + routed(edge_views(edges@), passed@, i as int),
                forall|k: int| start.len() <= k < self.queue@.len() ==> {
                    let t = #[trigger] self.queue@[k];
                    &&& t.cause is Parent
                    &&& t.input@ == output@
                    &&& same_trust(t.trust, *trust)
                },
            decreases edges.len() - i,
        {
            let e = &edges[i];
            proof {
                assert(edge_views(edges@)[i as int] == e@);
            }
            let ghost prev = self.queue@;
            if e.kind != EdgeKind::OnError && passed[i] {
                self.queue.push(Task {
                    node: e.to,
                    cause: Cause::Parent(SpanId::new()),
                    input: output.clone(),
                    trust: trust.clone(),
                });
                proof {
                    assert(task_targets(self.queue@) =~= task_targets(prev).push(e.to));
                    assert(routed(edge_views(edges@), passed@, i + 1) == routed(edge_views(edges@), passed@, i as int).push(e.to));
                    assert(task_targets(self.queue@) =~= task_targets(start) + routed(
                        edge_views(edges@),
                        passed@,
                        i + 1,
                    ));
                }
            } else {
                proof {
                    assert(routed(edge_views(edges@), passed@, i + 1) == routed(edge_views(edges@), passed@, i as int));
                }
            }
            i = i + 1;
        }
    }

    /// Follow a node's successful output: each edge's condition is checked
    /// against the blackboard snapshot and the output (an edge without a
    /// condition always passes), then the output is routed.
    pub fn follow_success(&mut self, edges: &[Edge], snapshot: &Value, output: &Value, trust: &TrustContext)
        ensures
            exists|passed: Seq<bool>|
                #![trigger routed(edge_views(edges@), passed, edges@.len() as int)]
                {
                    &&& passed.len() == edges@.len()
                    &&& forall|i: int|
                        0 <= i < edges@.len() && (#[trigger] edges@[i]).kind != EdgeKind::OnError && edges@[i].condition is None
                            ==> passed[i]
                    &&& final(self)@ == (SchedulerView {
                        targets: old(self)@.targets + routed(edge_views(edges@), passed, edges@.len() as int),
                        ..old(self)@
                    })
                },
            forall|i: int| old(self).tasks().len() <= i < final(self).tasks().len() ==> {
                let t = #[trigger] final(self).tasks()[i];
                &&& t.cause is Parent
                &&& t.input@ == output@
                &&& same_trust(t.trust, *trust)
            },
            forall|i: int| 0 <= i < old(self).tasks().len() ==> #[trigger] final(self).tasks()[i] == old(self).tasks()[i],
    {
        let mut passed: Vec<bool> = Vec::new();
        let mut i: usize = 0;
        while i < edges.len()
            invariant
                i <= edges@.len(),
                passed@.len() == i,
                forall|k: int|
                    0 <= k < i && (#[trigger] edges@[k]).kind != EdgeKind::OnError && edges@[k].condition is None
                        ==> passed@[k],
            decreases edges.len() - i,
        {
            let ok = if edges[i].kind == EdgeKind::OnError {
                false
            } else {
                edges[i].passes(snapshot, output)
            };
            passed.push(ok);
            i = i + 1;
        }
        self.route(edges, passed.as_slice(), output, trust);
    }

    /// Follow a node's failure along its error edges: a task per error edge,
    /// in edge order, caused by `error-edge` and carrying the error's text.
    /// Returns whether there was any error edge.
    pub fn follow_failure(&mut self, edges: &[Edge], err: &AgentError, trust: &TrustContext) -> (r: bool)
        ensures
            r == (error_routes(edge_views(edges@), edges@.len() as int).len() > 0),
            final(self)@ == (SchedulerView {
                targets: old(self)@.targets + error_routes(edge_views(edges@), edges@.len() as int),
                ..old(self)@
            }),
            forall|i: int| old(self).tasks().len() <= i < final(self).tasks().len() ==> {
                let t = #[trigger] final(self).tasks()[i];
                &&& t.cause matches Cause::External(c) && c@ == "error-edge"@
                &&& (!(*err is Io) && !(*err is Json) ==> t.input@ == error_input(error_message(*err)))
                &&& same_trust(t.trust, *trust)
            },
    {
        let ghost start = self.queue@;
        let text = err.to_string();
        let mut msg = String::from_str("error: ");
        msg.append(text.as_str());
        let mut found = false;
        let mut i: usize = 0;
        while i < edges.len()
            invariant
                i <= edges@.len(),
                self.steps == old(self).steps,
                self.max_steps == old(self).max_steps,
                start == old(self).queue@,
                self.queue@.len() >= start.len(),
                forall|k: int| 0 <= k < start.len() ==> #[trigger] self.queue@[k] == start[k],
                task_targets(self.queue@) == task_targets(start) + error_routes(edge_views(edges@), i as int),
                found == (error_routes(edge_views(edges@), i as int).len() > 0),
                msg@ == "error: "@ + text@,
                !(*err is Io) && !(*err is Json) ==> text@ == error_message(*err),
                forall|k: int| start.len() <= k < self.queue@.len() ==> {
                    let t = #[trigger] self.queue@[k];
                    &&& t.cause matches Cause::External(c) && c@ == "error-edge"@
                    &&& (!(*err is Io) && !(*err is Json) ==> t.input@ == error_input(error_message(*err)))
                    &&& same_trust(t.trust, *trust)
                },
            decreases edges.len() - i,
        {
            let e = &edges[i];
            proof {
                assert(edge_views(edges@)[i as int] == e@);
            }
            let ghost prev = self.queue@;
            if e.kind == EdgeKind::OnError {
                self.queue.push(Task {
                    node: e.to,
                    cause: Cause::External(String::from_str("error-edge")),
                    input: Value::Str(msg.clone()),
                    trust: trust.clone(),
                });
                found = true;
                proof {
                    assert(task_targets(self.queue@) =~= task_targets(prev).push(e.to));
                    assert(error_routes(edge_views(edges@), i + 1) == error_routes(edge_views(edges@), i as int).push(e.to));
                    assert(task_targets(self.queue@) =~= task_targets(start) + error_routes(
                        edge_views(edges@),
                        i + 1,
                    ));
                }
            } else {
                proof {
                    assert(error_routes(edge_views(edges@), i + 1) == error_routes(edge_views(edges@), i as int));
                }
            }
            i = i + 1;
        }
        found
    }

    /// Count steps a nested run took, saturating at the largest count.
    pub fn add_steps(&mut self, n: u32)
        ensures
            final(self)@ == (SchedulerView {
                steps: if old(self)@.steps + n > u32::MAX { u32::MAX } else { (old(self)@.steps + n) as u32 },
                ..old(self)@
            }),
            final(self).tasks() == old(self).tasks(),
    {
        self.steps = self.steps.saturating_add(n);
    }

    pub fn steps(&self) -> (r: u32)
        ensures
            r == self@.steps,
    {
        self.steps
    }
}

/// What is left of the cap `cap` after `steps` steps.
pub open spec fn steps_left(cap: u32, steps: u32) -> u32 {
    if steps >= cap {
        0
    } else {
        (cap - steps) as u32
    }
}

/// The steps a nested run may take: what is left of the run's cap `cap`
/// after the `steps` already taken, so that parent and child together stay
/// within the cap.
pub fn child_step_budget(cap: u32, steps: u32) -> (r: u32)
    ensures
        r == steps_left(cap, steps),
{
    cap.saturating_sub(steps)
}

/// Law: a run that has kept within its cap, and a nested run that keeps
/// within the budget `child_step_budget` gave it, together keep within the
/// cap.
pub proof fn law_child_within_cap(cap: u32, steps: u32, child_steps: u32)
    requires
        steps <= cap,
        child_steps <= steps_left(cap, steps),
    ensures
        steps + child_steps <= cap,
{
}

/// Law: the scheduler never counts past its cap: from a state within the
/// cap, `next` stays within it and keeps the cap.
pub proof fn law_next_within_cap(s: SchedulerView, pending: bool)
    requires
        s.steps <= s.max_steps,
    ensures
        next_view(s, pending).steps <= s.max_steps,
        next_view(s, pending).max_steps == s.max_steps,
{
}

/// The slot a node's output goes to: its own, or `out.` and its label.
pub fn output_slot_for(node: &Node) -> (r: SlotKey)
    ensures
        r@ == match node.output_slot {
            Some(s) => s@,
            None => "out."@ + node.label@,
        },
{
    match &node.output_slot {
        Some(s) => SlotKey::new(s.as_str()),
        None => {
            let mut name = String::from_str("out.");
            name.append(node.label.as_str());
            SlotKey::new(name.as_str())
        },
    }
}

/// The cause of a loop iteration: the previous iteration's span, once there
/// is one; else the task's own cause.
pub fn loop_cause(parent: Option<SpanId>, iteration: u32, task_cause: &Cause) -> (r: Cause)
    ensures
        parent matches Some(p) ==> r == Cause::LoopIteration(p, iteration),
        parent is None ==> crate::causal::same_cause(r, *task_cause),
{
    match parent {
        Some(p) => Cause::LoopIteration(p, iteration),
        None => task_cause.clone(),
    }
}

/// The name of a goal status, as its `Debug` output spells it.
pub open spec fn goal_status_name(s: GoalStatus) -> Seq<char> {
    match s {
        GoalStatus::Aligned => "Aligned"@,
        GoalStatus::Drifting => "Drifting"@,
        GoalStatus::Violated => "Violated"@,
    }
}

/// The note of the decision effect a goal check records.
pub fn goal_check_note(report: &GoalReport) -> (r: String)
    ensures
        r@ == "goal check: "@ + goal_status_name(report.status) + " ("@ + report.note@ + ")"@,
{
    let mut s = String::from_str("goal check: ");
    match report.status {
        GoalStatus::Aligned => s.append("Aligned"),
        GoalStatus::Drifting => s.append("Drifting"),
        GoalStatus::Violated => s.append("Violated"),
    }
    s.append(" (");
    s.append(report.note.as_str());
    s.append(")");
    s
}

/// The failure of a node whose output violated the goal.
pub fn drift_failure(report: &GoalReport) -> (r: AgentError)
    ensures
        r matches AgentError::Other(m) && m@ == "goal drift: "@ + report.note@,
{
    let mut s = String::from_str("goal drift: ");
    s.append(report.note.as_str());
    AgentError::Other(s)
}

/// The bus after `before` with one more interrupt at `node`, outside any
/// span, of this kind and with this reason.
pub open spec fn raised_one(before: BusView, after: BusView, kind: InterruptKind, reason: Seq<char>, node: NodeId) -> bool {
    let i = after.queue.last();
    &&& after.queue.len() == before.queue.len() + 1
    &&& after.queue.drop_last() == before.queue
    &&& after.aborted == (before.aborted || kind == InterruptKind::Abort)
    &&& i.kind == kind
    &&& i.reason@ == reason
    &&& i.node == Some(node)
    &&& i.span is None
}

/// Check the wall-clock budget before a node runs. A run past its
/// wall-clock cap fails the node with the budget error and raises a
/// `BudgetExhausted` interrupt at the node; the budget is left as it was.
pub fn check_wall_budget(budget: &mut crate::budget::Budget, bus: &mut InterruptBus, node: NodeId) -> (r: AgentResult<()>)
    requires
        old(budget).wf(),
    ensures
        final(budget).wf(),
        final(budget)@ == old(budget)@,
        !old(budget)@.limits.contains_key(crate::budget::ResourceKind::WallMs) ==> r is Ok,
        r is Ok ==> final(bus)@ == old(bus)@,
        r matches Err(e) ==> e is Budget && raised_one(
            old(bus)@,
            final(bus)@,
            InterruptKind::BudgetExhausted,
            error_message(e),
            node,
        ),
{
    match budget.spend(crate::budget::ResourceKind::WallMs, 0, SpanId::new()) {
        Ok(()) => Ok(()),
        Err(e) => {
            let text = e.to_string();
            let i = Interrupt::new(InterruptKind::BudgetExhausted, text.as_str()).with_node(node);
            let ghost before = bus@;
            bus.raise(i);
            proof {
                assert(bus@.queue.drop_last() =~= before.queue);
            }
            Err(e)
        },
    }
}

/// What a nested run hands back: the value the child left in the node's
/// output slot, when the reader may read it and the child wrote it; else
/// the input, passed through.
pub open spec fn subgraph_value(b: BlackboardView, reader: AgentId, slot: Seq<char>, input: ValueView) -> ValueView {
    if policy_allows(b.policy, reader, slot, Permission::Read) && b.slots.contains_key(slot) {
        b.slots[slot]
    } else {
        input
    }
}

/// Settle a subgraph node after its nested run: its output is the child's
/// value in the output slot, or the input when there is none; an interrupt
/// that stopped the child is raised again on this run's bus.
pub fn settle_subgraph(
    bb: &Blackboard,
    bus: &mut InterruptBus,
    reader: AgentId,
    slot: &SlotKey,
    input: &Value,
    child_interrupt: Option<Interrupt>,
) -> (r: AgentOutput)
    requires
        bb.wf(),
    ensures
        r.value@ == subgraph_value(bb@, reader, slot@, input@),
        r.status == AgentStatus::Done,
        r.message is None,
        final(bus)@ == match child_interrupt {
            Some(i) => after_raise(old(bus)@, i),
            None => old(bus)@,
        },
{
    let value = if bb.holds(slot) {
        match bb.read(reader, slot) {
            Ok(v) => v,
            Err(_) => input.clone(),
        }
    } else {
        input.clone()
    };
    match child_interrupt {
        Some(i) => {
            bus.raise(i);
        },
        None => {},
    }
    AgentOutput::done(value)
}

/// The note a subgraph node records when no child graph is registered.
pub open spec fn pass_through_note() -> Seq<char> {
    "subgraph node has no registered child graph (pass-through)"@
}

/// A subgraph node with no registered child graph passes its input through
/// and records that decision on its span.
pub fn pass_through_subgraph(trace: &mut CausalTrace, span: SpanId, input: &Value) -> (r: AgentOutput)
    requires
        old(trace).wf(),
        old(trace)@.next_effect < u64::MAX,
    ensures
        final(trace).wf(),
        r.value@ == input@,
        r.status == AgentStatus::Done,
        old(trace)@.spans.contains_key(span.0) ==> effects_appended(
            old(trace)@,
            final(trace)@,
            span,
            seq![(EffectKind::Decision, pass_through_note())],
        ),
        !old(trace)@.spans.contains_key(span.0) ==> final(trace)@ == old(trace)@,
{
    let ghost t0 = trace@;
    let _ = trace.add_effect(
        span,
        EffectKind::Decision,
        "subgraph node has no registered child graph (pass-through)",
        Vec::new(),
    );
    proof {
        if t0.spans.contains_key(span.0) {
            let a = t0.spans[span.0].effects@;
            assert(trace@.spans[span.0].effects@.take(a.len() as int) =~= a);
        }
    }
    AgentOutput::done(input.clone())
}

/// The interrupt a run stops with when a node fails and no error edge
/// leaves it: an internal interrupt at the node carrying the error's text.
pub fn unhandled_failure(err: &AgentError, node: NodeId) -> (r: Interrupt)
    ensures
        r.kind == InterruptKind::Internal,
        r.node == Some(node),
        r.span is None,
        !(*err is Io) && !(*err is Json) ==> r.reason@ == error_message(*err),
{
    let text = err.to_string();
    Interrupt::new(InterruptKind::Internal, text.as_str()).with_node(node)
}

/// The note of the effect a failed node records.
pub fn failure_note(err: &AgentError) -> (r: String)
    ensures
        !(*err is Io) && !(*err is Json) ==> r@ == "node failed: "@ + error_message(*err),
{
    let mut s = String::from_str("node failed: ");
    let t = err.to_string();
    s.append(t.as_str());
    s
}

/// The reason an escalating output is reported with: its message, or
/// `escalation`.
pub fn escalation_reason(output: &AgentOutput) -> (r: String)
    ensures
        r@ == match output.message {
            Some(m) => m@,
            None => "escalation"@,
        },
{
    match &output.message {
        Some(m) => m.clone(),
        None => String::from_str("escalation"),
    }
}

/// The note of the decision effect a composed subgraph records.
pub fn composition_note(nodes: usize) -> (r: String)
    ensures
        r@ == "composed subgraph ("@ + decimal(nodes as nat) + " nodes, narrowed trust)"@,
{
    let mut s = String::from_str("composed subgraph (");
    let d = decimal_string(nodes as u64);
    s.append(d.as_str());
    s.append(" nodes, narrowed trust)");
    s
}

/// The failure of an agent node whose label names no registered agent.
pub fn missing_agent_error(label: &str) -> (r: AgentError)
    ensures
        r matches AgentError::Other(m) && m@ == "no agent for label "@ + debug_quoted(label@),
{
    let mut s = String::from_str("no agent for label ");
    let q = debug_text(label);
    s.append(q.as_str());
    AgentError::Other(s)
}

/// What came back from the human asked.
#[derive(Debug)]
pub enum HumanReply {
    /// The human answered in time.
    Answered(AgentResult<Value>),
    /// The deadline passed; carries the `Debug` text of the timeout.
    TimedOut(String),
    /// The worker asking the human went away without answering.
    Disconnected,
}

/// An interrupt of this kind was raised at this node and span.
pub open spec fn raised_at(r: Option<Interrupt>, kind: InterruptKind, node: NodeId, span: SpanId) -> bool {
    match r {
        Some(i) => i.kind == kind && i.node == Some(node) && i.span == Some(span),
        None => false,
    }
}

/// The interrupt carries this reason.
pub open spec fn reason_is(r: Option<Interrupt>, reason: Seq<char>) -> bool {
    match r {
        Some(i) => i.reason@ == reason,
        None => false,
    }
}

/// The node passes `v` on as a finished output.
pub open spec fn passes_on(r: AgentResult<AgentOutput>, v: Value) -> bool {
    match r {
        Ok(o) => o.value == v && o.status == AgentStatus::Done,
        Err(_) => false,
    }
}

/// The node fails with a human rejection carrying `m`.
pub open spec fn fails_human(r: AgentResult<AgentOutput>, m: Seq<char>) -> bool {
    match r {
        Err(AgentError::HumanRejected(x)) => x@ == m,
        _ => false,
    }
}

/// The node fails with an `Other` error carrying `m`.
pub open spec fn fails_other(r: AgentResult<AgentOutput>, m: Seq<char>) -> bool {
    match r {
        Err(AgentError::Other(x)) => x@ == m,
        _ => false,
    }
}

/// The result of a human node and the interrupt it raises: an answer passes
/// the approved value on; a rejection, a timeout or a lost worker raises
/// an interrupt at the node and span and fails the node.
pub fn settle_human(reply: HumanReply, node: NodeId, span: SpanId) -> (r: (AgentResult<AgentOutput>, Option<Interrupt>))
    ensures
        match reply {
            HumanReply::Answered(Ok(v)) => r.1 is None && passes_on(r.0, v),
            HumanReply::Answered(Err(e)) => r.0 == Err::<AgentOutput, AgentError>(e) && raised_at(
                r.1,
                InterruptKind::HumanRejected,
                node,
                span,
            ) && (!(e is Io) && !(e is Json) ==> reason_is(r.1, error_message(e))),
            HumanReply::TimedOut(t) => raised_at(r.1, InterruptKind::HumanRejected, node, span) && reason_is(
                r.1,
                "human review timed out after "@ + t@,
            ) && fails_human(r.0, "human review timed out after "@ + t@),
            HumanReply::Disconnected => raised_at(r.1, InterruptKind::Internal, node, span) && reason_is(
                r.1,
                "human review worker thread disconnected"@,
            ) && fails_other(r.0, "human review worker thread disconnected"@),
        },
{
    match reply {
        HumanReply::Answered(Ok(v)) => (Ok(AgentOutput::done(v)), None),
        HumanReply::Answered(Err(e)) => {
            let text = e.to_string();
            let i = Interrupt::new(InterruptKind::HumanRejected, text.as_str()).with_node(node).with_span(span);
            (Err(e), Some(i))
        },
        HumanReply::TimedOut(t) => {
            let mut reason = String::from_str("human review timed out after ");
            reason.append(t.as_str());
            let i = Interrupt::new(InterruptKind::HumanRejected, reason.as_str()).with_node(node).with_span(span);
            (Err(AgentError::HumanRejected(reason)), Some(i))
        },
        HumanReply::Disconnected => {
            let reason = String::from_str("human review worker thread disconnected");
            let i = Interrupt::new(InterruptKind::Internal, reason.as_str()).with_node(node).with_span(span);
            (Err(AgentError::Other(reason)), Some(i))
        },
    }
}

/// The interrupts raised at `node` and `span`, in order, as (kind, reason)
/// pairs: they are added on top of the queue, and none of them is an abort.
pub open spec fn raised_in_order(
    before: BusView,
    after: BusView,
    expected: Seq<(InterruptKind, Seq<char>)>,
    node: NodeId,
    span: SpanId,
) -> bool {
    &&& after.aborted == before.aborted
    &&& after.queue.len() == before.queue.len() + expected.len()
    &&& after.queue.take(before.queue.len() as int) == before.queue
    &&& forall|i: int|
        0 <= i < expected.len() ==> {
            let x = #[trigger] after.queue[before.queue.len() + i];
            &&& x.kind == expected[i].0
            &&& x.reason@ == expected[i].1
            &&& x.node == Some(node)
            &&& x.span == Some(span)
        }
}

/// The escalations a list of signals asks for, in order.
pub open spec fn escalations(signals: Seq<MetaSignal>) -> Seq<(InterruptKind, Seq<char>)>
    decreases signals.len(),
{
    if signals.len() == 0 {
        Seq::empty()
    } else {
        let prev = escalations(signals.drop_last());
        match signals.last() {
            MetaSignal::Escalate(e) => prev.push((InterruptKind::Escalation, e.reason@)),
            _ => prev,
        }
    }
}

/// The escalation an output asks for by its status.
pub open spec fn output_escalation(o: AgentOutput) -> Seq<(InterruptKind, Seq<char>)> {
    if o.status == AgentStatus::Escalate {
        seq![
            (InterruptKind::Escalation, match o.message {
                Some(m) => m@,
                None => "escalation"@,
            }),
        ]
    } else {
        Seq::empty()
    }
}

/// Raise an interrupt at a node and span.
fn raise_at(bus: &mut InterruptBus, kind: InterruptKind, reason: &str, node: NodeId, span: SpanId)
    requires
        kind != InterruptKind::Abort,
    ensures
        raised_in_order(old(bus)@, final(bus)@, seq![(kind, reason@)], node, span),
{
    bus.raise(Interrupt::new(kind, reason).with_node(node).with_span(span));
    proof {
        assert(bus@.queue.take(old(bus)@.queue.len() as int) =~= old(bus)@.queue);
    }
}

/// Raising one batch of interrupts and then another raises both, in order.
proof fn lemma_raised_chain(
    a: BusView,
    b: BusView,
    c: BusView,
    x: Seq<(InterruptKind, Seq<char>)>,
    y: Seq<(InterruptKind, Seq<char>)>,
    node: NodeId,
    span: SpanId,
)
    requires
        raised_in_order(a, b, x, node, span),
        raised_in_order(b, c, y, node, span),
    ensures
        raised_in_order(a, c, x + y, node, span),
{
    assert(c.queue.take(a.queue.len() as int) =~= a.queue) by {
        assert forall|i: int| 0 <= i < a.queue.len() implies c.queue[i] == a.queue[i] by {
            assert(c.queue.take(b.queue.len() as int)[i] == b.queue[i]);
            assert(b.queue.take(a.queue.len() as int)[i] == a.queue[i]);
        }
    }
    assert forall|i: int| 0 <= i < (x + y).len() implies {
        let q = #[trigger] c.queue[a.queue.len() + i];
        &&& q.kind == (x + y)[i].0
        &&& q.reason@ == (x + y)[i].1
        &&& q.node == Some(node)
        &&& q.span == Some(span)
    } by {
        if i < x.len() {
            assert(c.queue.take(b.queue.len() as int)[a.queue.len() + i] == b.queue[a.queue.len() + i]);
            assert(b.queue[a.queue.len() + i] == b.queue[a.queue.len() + i]);
        } else {
            let j = i - x.len();
            assert(c.queue[b.queue.len() + j] == c.queue[a.queue.len() + i]);
        }
    }
}

proof fn lemma_raised_none(a: BusView, node: NodeId, span: SpanId)
    ensures
        raised_in_order(a, a, Seq::empty(), node, span),
{
    assert(a.queue.take(a.queue.len() as int) =~= a.queue);
}

/// The node failed validation with this message.
pub open spec fn validation_failure(r: AgentResult<()>, m: Seq<char>) -> bool {
    r matches Err(AgentError::Validation(x)) && x@ == m
}

/// Open a node's span and validate its input. An input that fails
/// validation raises a `BadInput` interrupt at the node and span, closes the
/// span and fails the node with a validation error carrying the
/// validation message.
pub fn open_node(
    trace: &mut CausalTrace,
    bus: &mut InterruptBus,
    validator: &InputValidator,
    node: NodeId,
    agent: AgentId,
    cause: Cause,
    input: &Value,
) -> (r: (SpanId, AgentResult<()>))
    requires
        old(trace).wf(),
    ensures
        final(trace).wf(),
        final(trace)@.spans.contains_key(r.0.0),
        final(trace)@.spans[r.0.0].node == node,
        final(trace)@.spans[r.0.0].agent == agent,
        final(trace)@.spans[r.0.0].cause == cause,
        final(trace)@.order == old(trace)@.order.push(r.0),
        final(trace)@.next_effect == old(trace)@.next_effect,
        input@ == ValueView::Null ==> r.1 is Ok,
        input@ != ValueView::Null && scan_error(input@, validator.max_bytes(), validator.markers()) is Some
            ==> r.1 is Err,
        input@ != ValueView::Null && validator.rule_count() == 0 ==> (r.1 is Ok <==> scan_error(
            input@,
            validator.max_bytes(),
            validator.markers(),
        ) is None),
        r.1 is Ok ==> final(bus)@ == old(bus)@ && final(trace)@.spans[r.0.0].ended_at is None,
        r.1 is Err ==> final(trace)@.spans[r.0.0].ended_at is Some && exists|m: Seq<char>|
            #![trigger "validation error: "@ + m]
            {
                &&& validation_failure(r.1, "validation error: "@ + m)
                &&& raised_in_order(
                    old(bus)@,
                    final(bus)@,
                    seq![(InterruptKind::BadInput, "validation error: "@ + m)],
                    node,
                    r.0,
                )
                &&& (input@ != ValueView::Null && scan_error(input@, validator.max_bytes(), validator.markers())
                    is Some ==> scan_error(input@, validator.max_bytes(), validator.markers()) == Some(m))
            },
{
    let span = trace.open(node, agent, cause);
    match validator.validate(input) {
        Ok(()) => (span, Ok(())),
        Err(err) => {
            let reason = err.to_string();
            let ghost m = match err {
                AgentError::Validation(x) => x@,
                _ => Seq::empty(),
            };
            proof {
                assert(err is Validation);
                assert(reason@ == "validation error: "@ + m);
            }
            raise_at(bus, InterruptKind::BadInput, reason.as_str(), node, span);
            trace.close(span);
            let out = AgentError::Validation(reason);
            (span, Err(out))
        },
    }
}

/// Move the blackboard writes made while a node ran into its span, and
/// close the span.
pub fn close_node(bb: &mut Blackboard, trace: &mut CausalTrace, span: SpanId)
    requires
        old(trace).wf(),
    ensures
        final(bb)@ == (BlackboardView { log: Seq::empty(), ..old(bb)@ }),
        final(bb).wf() == old(bb).wf(),
        final(trace).wf(),
        final(trace)@.order == old(trace)@.order,
        final(trace)@.children == old(trace)@.children,
        final(trace)@.next_effect == old(trace)@.next_effect,
        final(trace)@.spans.dom() == old(trace)@.spans.dom(),
        old(trace)@.spans.contains_key(span.0) ==> {
            &&& final(trace)@.spans[span.0].ended_at is Some
            &&& crate::causal::write_views(final(trace)@.spans[span.0].writes@) == crate::causal::write_views(
                old(trace)@.spans[span.0].writes@,
            ) + old(bb)@.log
        },
{
    let writes = bb.drain_log();
    let ghost wv = crate::causal::write_views(writes@);
    trace.record_writes(span, writes);
    trace.close(span);
    proof {
        if old(trace)@.spans.contains_key(span.0) {
            assert(wv =~= old(bb)@.log);
            let mid = old(trace)@.spans[span.0].writes@;
            assert(crate::causal::write_views(mid + writes@) =~= crate::causal::write_views(mid) + wv);
        }
        assert(final(trace)@.spans.dom() =~= old(trace)@.spans.dom());
    }
}

/// The node failed with the goal-drift error for this note.
pub open spec fn drift_result(r: AgentResult<Value>, note: Seq<char>) -> bool {
    r matches Err(AgentError::Other(m)) && m@ == "goal drift: "@ + note
}

/// The node failed because the write of its output was denied.
pub open spec fn denied_result(r: AgentResult<Value>, writer: AgentId, slot: Seq<char>) -> bool {
    r matches Err(e) && is_denial(e, writer, "write"@, slot)
}

/// The node passed on a value with this view.
pub open spec fn passed_result(r: AgentResult<Value>, v: ValueView) -> bool {
    r matches Ok(x) && x@ == v
}

/// What settling a node that produced `o`, judged by `rep`, does: a
/// violated goal raises `GoalDrift` and fails the node; otherwise the output
/// is written to the slot (a denied write fails the node), and the agent's
/// escalations are raised.
pub open spec fn settled(
    r: AgentResult<Value>,
    o: AgentOutput,
    rep: GoalReport,
    bb0: BlackboardView,
    bb1: BlackboardView,
    bus0: BusView,
    bus1: BusView,
    node: NodeId,
    span: SpanId,
    writer: AgentId,
    slot: Seq<char>,
    signals: Seq<MetaSignal>,
) -> bool {
    if rep.status == GoalStatus::Violated {
        &&& drift_result(r, rep.note@)
        &&& bb1 == bb0
        &&& raised_in_order(bus0, bus1, seq![(InterruptKind::GoalDrift, rep.note@)], node, span)
    } else if !policy_allows(bb0.policy, writer, slot, Permission::Write) {
        &&& denied_result(r, writer, slot)
        &&& bb1 == bb0
        &&& bus1 == bus0
    } else {
        &&& passed_result(r, o.value@)
        &&& bb1 == after_write(bb0, writer, slot, o.value@)
        &&& raised_in_order(bus0, bus1, escalations(signals) + output_escalation(o), node, span)
    }
}

/// The span's effects in `after` are those in `before` followed by effects
/// with these kinds and descriptions.
pub open spec fn effects_appended(
    before: crate::causal::TraceView,
    after: crate::causal::TraceView,
    span: SpanId,
    notes: Seq<(EffectKind, Seq<char>)>,
) -> bool {
    let a = before.spans[span.0].effects@;
    let b = after.spans[span.0].effects@;
    &&& after.spans.contains_key(span.0)
    &&& b.len() == a.len() + notes.len()
    &&& b.take(a.len() as int) == a
    &&& forall|i: int|
        0 <= i < notes.len() ==> (#[trigger] b[a.len() + i]).kind == notes[i].0 && b[a.len() + i].description@
            == notes[i].1
}

/// Settle a node once its agent (or handler) has run and, if it produced an
/// output, the goal has judged it: record the outcome as effects of the
/// span, stop on a violated goal, write the output to its slot, and raise
/// the escalations the agent asked for.
pub fn settle_node(
    bb: &mut Blackboard,
    trace: &mut CausalTrace,
    bus: &mut InterruptBus,
    node: NodeId,
    span: SpanId,
    writer: AgentId,
    slot: &SlotKey,
    result: AgentResult<AgentOutput>,
    report: Option<GoalReport>,
    signals: &Vec<MetaSignal>,
) -> (r: AgentResult<Value>)
    requires
        old(bb).wf(),
        old(bb)@.seq < u64::MAX,
        old(trace).wf(),
        old(trace)@.next_effect < u64::MAX - 2,
        result is Ok <==> report is Some,
    ensures
        final(bb).wf(),
        final(trace).wf(),
        final(trace)@.order == old(trace)@.order,
        final(trace)@.children == old(trace)@.children,
        match result {
            Err(e) => r == Err::<Value, AgentError>(e) && final(bb)@ == old(bb)@ && final(bus)@ == old(bus)@,
            Ok(o) => settled(
                r,
                o,
                report->0,
                old(bb)@,
                final(bb)@,
                old(bus)@,
                final(bus)@,
                node,
                span,
                writer,
                slot@,
                signals@,
            ),
        },
        old(trace)@.spans.contains_key(span.0) ==> match result {
            Err(e) => (!(e is Io) && !(e is Json)) ==> effects_appended(
                old(trace)@,
                final(trace)@,
                span,
                seq![(EffectKind::Interrupt, "node failed: "@ + error_message(e))],
            ),
            Ok(_) => {
                let decision = (EffectKind::Decision, "goal check: "@ + goal_status_name(report->0.status) + " ("@
                    + report->0.note@ + ")"@);
                &&& r is Ok ==> effects_appended(
                    old(trace)@,
                    final(trace)@,
                    span,
                    seq![decision, (EffectKind::Output, "produced output"@)],
                )
                &&& r is Err ==> effects_appended(old(trace)@, final(trace)@, span, seq![decision])
            },
        },
{
    let ghost t0 = trace@;
    match result {
        Err(e) => {
            let note = failure_note(&e);
            let _ = trace.add_effect(span, EffectKind::Interrupt, note.as_str(), Vec::new());
            proof {
                if t0.spans.contains_key(span.0) {
                    let a = t0.spans[span.0].effects@;
                    assert(trace@.spans[span.0].effects@.take(a.len() as int) =~= a);
                }
            }
            Err(e)
        },
        Ok(output) => {
            let rep = match report {
                Some(rep) => rep,
                None => {
                    proof {
                        assert(false);
                    }
                    return Err(AgentError::Other(String::new()));
                },
            };
            let note = goal_check_note(&rep);
            let _ = trace.add_effect(span, EffectKind::Decision, note.as_str(), Vec::new());
            let ghost t1 = trace@;
            proof {
                if t0.spans.contains_key(span.0) {
                    let a = t0.spans[span.0].effects@;
                    assert(trace@.spans[span.0].effects@.take(a.len() as int) =~= a);
                }
            }
            if rep.status == GoalStatus::Violated {
                raise_at(bus, InterruptKind::GoalDrift, rep.note.as_str(), node, span);
                return Err(drift_failure(&rep));
            }
            match bb.write(writer, slot, output.value.clone()) {
                Err(e) => {
                    return Err(e);
                },
                Ok(()) => {},
            }
            let _ = trace.add_effect(span, EffectKind::Output, "produced output", Vec::new());
            proof {
                if t0.spans.contains_key(span.0) {
                    let a = t0.spans[span.0].effects@;
                    let b1 = t1.spans[span.0].effects@;
                    let b2 = trace@.spans[span.0].effects@;
                    assert(b2.take(b1.len() as int) =~= b1);
                    assert(b2.take(a.len() as int) =~= a);
                    assert(b2[a.len() as int] == b1[a.len() as int]);
                }
            }
            let ghost bus0 = bus@;
            proof {
                lemma_raised_none(bus0, node, span);
                assert(signals@.take(0) =~= Seq::<MetaSignal>::empty());
            }
            let mut i: usize = 0;
            while i < signals.len()
                invariant
                    i <= signals@.len(),
                    raised_in_order(bus0, bus@, escalations(signals@.take(i as int)), node, span),
                decreases signals.len() - i,
            {
                let ghost before = bus@;
                proof {
                    assert(signals@.take(i + 1).drop_last() =~= signals@.take(i as int));
                }
                match &signals[i] {
                    MetaSignal::Escalate(esc) => {
                        raise_at(bus, InterruptKind::Escalation, esc.reason.as_str(), node, span);
                        proof {
                            lemma_raised_chain(
                                bus0,
                                before,
                                bus@,
                                escalations(signals@.take(i as int)),
                                seq![(InterruptKind::Escalation, esc.reason@)],
                                node,
                                span,
                            );
                            assert(escalations(signals@.take(i as int)) + seq![(InterruptKind::Escalation, esc.reason@)]
                                =~= escalations(signals@.take(i + 1)));
                        }
                    },
                    _ => {
                        proof {
                            assert(escalations(signals@.take(i + 1)) == escalations(signals@.take(i as int)));
                        }
                    },
                }
                i = i + 1;
            }
            proof {
                assert(signals@.take(signals@.len() as int) =~= signals@);
            }
            let ghost before = bus@;
            if output.status == AgentStatus::Escalate {
                let reason = escalation_reason(&output);
                raise_at(bus, InterruptKind::Escalation, reason.as_str(), node, span);
                proof {
                    lemma_raised_chain(bus0, before, bus@, escalations(signals@), output_escalation(output), node, span);
                }
            } else {
                proof {
                    assert(escalations(signals@) + output_escalation(output) =~= escalations(signals@));
                }
            }
            Ok(output.value)
        },
    }
}

/// Law: the step cap holds: a scheduler within its cap stays within it,
/// however many times `next` is called, and a task runs only while steps
/// remain.
pub proof fn law_step_cap(s: SchedulerView, pending: bool)
    requires
        s.steps <= s.max_steps,
    ensures
        next_view(s, pending).steps <= next_view(s, pending).max_steps,
        next_view(s, pending).max_steps == s.max_steps,
        next_view(s, pending).steps > s.steps ==> s.steps < s.max_steps && !pending,
{
}

/// Law: routing never reorders or loses work already pending; it only adds
/// tasks on top, one per edge that carried the output.
pub proof fn law_routing_only_pushes(before: SchedulerView, edges: Seq<EdgeView>, passed: Seq<bool>)
    requires
        passed.len() == edges.len(),
    ensures
        (before.targets + routed(edges, passed, edges.len() as int)).take(before.targets.len() as int)
            == before.targets,
        routed(edges, passed, edges.len() as int).len() <= edges.len(),
{
    assert((before.targets + routed(edges, passed, edges.len() as int)).take(before.targets.len() as int)
        =~= before.targets);
    lemma_routed_len(edges, passed, edges.len() as int);
}

proof fn lemma_routed_len(edges: Seq<EdgeView>, passed: Seq<bool>, n: int)
    requires
        0 <= n <= edges.len(),
    ensures
        routed(edges, passed, n).len() <= n,
    decreases n,
{
    if n > 0 {
        lemma_routed_len(edges, passed, n - 1);
    }
}

/// Law: a failure at a node with no error edge routes nothing, whatever
/// its other edges; the executor then stops the run with an interrupt.
pub proof fn law_failure_routes_only_error_edges(edges: Seq<EdgeView>, n: int)
    requires
        0 <= n <= edges.len(),
        forall|k: int| 0 <= k < n ==> edges[k].kind != EdgeKind::OnError,
    ensures
        error_routes(edges, n).len() == 0,
    decreases n,
{
    if n > 0 {
        law_failure_routes_only_error_edges(edges, n - 1);
    }
}

} // verus!
