use agent_stack::blackboard::{Blackboard, SlotKey};
use agent_stack::budget::{Budget, BudgetLimit, ResourceKind};
use agent_stack::causal::{CausalTrace, Cause, EffectKind};
use agent_stack::error::{AgentError, Interrupt, InterruptKind};
use agent_stack::executor::{check_wall_budget, pass_through_subgraph, settle_subgraph, RunStatus, Task};
use agent_stack::id::{AgentId, NodeId, RunId, SpanId};
use agent_stack::interrupt::InterruptBus;
use agent_stack::llm_agent::{replayed_reply, reply_text};
use agent_stack::loop_spec::LoopSpec;
use agent_stack::run_control::{LoopRun, LoopStep, NodeOutcome, RunState};
use agent_stack::trust::TrustContext;
use agent_stack::value::Value;

fn task(input: Value) -> Task {
    Task {
        node: NodeId::new(),
        cause: Cause::External("run".into()),
        input,
        trust: TrustContext::permissive_root(),
    }
}

#[test]
fn loop_runs_each_iteration_then_stops_with_the_last_output() {
    let spec = LoopSpec::repeat(2);
    let t = task(Value::str("in"));
    let mut lp = LoopRun::new();
    match lp.next(&spec, false, Ok(Value::null()), &t, None) {
        LoopStep::Iterate { cause, input } => {
            assert!(matches!(cause, Cause::External(ref c) if c == "run"));
            assert_eq!(input, Value::str("in"));
        }
        _ => panic!("expected an iteration"),
    }
    assert!(lp.record(NodeOutcome::Done(Value::integer(1))).is_none());
    let span = SpanId::new();
    match lp.next(&spec, false, Ok(Value::null()), &t, Some(span)) {
        LoopStep::Iterate { cause, .. } => assert!(matches!(cause, Cause::LoopIteration(s, 1) if s == span)),
        _ => panic!("expected a second iteration"),
    }
    assert!(lp.record(NodeOutcome::Done(Value::integer(2))).is_none());
    match lp.next(&spec, false, Ok(Value::null()), &t, Some(span)) {
        LoopStep::Stop(NodeOutcome::Done(v)) => assert_eq!(v, Value::integer(2)),
        _ => panic!("expected the loop to end"),
    }
}

#[test]
fn loop_stops_on_interrupt_slot_error_and_failure() {
    let spec = LoopSpec::foreach("items", 10);
    let t = task(Value::null());
    let mut lp = LoopRun::new();
    let items = Value::List(vec![Value::integer(5), Value::integer(6)]);
    match lp.next(&spec, false, Ok(items), &t, None) {
        LoopStep::Iterate { input, .. } => assert_eq!(input, Value::integer(5)),
        _ => panic!("expected the first item"),
    }
    assert!(matches!(lp.next(&spec, true, Ok(Value::null()), &t, None), LoopStep::Stop(NodeOutcome::Done(Value::Null))));
    let denied = lp.next(&spec, false, Err(AgentError::Blackboard("no".into())), &t, None);
    assert!(matches!(denied, LoopStep::Stop(NodeOutcome::Failed(AgentError::Blackboard(_)))));
    let failed = lp.record(NodeOutcome::Failed(AgentError::Other("boom".into())));
    assert!(matches!(failed, Some(NodeOutcome::Failed(AgentError::Other(_)))));
}

#[test]
fn run_completes_without_an_interrupt() {
    let trust = TrustContext::permissive_root();
    let bus = InterruptBus::new();
    let mut run = RunState::start(&[NodeId::new()], &Value::integer(3), &trust, RunId::new(), 5, 0);
    let t = run.next(&bus).unwrap();
    assert_eq!(t.input, Value::integer(3));
    run.node_done(&[], &Value::null(), &Value::null(), &trust);
    assert!(run.next(&bus).is_none());
    assert!(!run.is_running());
    let out = run.finish(RunId::new(), 0, vec![]);
    assert_eq!(out.status, RunStatus::Completed);
    assert!(out.interrupted.is_none());
    assert_eq!(out.steps, 1);
}

#[test]
fn run_stops_at_the_step_cap() {
    let trust = TrustContext::permissive_root();
    let bus = InterruptBus::new();
    let mut run = RunState::start(&[NodeId::new()], &Value::null(), &trust, RunId::new(), 0, 0);
    assert!(run.next(&bus).is_none());
    let out = run.finish(RunId::new(), 0, vec![]);
    assert_eq!(out.status, RunStatus::StepLimited);
    assert!(out.interrupted.is_none());
    assert_eq!(out.steps, 0);
}

#[test]
fn run_keeps_the_pending_interrupt() {
    let trust = TrustContext::permissive_root();
    let mut bus = InterruptBus::new();
    bus.raise(Interrupt::new(InterruptKind::Abort, "stop"));
    let mut run = RunState::start(&[NodeId::new()], &Value::null(), &trust, RunId::new(), 5, 0);
    assert!(run.next(&bus).is_none());
    let out = run.finish(RunId::new(), 0, vec![]);
    assert_eq!(out.status, RunStatus::Interrupted);
    assert_eq!(out.interrupted.unwrap().reason, "stop");
}

#[test]
fn unhandled_failure_stops_the_run() {
    let trust = TrustContext::permissive_root();
    let mut bus = InterruptBus::new();
    let node = NodeId::new();
    let mut run = RunState::start(&[node], &Value::null(), &trust, RunId::new(), 5, 0);
    run.next(&bus).unwrap();
    assert!(!run.node_failed(&[], &AgentError::Other("boom".into()), &trust, node, &mut bus));
    assert!(!run.is_running());
    let out = run.finish(RunId::new(), 0, vec![]);
    assert_eq!(out.status, RunStatus::Interrupted);
    let kept = out.interrupted.unwrap();
    assert_eq!(kept.kind, InterruptKind::Internal);
    assert_eq!(kept.node, Some(node));
    assert_eq!(kept.reason, "other: boom");
}

#[test]
fn nested_steps_are_counted() {
    let trust = TrustContext::permissive_root();
    let bus = InterruptBus::new();
    let mut run = RunState::start(&[NodeId::new()], &Value::null(), &trust, RunId::new(), 10, 0);
    run.next(&bus).unwrap();
    run.add_steps(4);
    assert_eq!(run.steps(), 5);
}

#[test]
fn wall_budget_failure_raises_budget_exhausted() {
    let mut b = Budget::new(vec![BudgetLimit { kind: ResourceKind::WallMs, cap: 0 }]);
    let start = std::time::Instant::now();
    while start.elapsed().as_millis() < 3 {}
    let mut bus = InterruptBus::new();
    let node = NodeId::new();
    let err = check_wall_budget(&mut b, &mut bus, node).unwrap_err();
    assert!(matches!(err, AgentError::Budget(_)));
    let raised = bus.drain();
    assert_eq!(raised.len(), 1);
    assert_eq!(raised[0].kind, InterruptKind::BudgetExhausted);
    assert_eq!(raised[0].node, Some(node));
    assert_eq!(raised[0].reason, err.to_string());
    let mut free = Budget::unlimited();
    assert!(check_wall_budget(&mut free, &mut bus, node).is_ok());
    assert!(!bus.pending());
}

#[test]
fn subgraph_result_is_the_slot_or_the_input() {
    let mut bb = Blackboard::permissive();
    let mut bus = InterruptBus::new();
    let reader = AgentId::new();
    let slot = SlotKey::new("out.child");
    let absent = settle_subgraph(&bb, &mut bus, reader, &slot, &Value::str("in"), None);
    assert_eq!(absent.value, Value::str("in"));
    assert!(!bus.pending());
    bb.write(reader, &slot, Value::integer(9)).unwrap();
    let child_stop = Interrupt::new(InterruptKind::Escalation, "child");
    let written = settle_subgraph(&bb, &mut bus, reader, &slot, &Value::str("in"), Some(child_stop));
    assert_eq!(written.value, Value::integer(9));
    let raised = bus.drain();
    assert_eq!(raised.len(), 1);
    assert_eq!(raised[0].reason, "child");
}

#[test]
fn missing_child_graph_passes_input_through() {
    let mut trace = CausalTrace::new();
    let span = trace.open(NodeId::new(), AgentId::new(), Cause::External("t".into()));
    let out = pass_through_subgraph(&mut trace, span, &Value::integer(1));
    assert_eq!(out.value, Value::integer(1));
    let s = trace.get(span).unwrap();
    assert_eq!(s.effects.len(), 1);
    assert!(matches!(s.effects[0].kind, EffectKind::Decision));
    assert_eq!(s.effects[0].description, "subgraph node has no registered child graph (pass-through)");
}

#[test]
fn replayed_reply_reads_the_reply_text() {
    let with_text: serde_json::Value = serde_json::from_str("{\"reply\":\"hi\"}").unwrap();
    assert_eq!(replayed_reply(&with_text).value, Value::str("hi"));
    let not_text: serde_json::Value = serde_json::from_str("{\"reply\":3}").unwrap();
    assert_eq!(replayed_reply(&not_text).value, Value::str(""));
    let absent: serde_json::Value = serde_json::from_str("{}").unwrap();
    assert_eq!(replayed_reply(&absent).value, Value::str(""));
    assert_eq!(reply_text(None), "");
    assert_eq!(reply_text(Some("x".to_string())), "x");
}
