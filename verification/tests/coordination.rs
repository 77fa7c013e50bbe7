use agent_stack::blackboard::{Blackboard, SlotKey};
use agent_stack::budget::{Budget, BudgetLimit, ResourceKind};
use agent_stack::causal::{CausalTrace, Cause, EffectKind};
use agent_stack::error::{AgentError, Interrupt, InterruptKind};
use agent_stack::graph::{Edge, Graph, Node};
use agent_stack::id::{AgentId, NodeId, SpanId};
use agent_stack::interrupt::InterruptBus;
use agent_stack::policy::AccessPolicy;
use agent_stack::value::Value;

#[test]
fn write_and_read() {
    let mut bb = Blackboard::permissive();
    let a = AgentId::new();
    bb.write(a, &SlotKey::new("x"), Value::integer(42)).unwrap();
    let v = bb.read(a, &SlotKey::new("x")).unwrap();
    assert_eq!(v, Value::integer(42));
}

#[test]
fn missing_slot_is_null() {
    let bb = Blackboard::permissive();
    let a = AgentId::new();
    assert!(bb.read(a, &SlotKey::new("nope")).unwrap().is_null());
}

#[test]
fn update_is_atomic() {
    let mut bb = Blackboard::permissive();
    let a = AgentId::new();
    bb.write(a, &SlotKey::new("count"), Value::integer(1)).unwrap();
    let new = bb
        .update(a, &SlotKey::new("count"), |v| {
            if let Value::Int(i) = v {
                Value::Int(i + 1)
            } else {
                Value::Int(1)
            }
        })
        .unwrap();
    assert_eq!(new, Value::integer(2));
    assert_eq!(bb.read(a, &SlotKey::new("count")).unwrap(), Value::integer(2));
}

#[test]
fn policy_denies() {
    let policy = AccessPolicy::new();
    let mut bb = Blackboard::new(policy);
    let a = AgentId::new();
    let err = bb.write(a, &SlotKey::new("x"), Value::integer(1)).unwrap_err();
    assert!(matches!(err, AgentError::Blackboard(_)));
    let err = bb.read(a, &SlotKey::new("x")).unwrap_err();
    assert!(matches!(err, AgentError::Blackboard(_)));
}

#[test]
fn write_log_records_writes() {
    let mut bb = Blackboard::permissive();
    let a = AgentId::new();
    bb.write(a, &SlotKey::new("x"), Value::integer(1)).unwrap();
    bb.write(a, &SlotKey::new("y"), Value::bool(true)).unwrap();
    let log = bb.drain_log();
    assert_eq!(log.len(), 2);
    assert_eq!(log[0].slot, "x");
    assert_eq!(log[1].seq, 2);
    assert!(bb.drain_log().is_empty());
}

#[test]
fn read_after_write_and_other_slots_untouched() {
    let mut bb = Blackboard::permissive();
    let a = AgentId::new();
    bb.write(a, &SlotKey::new("x"), Value::integer(1)).unwrap();
    bb.write(a, &SlotKey::new("y"), Value::integer(2)).unwrap();
    bb.write(a, &SlotKey::new("x"), Value::integer(3)).unwrap();
    assert_eq!(bb.read(a, &SlotKey::new("x")).unwrap(), Value::integer(3));
    assert_eq!(bb.read(a, &SlotKey::new("y")).unwrap(), Value::integer(2));
    assert_eq!(bb.len(), 2);
    assert_eq!(bb.write_seq(), 3);
}

#[test]
fn snapshot_then_restore() {
    let mut bb = Blackboard::permissive();
    let a = AgentId::new();
    bb.write(a, &SlotKey::new("k"), Value::str("v")).unwrap();
    let snap = bb.snapshot();
    assert_eq!(snap.len(), 1);
    let mut other = Blackboard::permissive();
    other.restore(snap);
    assert_eq!(other.read(a, &SlotKey::new("k")).unwrap(), Value::str("v"));
}

#[test]
fn spend_within_limit() {
    let mut b = Budget::new(vec![BudgetLimit { kind: ResourceKind::Tokens, cap: 1000 }]);
    let s = SpanId::new();
    b.spend(ResourceKind::Tokens, 400, s).unwrap();
    assert_eq!(b.spent(ResourceKind::Tokens), 400);
    assert_eq!(b.remaining(ResourceKind::Tokens), 600);
}

#[test]
fn spend_over_limit_errors() {
    let mut b = Budget::new(vec![BudgetLimit { kind: ResourceKind::Tokens, cap: 100 }]);
    let s = SpanId::new();
    b.spend(ResourceKind::Tokens, 100, s).unwrap();
    let err = b.spend(ResourceKind::Tokens, 1, s).unwrap_err();
    assert!(matches!(err, AgentError::Budget(_)));
    assert!(b.is_exhausted(ResourceKind::Tokens));
    assert_eq!(b.remaining(ResourceKind::Tokens), 0);
}

#[test]
fn unlimited_never_exhausted() {
    let mut b = Budget::unlimited();
    let s = SpanId::new();
    b.spend(ResourceKind::ApiCalls, 1_000_000, s).unwrap();
    assert!(!b.is_exhausted(ResourceKind::ApiCalls));
}

#[test]
fn span_attribution() {
    let mut b = Budget::new(vec![BudgetLimit { kind: ResourceKind::Tokens, cap: 1000 }]);
    let s = SpanId::new();
    b.spend(ResourceKind::Tokens, 250, s).unwrap();
    let attr = b.span_spend(s);
    assert_eq!(attr.get(&ResourceKind::Tokens), Some(&250));
}

#[test]
fn spent_plus_remaining_is_cap() {
    let mut b = Budget::new(vec![BudgetLimit { kind: ResourceKind::MoneyMicros, cap: 50 }]);
    let s = SpanId::new();
    b.spend(ResourceKind::MoneyMicros, 20, s).unwrap();
    assert_eq!(b.spent(ResourceKind::MoneyMicros) + b.remaining(ResourceKind::MoneyMicros), 50);
}

#[test]
fn wall_clock_check() {
    let b = Budget::new(vec![BudgetLimit { kind: ResourceKind::WallMs, cap: 10 }]);
    assert!(b.check_wall_at(5).is_ok());
    assert!(matches!(b.check_wall_at(11), Err(AgentError::Budget(_))));
}

#[test]
fn trace_records_spans_and_effects() {
    let mut t = CausalTrace::new();
    let n = NodeId::new();
    let a = AgentId::new();
    let root = t.open(n, a, Cause::External("user".into()));
    let child = t.open(n, a, Cause::Parent(root));
    let eff = t.add_effect(child, EffectKind::Decision, "chose path A", vec![]).unwrap();
    t.record_read(child, "state.x".into());
    t.close(child);
    t.close(root);

    assert_eq!(t.len(), 2);
    assert_eq!(t.children_of(root), vec![child]);
    let s = t.get(child).unwrap();
    assert_eq!(s.reads, vec!["state.x".to_string()]);
    assert_eq!(s.effects.len(), 1);
    assert_eq!(t.dependents_of(eff), vec![]);
}

#[test]
fn effect_dependency_chain() {
    let mut t = CausalTrace::new();
    let n = NodeId::new();
    let a = AgentId::new();
    let s1 = t.open(n, a, Cause::External("start".into()));
    let e1 = t.add_effect(s1, EffectKind::Output, "produced x", vec![]).unwrap();
    let s2 = t.open(n, a, Cause::Effect(e1));
    let e2 = t.add_effect(s2, EffectKind::Decision, "used x", vec![e1]).unwrap();
    assert_eq!(t.dependents_of(e1), vec![e2]);
}

#[test]
fn effect_ids_increase_across_spans() {
    let mut t = CausalTrace::new();
    let n = NodeId::new();
    let a = AgentId::new();
    let s1 = t.open(n, a, Cause::External("a".into()));
    let s2 = t.open(n, a, Cause::External("b".into()));
    let e1 = t.add_effect(s1, EffectKind::Output, "one", vec![]).unwrap();
    let e2 = t.add_effect(s2, EffectKind::Output, "two", vec![]).unwrap();
    assert!(e1.0 < e2.0);
    assert!(t.add_effect(SpanId::new(), EffectKind::Output, "nowhere", vec![]).is_none());
}

#[test]
fn all_spans_in_open_order_and_closed() {
    let mut t = CausalTrace::new();
    let n = NodeId::new();
    let a = AgentId::new();
    let s1 = t.open(n, a, Cause::External("a".into()));
    let s2 = t.open(n, a, Cause::LoopIteration(s1, 1));
    t.close(s2);
    let all = t.all_spans();
    assert_eq!(all.len(), 2);
    assert_eq!(all[0].id, s1);
    assert_eq!(all[1].id, s2);
    assert!(all[1].ended_at.is_some());
    assert!(all[0].ended_at.is_none());
    assert_eq!(t.children_of(s1), vec![s2]);
}

#[test]
fn raise_and_take() {
    let mut bus = InterruptBus::new();
    bus.raise(Interrupt::new(InterruptKind::BudgetExhausted, "out of tokens"));
    assert!(bus.pending());
    let i = bus.take().unwrap();
    assert_eq!(i.kind, InterruptKind::BudgetExhausted);
}

#[test]
fn abort_short_circuits() {
    let mut bus = InterruptBus::new();
    bus.raise(Interrupt::new(InterruptKind::Abort, "user abort"));
    assert!(bus.aborted());
    assert!(bus.pending());
}

#[test]
fn abort_survives_drain_until_clear() {
    let mut bus = InterruptBus::new();
    bus.raise(Interrupt::new(InterruptKind::Internal, "first"));
    bus.raise(Interrupt::new(InterruptKind::Abort, "second"));
    assert_eq!(bus.take().unwrap().reason, "first");
    let drained = bus.drain();
    assert_eq!(drained.len(), 2);
    assert!(bus.pending());
    assert!(bus.take().is_none());
    bus.clear();
    assert!(!bus.pending());
    assert!(!bus.aborted());
}

#[test]
fn build_small_graph() {
    let mut g = Graph::new("demo");
    let a = g.add_node(Node::agent("a", "echo"));
    let b = g.add_node(Node::agent("b", "echo").with_output_slot("out.b"));
    g.add_edge(Edge::normal(a, b)).unwrap();
    assert_eq!(g.node_count(), 2);
    assert_eq!(g.edge_count(), 1);
    assert_eq!(g.out_edges(a).len(), 1);
    assert_eq!(g.entries, vec![a]);
}

#[test]
fn conditional_edge_evaluates() {
    let mut g = Graph::new("cond");
    let a = g.add_node(Node::agent("a", "echo"));
    let b = g.add_node(Node::agent("b", "echo"));
    let c = g.add_node(Node::agent("c", "echo"));
    g.add_edge(Edge::conditional(a, b, |_, o| matches!(o, Value::Bool(true)))).unwrap();
    g.add_edge(Edge::conditional(a, c, |_, o| matches!(o, Value::Bool(false)))).unwrap();
    let edges = g.out_edges(a);
    assert!(edges[0].passes(&Value::null(), &Value::bool(true)));
    assert!(!edges[1].passes(&Value::null(), &Value::bool(true)));
}

#[test]
fn edge_to_unknown_node_errors() {
    let mut g = Graph::new("bad");
    let a = g.add_node(Node::agent("a", "echo"));
    let missing = NodeId::new();
    let err = g.add_edge(Edge::normal(a, missing)).unwrap_err();
    assert!(matches!(err, agent_stack::error::AgentError::Graph(_)));
    assert_eq!(err.to_string(), format!("graph error: edge to unknown node NodeId({})", missing.as_uuid()));
    assert_eq!(g.edge_count(), 0);
}

#[test]
fn first_node_is_the_entry() {
    let mut g = Graph::new("entries");
    let a = g.add_node(Node::router("a"));
    let b = g.add_node(Node::router("b"));
    assert_eq!(g.entries, vec![a]);
    g.add_entry(b);
    assert_eq!(g.entries, vec![a, b]);
    g.set_entry(b);
    assert_eq!(g.entries, vec![b]);
    assert!(g.node(a).is_some());
    assert!(g.node(NodeId::new()).is_none());
    assert_eq!(g.nodes().len(), 2);
}

#[test]
fn restoring_a_snapshot_reproduces_the_board() {
    let mut bb = Blackboard::permissive();
    let a = AgentId::new();
    bb.write(a, &SlotKey::new("a"), Value::integer(1)).unwrap();
    bb.write(a, &SlotKey::new("b"), Value::list(vec![Value::str("x")])).unwrap();
    bb.write(a, &SlotKey::new("a"), Value::integer(2)).unwrap();
    let mut copy = Blackboard::permissive();
    copy.restore(bb.snapshot());
    for k in ["a", "b", "c"] {
        assert_eq!(copy.read(a, &SlotKey::new(k)).unwrap(), bb.read(a, &SlotKey::new(k)).unwrap());
    }
    assert_eq!(copy.len(), bb.len());
}

#[test]
fn wall_clock_is_checked_even_for_a_zero_spend() {
    let mut b = Budget::new(vec![BudgetLimit { kind: ResourceKind::WallMs, cap: 0 }]);
    let start = std::time::Instant::now();
    while start.elapsed().as_millis() < 3 {}
    let err = b.spend(ResourceKind::WallMs, 0, SpanId::new()).unwrap_err();
    assert!(matches!(err, AgentError::Budget(_)));
    let mut free = Budget::unlimited();
    assert!(free.spend(ResourceKind::WallMs, 0, SpanId::new()).is_ok());
}
