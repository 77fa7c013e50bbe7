use agent_stack::graph::{EdgeKind, NodeKind};
use agent_stack::graph_spec::{build_graph, EdgeSpec, GraphSpec, NodeSpec};
use agent_stack::loop_spec::LoopKind;
use agent_stack::llm_agent::{fnv1a_hash, hex_string, replay_key, usage_total};
use agent_stack::value::Value;

fn node(label: &str, agent: &str) -> NodeSpec {
    NodeSpec {
        label: label.into(),
        agent: agent.into(),
        output_slot: None,
        loop_kind: None,
        loop_count: None,
        loop_slot: None,
        loop_target: None,
    }
}

fn edge(from: &str, to: &str, kind: Option<&str>) -> EdgeSpec {
    EdgeSpec { from: from.into(), to: to.into(), kind: kind.map(|k| k.to_string()) }
}

#[test]
fn builds_nodes_edges_and_entry() {
    let mut b = node("b", "echo");
    b.output_slot = Some("out.b".into());
    b.loop_kind = Some("repeat".into());
    b.loop_count = Some(3);
    let spec = GraphSpec {
        name: "demo".into(),
        nodes: vec![node("a", "echo"), b],
        edges: vec![edge("a", "b", None), edge("b", "a", Some("error"))],
        entry: Some("b".into()),
    };
    let g = build_graph(&spec).unwrap();
    assert_eq!(g.name, "demo");
    assert_eq!(g.node_count(), 2);
    assert_eq!(g.edge_count(), 2);
    assert_eq!(g.entries.len(), 1);
    let entry = g.node(g.entries[0]).unwrap();
    assert_eq!(entry.label, "b");
    assert_eq!(entry.output_slot.as_deref(), Some("out.b"));
    let l = entry.loop_spec.as_ref().unwrap();
    assert!(matches!(l.kind, LoopKind::Repeat { count: 3 }));
    assert!(matches!(&entry.kind, NodeKind::Agent(a) if a == "echo"));
    let out_b = g.out_edges(g.entries[0]);
    assert_eq!(out_b.len(), 1);
    assert_eq!(out_b[0].kind, EdgeKind::OnError);
}

#[test]
fn loop_defaults_and_targets() {
    let mut w = node("w", "x");
    w.loop_kind = Some("while".into());
    w.loop_slot = Some("flag".into());
    w.loop_target = Some(Value::bool(true));
    let spec = GraphSpec { name: "l".into(), nodes: vec![w], edges: vec![], entry: None };
    let g = build_graph(&spec).unwrap();
    let n = g.node(g.entries[0]).unwrap();
    let l = n.loop_spec.as_ref().unwrap();
    assert_eq!(l.max_iters, 100);
    assert!(matches!(&l.kind, LoopKind::While { slot, target } if slot.as_str() == "flag" && *target == Value::bool(true)));
}

#[test]
fn unknown_loop_kind_is_refused() {
    let mut n = node("a", "x");
    n.loop_kind = Some("forever".into());
    let spec = GraphSpec { name: "bad".into(), nodes: vec![n], edges: vec![edge("a", "zzz", None)], entry: None };
    assert_eq!(build_graph(&spec).err(), Some("unknown loop_kind: forever".to_string()));
}

#[test]
fn unknown_edge_end_and_kind_are_refused() {
    let spec = GraphSpec {
        name: "bad".into(),
        nodes: vec![node("a", "x")],
        edges: vec![edge("a", "b", None)],
        entry: None,
    };
    assert_eq!(build_graph(&spec).err(), Some("unknown node: b".to_string()));
    let spec = GraphSpec {
        name: "bad".into(),
        nodes: vec![node("a", "x")],
        edges: vec![edge("q", "a", None)],
        entry: None,
    };
    assert_eq!(build_graph(&spec).err(), Some("unknown node: q".to_string()));
    let spec = GraphSpec {
        name: "bad".into(),
        nodes: vec![node("a", "x"), node("b", "x")],
        edges: vec![edge("a", "b", Some("conditional"))],
        entry: None,
    };
    assert_eq!(build_graph(&spec).err(), Some("unsupported edge kind in CLI: conditional".to_string()));
}

#[test]
fn unknown_entry_keeps_first_node() {
    let spec = GraphSpec { name: "e".into(), nodes: vec![node("a", "x"), node("b", "x")], edges: vec![], entry: Some("nope".into()) };
    let g = build_graph(&spec).unwrap();
    assert_eq!(g.entries.len(), 1);
    assert_eq!(g.node(g.entries[0]).unwrap().label, "a");
}

#[test]
fn fnv1a_known_values() {
    assert_eq!(fnv1a_hash(b""), 0xcbf29ce484222325);
    assert_eq!(fnv1a_hash(b"a"), 0xaf63dc4c8601ec8c);
    assert_eq!(hex_string(0), "0");
    assert_eq!(hex_string(255), "ff");
    assert_eq!(hex_string(u64::MAX), "ffffffffffffffff");
}

#[test]
fn replay_key_hashes_request_text() {
    assert_eq!(replay_key("gpt|\"hi\""), "llm-5743a9593848856b");
    assert_eq!(replay_key("gpt|\"hi\""), format!("llm-{:x}", fnv1a_hash("gpt|\"hi\"".as_bytes())));
    assert_ne!(replay_key("a"), replay_key("b"));
}

#[test]
fn usage_total_prefers_reported_total() {
    assert_eq!(usage_total(3, 4, 10), 10);
    assert_eq!(usage_total(3, 4, 0), 7);
    assert_eq!(usage_total(0, 0, 0), 0);
}

#[test]
fn edges_join_the_labelled_nodes_in_their_direction() {
    let spec = GraphSpec {
        name: "dir".into(),
        nodes: vec![node("a", "x"), node("b", "y"), node("c", "z")],
        edges: vec![edge("a", "b", None), edge("c", "a", Some("error"))],
        entry: Some("c".into()),
    };
    let g = build_graph(&spec).unwrap();
    assert_eq!(g.node_count(), 3);
    let id_of = |label: &str| g.nodes().iter().find(|n| n.label == label).unwrap().id;
    let (a, b, c) = (id_of("a"), id_of("b"), id_of("c"));
    assert_eq!(g.entries, vec![c]);
    let out_a = g.out_edges(a);
    assert_eq!(out_a.len(), 1);
    assert_eq!(out_a[0].to, b);
    assert_eq!(out_a[0].kind, EdgeKind::Normal);
    assert!(g.out_edges(b).is_empty());
    let out_c = g.out_edges(c);
    assert_eq!(out_c.len(), 1);
    assert_eq!(out_c[0].to, a);
    assert_eq!(out_c[0].kind, EdgeKind::OnError);
    for n in g.nodes() {
        assert!(n.loop_spec.is_none());
        assert!(n.output_slot.is_none());
    }
    let agent_of_b = &g.node(b).unwrap().kind;
    assert!(matches!(agent_of_b, NodeKind::Agent(s) if s == "y"));
}
