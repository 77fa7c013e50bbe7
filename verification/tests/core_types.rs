use agent_stack::error::{AgentError, Interrupt, InterruptKind};
use agent_stack::id::{AgentId, NodeId, SpanId};
use agent_stack::loop_spec::{LoopSpec, LoopState};
use agent_stack::policy::{AccessPolicy, Permission};
use agent_stack::trust::{Authority, Constraint, TrustContext};
use agent_stack::value::Value;

#[test]
fn ids_are_distinct() {
    let a = NodeId::new();
    let b = NodeId::new();
    assert_ne!(a, b);
}

#[test]
fn id_display_has_prefix() {
    let id = NodeId::from_uuid(uuid::Uuid::nil());
    assert!(id.to_string().starts_with("node-"));
    assert_eq!(id.to_string(), "node-00000000-0000-0000-0000-000000000000");
}

#[test]
fn span_id_text_names_the_uuid() {
    let u = uuid::Uuid::from_u128(0x1234);
    let id = SpanId::from_uuid(u);
    assert_eq!(id.to_string(), format!("span-{}", u));
    assert_eq!(id.as_uuid(), u);
}

#[test]
fn fresh_ids_are_version_four() {
    let id = AgentId::new();
    let u = id.as_uuid();
    assert_eq!(u.get_version_num(), 4);
    assert_eq!(u.get_variant(), uuid::Variant::RFC4122);
    assert_eq!((id.0 >> 76) & 0xf, 4);
    assert_eq!((id.0 >> 62) & 0x3, 2);
}

#[test]
fn id_bits_follow_the_uuid_bytes() {
    let u = uuid::Uuid::parse_str("a1a2a3a4-b1b2-c1c2-d1d2-d3d4d5d6d7d8").unwrap();
    let id = NodeId::from_uuid(u);
    assert_eq!(id.0, 0xa1a2a3a4b1b2c1c2d1d2d3d4d5d6d7d8u128);
    assert_eq!(NodeId(0xa1a2a3a4b1b2c1c2d1d2d3d4d5d6d7d8u128).as_uuid(), u);
}

#[test]
fn repeat_loop() {
    let spec = LoopSpec::repeat(3);
    let mut s = LoopState::new();
    assert!(spec.continues(&s, &Value::null()));
    s.advance();
    assert!(spec.continues(&s, &Value::null()));
    s.advance();
    assert!(spec.continues(&s, &Value::null()));
    s.advance();
    assert!(!spec.continues(&s, &Value::null()));
}

#[test]
fn while_eq_loop() {
    let spec = LoopSpec::while_eq("flag", Value::bool(true), 10);
    let mut s = LoopState::new();
    assert!(spec.continues(&s, &Value::bool(true)));
    assert!(!spec.continues(&s, &Value::bool(false)));
    s.advance();
    assert!(spec.continues(&s, &Value::bool(true)));
}

#[test]
fn until_eq_loop() {
    let spec = LoopSpec::until_eq("done", Value::bool(true), 10);
    let s = LoopState::new();
    assert!(spec.continues(&s, &Value::bool(false)));
    assert!(!spec.continues(&s, &Value::bool(true)));
}

#[test]
fn foreach_loop() {
    let spec = LoopSpec::foreach("items", 10);
    let items = Value::list(vec![Value::integer(1), Value::integer(2), Value::integer(3)]);
    let mut s = LoopState::new();
    assert!(spec.continues(&s, &items));
    assert_eq!(spec.current_item(&items, &s), Some(&Value::integer(1)));
    s.advance();
    assert_eq!(spec.current_item(&items, &s), Some(&Value::integer(2)));
    s.advance();
    s.advance();
    assert!(!spec.continues(&s, &items));
}

#[test]
fn max_iters_caps() {
    let spec = LoopSpec::while_eq("flag", Value::bool(true), 2);
    let mut s = LoopState::new();
    s.advance();
    s.advance();
    assert!(!spec.continues(&s, &Value::bool(true)));
}

#[test]
fn repeat_zero_never_runs() {
    let spec = LoopSpec::repeat(0);
    let s = LoopState::new();
    assert!(!spec.continues(&s, &Value::null()));
    assert_eq!(spec.max_iters, 1);
}

#[test]
fn foreach_on_non_list_stops() {
    let spec = LoopSpec::foreach("items", 10);
    let s = LoopState::new();
    assert!(!spec.continues(&s, &Value::integer(3)));
    assert_eq!(spec.current_item(&Value::integer(3), &s), None);
}

#[test]
fn authority_prefix_grant() {
    let a = Authority::new("filesystem");
    assert!(a.grants("filesystem"));
    assert!(a.grants("filesystem:write"));
    assert!(!a.grants("network"));
}

#[test]
fn narrow_reduces_authority() {
    let root = TrustContext::root(
        AgentId::new(),
        vec![Authority::new("filesystem"), Authority::new("network")],
    );
    let child = root.narrow(
        AgentId::new(),
        &[Authority::new("filesystem:write"), Authority::new("compute")],
        &[Constraint::new("max_tokens:100")],
    );
    assert!(child.has("filesystem:write"));
    assert!(!child.has("compute"));
    assert_eq!(child.depth, 1);
    assert!(child.constrained_to("max_tokens:100"));
}

#[test]
fn constraints_accumulate() {
    let root = TrustContext::root(AgentId::new(), vec![Authority::new("compute")]);
    let c1 = root.narrow(AgentId::new(), &[], &[Constraint::new("a")]);
    let c2 = c1.narrow(AgentId::new(), &[], &[Constraint::new("b")]);
    assert!(c2.constrained_to("a"));
    assert!(c2.constrained_to("b"));
}

#[test]
fn narrowing_never_widens_concrete() {
    let root = TrustContext::root(AgentId::new(), vec![Authority::new("net")]);
    let child = root.narrow(AgentId::new(), &[Authority::new("net:http"), Authority::new("disk")], &[]);
    assert!(child.has("net:http"));
    assert!(!child.has("disk"));
    assert!(!child.has("net"));
    assert!(root.has("net:http"));
}

#[test]
fn permissive_root_holds_the_four_authorities() {
    let root = TrustContext::permissive_root();
    assert!(root.has("network"));
    assert!(root.has("filesystem:write"));
    assert!(root.has("compute"));
    assert!(root.has("call"));
    assert!(!root.has("admin"));
    assert_eq!(root.depth, 0);
}

#[test]
fn shape_of_object() {
    let v = Value::obj(vec![("count", Value::integer(3)), ("name", Value::str("agent"))]);
    assert_eq!(v.shape(2), "Object{count:Int,name:Str}");
}

#[test]
fn shape_of_nested_list_and_depth_zero() {
    let v = Value::list(vec![Value::obj(vec![("a", Value::bool(true))])]);
    assert_eq!(v.shape(2), "List[Object{a:Bool}]");
    assert_eq!(v.shape(0), "List");
    assert_eq!(Value::list(vec![]).shape(3), "List");
}

#[test]
fn null_is_null() {
    assert!(Value::null().is_null());
    assert!(!Value::integer(0).is_null());
}

#[test]
fn object_equality_ignores_field_order() {
    let a = Value::obj(vec![("x", Value::integer(1)), ("y", Value::bool(false))]);
    let b = Value::obj(vec![("y", Value::bool(false)), ("x", Value::integer(1))]);
    let c = Value::obj(vec![("x", Value::integer(2)), ("y", Value::bool(false))]);
    assert_eq!(a, b);
    assert_ne!(a, c);
    assert_eq!(a.clone(), a);
}

#[test]
fn value_from_plain_values() {
    assert_eq!(Value::from(true), Value::bool(true));
    assert_eq!(Value::from(7i64), Value::integer(7));
    assert_eq!(Value::from(String::from("hi")), Value::str("hi"));
}

#[test]
fn fail_closed_by_default() {
    let p = AccessPolicy::new();
    let a = AgentId::new();
    assert!(!p.check(a, "x", Permission::Read));
}

#[test]
fn wildcard_grant() {
    let mut p = AccessPolicy::new();
    let a = AgentId::new();
    p.grant_all(a, "results.*");
    assert!(p.check(a, "results.a", Permission::Read));
    assert!(p.check(a, "results.b", Permission::Write));
    assert!(!p.check(a, "other", Permission::Read));
}

#[test]
fn exact_match() {
    let mut p = AccessPolicy::new();
    let a = AgentId::new();
    p.add(a, "count", Permission::Write);
    assert!(p.check(a, "count", Permission::Write));
    assert!(!p.check(a, "count", Permission::Read));
}

#[test]
fn default_allow_policy_allows_unknown_agent() {
    let p = AccessPolicy::new().with_default_allow(true);
    assert!(p.check(AgentId::new(), "anything", Permission::Lock));
}

#[test]
fn interrupt_carries_context() {
    let mut ctx = serde_json::Map::new();
    ctx.insert("used".to_string(), serde_json::Value::from(1000));
    ctx.insert("limit".to_string(), serde_json::Value::from(1000));
    let i = Interrupt::new(InterruptKind::BudgetExhausted, "tokens used up")
        .with_context(serde_json::Value::Object(ctx));
    assert_eq!(i.kind, InterruptKind::BudgetExhausted);
    assert_eq!(i.context["used"], 1000);
}

#[test]
fn interrupt_to_error() {
    let i = Interrupt::new(InterruptKind::GoalDrift, "output diverged");
    let e: AgentError = i.into();
    assert!(matches!(e, AgentError::Interrupt { .. }));
    assert_eq!(e.to_string(), "interrupt: GoalDrift (output diverged)");
}

#[test]
fn interrupt_display_text() {
    let i = Interrupt::new(InterruptKind::Abort, "stop").with_node(NodeId::new());
    assert_eq!(i.to_string(), "Abort: stop");
    assert!(i.node.is_some());
    assert!(i.span.is_none());
}

#[test]
fn error_messages_have_prefixes() {
    assert_eq!(AgentError::Graph("g".into()).to_string(), "graph error: g");
    assert_eq!(AgentError::Blackboard("b".into()).to_string(), "blackboard error: b");
    assert_eq!(AgentError::Budget("x".into()).to_string(), "budget exhausted: x");
    assert_eq!(AgentError::Trust("t".into()).to_string(), "trust violation: t");
    assert_eq!(AgentError::Validation("v".into()).to_string(), "validation error: v");
    assert_eq!(AgentError::Negotiation("n".into()).to_string(), "negotiation failed: n");
    assert_eq!(AgentError::HumanRejected("h".into()).to_string(), "human review rejected: h");
    assert_eq!(AgentError::Other("o".into()).to_string(), "other: o");
}

#[test]
fn object_equality_needs_a_match_both_ways() {
    let a = Value::obj(vec![("a", Value::integer(1)), ("a", Value::integer(1))]);
    let b = Value::obj(vec![("a", Value::integer(1)), ("b", Value::integer(2))]);
    assert!(a != b);
    assert!(b != a);
    let c = Value::obj(vec![("b", Value::integer(2)), ("a", Value::integer(1))]);
    assert!(b == c);
    assert!(c == b);
}
