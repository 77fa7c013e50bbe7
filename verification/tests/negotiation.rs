use agent_stack::agent::{AgentOutput, AgentStatus};
use agent_stack::contract::{Contract, ContractStatus};
use agent_stack::error::{AgentError, InterruptKind};
use agent_stack::goal::{Goal, GoalReport, GoalStatus};
use agent_stack::id::{AgentId, SpanId};
use agent_stack::meta::{Confidence, EscalationSignal, MetaSignal};
use agent_stack::negotiation::{deadlock_error, one_shot, Negotiation, NegotiationOutcome, ProviderAction};
use agent_stack::value::Value;

fn is_ten(v: &Value) -> bool {
    matches!(v, Value::Int(i) if *i == 10)
}

#[test]
fn fulfilled_when_accepted() {
    let mut c = Contract::new(Value::str("sum to 10"), is_ten);
    c.counter(Value::str("I'll sum to 10"));
    c.accept();
    c.deliver(Value::integer(10)).unwrap();
    assert_eq!(c.status(), ContractStatus::Fulfilled);
    assert_eq!(c.delivered(), Some(Value::integer(10)));
}

#[test]
fn breached_when_criteria_fail() {
    let mut c = Contract::new(Value::str("sum to 10"), is_ten);
    c.accept();
    let err = c.deliver(Value::integer(9)).unwrap_err();
    assert!(matches!(err, AgentError::Negotiation(_)));
    assert_eq!(c.status(), ContractStatus::Breached);
    assert_eq!(c.delivered(), None);
    assert_eq!(err.to_string(), "negotiation failed: delivered output failed acceptance criteria");
}

#[test]
fn counter_then_reject() {
    let mut c = Contract::new(Value::str("x"), |_| true);
    c.counter(Value::str("y"));
    assert_eq!(c.status(), ContractStatus::CounterOffered);
    assert_eq!(c.offer, Value::str("y"));
    c.reject();
    assert_eq!(c.status(), ContractStatus::Rejected);
}

#[test]
fn renegotiate_reopens() {
    let mut c = Contract::new(Value::str("x"), |_| true);
    assert_eq!(c.status(), ContractStatus::Proposed);
    c.accept();
    c.renegotiate();
    assert_eq!(c.status(), ContractStatus::Renegotiating);
}

#[test]
fn settle_decides_by_verdict() {
    let mut c = Contract::new(Value::str("x"), |_| false);
    assert!(c.settle(Value::integer(1), true).is_ok());
    assert_eq!(c.status(), ContractStatus::Fulfilled);
    let mut d = Contract::new(Value::str("x"), |_| true);
    assert!(d.settle(Value::integer(1), false).is_err());
    assert_eq!(d.status(), ContractStatus::Breached);
}

#[test]
fn fulfilled_in_one_round() {
    let c = Contract::new(Value::str("compute 10"), is_ten);
    let mut neg = Negotiation::new(c, 3);
    let out = neg.run(|_r, _o| ProviderAction::Accept(Value::integer(10))).unwrap();
    match out {
        NegotiationOutcome::Fulfilled(v) => assert_eq!(v, Value::integer(10)),
        _ => panic!("expected fulfilled"),
    }
}

#[test]
fn rejected_when_provider_errors() {
    let c = Contract::new(Value::str("x"), |_| true);
    let mut neg = Negotiation::new(c, 3);
    let out = neg.run(|_r, _o| ProviderAction::Reject("nope".into())).unwrap();
    assert!(matches!(out, NegotiationOutcome::Rejected(_)));
    assert_eq!(neg.status(), ContractStatus::Rejected);
}

#[test]
fn breached_when_output_fails_criteria() {
    let c = Contract::new(Value::str("compute 10"), is_ten);
    let mut neg = Negotiation::new(c, 3);
    let out = neg.run(|_r, _o| ProviderAction::Accept(Value::integer(9))).unwrap();
    assert!(matches!(out, NegotiationOutcome::Breached(_)));
    if let NegotiationOutcome::Breached(msg) = out {
        assert_eq!(msg, "negotiation failed: delivered output failed acceptance criteria");
    }
}

#[test]
fn counter_then_accept() {
    let c = Contract::new(Value::str("compute 10"), is_ten);
    let mut neg = Negotiation::new(c, 3);
    let out = neg
        .run(|r, _o| {
            if r == 0 {
                ProviderAction::Counter(Value::str("I can do 10"))
            } else {
                ProviderAction::Accept(Value::integer(10))
            }
        })
        .unwrap();
    assert!(matches!(out, NegotiationOutcome::Fulfilled(_)));
}

#[test]
fn deadlocks_when_cap_hit() {
    let c = Contract::new(Value::str("x"), |_| true);
    let mut neg = Negotiation::new(c, 2);
    let out = neg.run(|_r, _o| ProviderAction::Counter(Value::str("again"))).unwrap();
    assert!(matches!(out, NegotiationOutcome::Deadlocked));
    assert_eq!(neg.status(), ContractStatus::CounterOffered);
}

#[test]
fn provider_sees_request_then_last_offer() {
    let c = Contract::new(Value::str("req"), |_| true);
    let mut neg = Negotiation::new(c, 3);
    let mut seen: Vec<(u32, Value)> = Vec::new();
    let _ = neg
        .run(|r, o| {
            seen.push((r, o.clone()));
            if r == 0 {
                ProviderAction::Counter(Value::str("offer-1"))
            } else {
                ProviderAction::Reject("done".into())
            }
        })
        .unwrap();
    assert_eq!(seen, vec![(0, Value::str("req")), (1, Value::str("offer-1"))]);
}

#[test]
fn zero_rounds_deadlock_at_once() {
    let c = Contract::new(Value::str("x"), |_| true);
    let mut neg = Negotiation::new(c, 0);
    let out = neg.run(|_r, _o| panic!("provider must not be called")).unwrap();
    assert!(matches!(out, NegotiationOutcome::Deadlocked));
    assert_eq!(neg.status(), ContractStatus::Proposed);
}

#[test]
fn one_shot_delivers() {
    let c = Contract::new(Value::str("x"), |v| matches!(v, Value::Bool(true)));
    match one_shot(c, Value::bool(true)).unwrap() {
        NegotiationOutcome::Fulfilled(v) => assert_eq!(v, Value::bool(true)),
        _ => panic!("expected fulfilled"),
    }
    let c = Contract::new(Value::str("x"), |v| matches!(v, Value::Bool(true)));
    assert!(matches!(one_shot(c, Value::bool(false)).unwrap(), NegotiationOutcome::Breached(_)));
}

#[test]
fn deadlock_error_message() {
    let e = deadlock_error();
    assert_eq!(e.to_string(), "negotiation failed: negotiation deadlocked");
}

#[test]
fn trivial_goal_always_aligned() {
    let mut g = Goal::trivial();
    let r = g.check(&Value::null(), &Value::str("anything"));
    assert_eq!(r.status, GoalStatus::Aligned);
    assert_eq!(r.note, "no constraint");
    assert!(g.is_satisfied(&Value::null(), &Value::null()));
    assert_eq!(g.drift_count(), 0);
}

fn sum_of(snap: &Value) -> Option<i64> {
    if let Value::Object(fields) = snap {
        for (k, v) in fields {
            if k == "sum" {
                if let Value::Int(i) = v {
                    return Some(*i);
                }
                return None;
            }
        }
    }
    None
}

#[test]
fn drift_detected() {
    let mut g = Goal::new(
        "sum must be positive",
        |snap, _| sum_of(snap).map(|i| i > 0).unwrap_or(false),
        |_snap, output| {
            if matches!(output, Value::Int(i) if *i < 0) {
                GoalReport { status: GoalStatus::Violated, note: "negative".into() }
            } else {
                GoalReport { status: GoalStatus::Aligned, note: "ok".into() }
            }
        },
    );
    let snap = Value::obj(vec![("sum", Value::integer(5))]);
    assert_eq!(g.check(&snap, &Value::integer(-1)).status, GoalStatus::Violated);
    assert_eq!(g.drift_count(), 1);
    assert!(g.is_satisfied(&snap, &Value::null()));
}

#[test]
fn drift_counts_only_off_course_reports() {
    let mut g = Goal::trivial();
    g.tally(GoalReport { status: GoalStatus::Drifting, note: "a".into() });
    g.tally(GoalReport { status: GoalStatus::Aligned, note: "b".into() });
    g.tally(GoalReport { status: GoalStatus::Violated, note: "c".into() });
    assert_eq!(g.drift_count(), 2);
    assert_eq!(Goal::violated_interrupt_kind(), InterruptKind::GoalDrift);
}

#[test]
fn uncertain_threshold() {
    assert!(Confidence::low().is_uncertain());
    assert!(!Confidence::high().is_uncertain());
    assert!(!Confidence::medium().is_uncertain());
}

#[test]
fn uncertain_threshold_edges() {
    assert!(Confidence(0.3999f64.to_bits()).is_uncertain());
    assert!(!Confidence(0.4f64.to_bits()).is_uncertain());
    assert!(Confidence((-0.0f64).to_bits()).is_uncertain());
    assert!(Confidence((-5.0f64).to_bits()).is_uncertain());
    assert!(!Confidence(f64::NAN.to_bits()).is_uncertain());
    assert!(!Confidence((-f64::NAN).to_bits()).is_uncertain());
    assert_eq!(Confidence::high().0, 0.9f64.to_bits());
    assert_eq!(Confidence::medium().0, 0.5f64.to_bits());
    assert_eq!(Confidence::low().0, 0.1f64.to_bits());
}

#[test]
fn negative_signals() {
    let s = SpanId::new();
    let a = AgentId::new();
    assert!(MetaSignal::Stop(s, a, "x".into()).is_negative());
    assert!(!MetaSignal::Confidence(s, a, Confidence::high()).is_negative());
    assert!(MetaSignal::Confidence(s, a, Confidence::low()).is_negative());
    assert!(MetaSignal::WrongAgent(s, a, "y".into()).is_negative());
    let esc = EscalationSignal { span: s, agent: a, reason: "r".into(), suggest: "human".into() };
    assert!(MetaSignal::Escalate(esc).is_negative());
}

#[test]
fn agent_outputs() {
    let d = AgentOutput::done(Value::integer(1));
    assert_eq!(d.status, AgentStatus::Done);
    assert_eq!(d.confidence.0, Confidence::high().0);
    assert!(d.message.is_none());
    let w = AgentOutput::done_with(Value::integer(2), Confidence::medium());
    assert_eq!(w.confidence.0, Confidence::medium().0);
    let e = AgentOutput::escalate("too hard");
    assert_eq!(e.status, AgentStatus::Escalate);
    assert!(e.value.is_null());
    assert_eq!(e.message.as_deref(), Some("too hard"));
    assert!(e.confidence.is_uncertain());
}

#[test]
fn zero_round_cap_never_asks_the_provider() {
    let c = Contract::new(Value::str("x"), |_| true);
    let mut neg = Negotiation::new(c, 0);
    let mut calls = 0u32;
    let out = neg
        .run(|_r, _o| {
            calls += 1;
            ProviderAction::Accept(Value::integer(1))
        })
        .unwrap();
    assert!(matches!(out, NegotiationOutcome::Deadlocked));
    assert_eq!(calls, 0);
    assert_eq!(neg.status(), ContractStatus::Proposed);
}
