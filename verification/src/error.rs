//! Errors and the `Interrupt` family.
//!
//! `AgentError` is the framework's general error type. `Interrupt` is the
//! structured failure that stops the normal flow of a graph and carries the
//! context of why and where it stopped.

use crate::id::{NodeId, SpanId};
use serde_json::Value as JsonValue;
use vstd::prelude::*;
use vstd::string::StringExecFns;

verus! {

#[verifier::external_type_specification]
#[verifier::external_body]
pub struct ExJsonValue(JsonValue);

#[verifier::external_type_specification]
#[verifier::external_body]
pub struct ExJsonError(serde_json::Error);

#[verifier::external_type_specification]
#[verifier::external_body]
pub struct ExIoError(std::io::Error);

/// Calls the `serde_json::Value::Null` constructor. The value is opaque here,
/// so nothing is stated of it.
#[verifier::external_body]
pub(crate) fn json_null() -> JsonValue {
    JsonValue::Null
}

/// Calls `<serde_json::Value as Clone>::clone`, which (derived) copies the
/// value field by field: the copy is the same value.
#[verifier::external_body]
pub(crate) fn json_clone(j: &JsonValue) -> (r: JsonValue)
    ensures
        r == *j,
{
    j.clone()
}

/// The text of an I/O error: formats `std::io::Error` through its `Display`
/// impl. The text depends on the operating system, so nothing is stated of it.
#[verifier::external_body]
fn io_error_text(e: &std::io::Error) -> String {
    format!("{}", e)
}

/// The text of a JSON error: formats `serde_json::Error` through its
/// `Display` impl. The error is opaque here, so nothing is stated of the text.
#[verifier::external_body]
fn json_error_text(e: &serde_json::Error) -> String {
    format!("{}", e)
}

/// Kinds of structured interrupts: the categories of things that stop the
/// normal flow rather than being retried locally.
#[derive(Clone, Copy, Debug, PartialEq, Eq, Structural)]
pub enum InterruptKind {
    /// A node exceeded its budget and cannot continue.
    BudgetExhausted,
    /// A trust/policy violation occurred mid-flow.
    TrustViolation,
    /// A human rejected the work.
    HumanRejected,
    /// An agent signalled it is operating past its competence.
    Escalation,
    /// Input validation at a boundary failed.
    BadInput,
    /// A goal-invariant check failed.
    GoalDrift,
    /// An explicit abort was requested.
    Abort,
    /// An internal failure.
    Internal,
}

/// The name of a kind, as its `Debug` output spells it.
pub open spec fn kind_name(k: InterruptKind) -> Seq<char> {
    match k {
        InterruptKind::BudgetExhausted => "BudgetExhausted"@,
        InterruptKind::TrustViolation => "TrustViolation"@,
        InterruptKind::HumanRejected => "HumanRejected"@,
        InterruptKind::Escalation => "Escalation"@,
        InterruptKind::BadInput => "BadInput"@,
        InterruptKind::GoalDrift => "GoalDrift"@,
        InterruptKind::Abort => "Abort"@,
        InterruptKind::Internal => "Internal"@,
    }
}

impl InterruptKind {
    /// The kind's name, as its `Debug` output spells it.
    pub fn name(&self) -> (r: String)
        ensures
            r@ == kind_name(*self),
    {
        match self {
            InterruptKind::BudgetExhausted => String::from_str("BudgetExhausted"),
            InterruptKind::TrustViolation => String::from_str("TrustViolation"),
            InterruptKind::HumanRejected => String::from_str("HumanRejected"),
            InterruptKind::Escalation => String::from_str("Escalation"),
            InterruptKind::BadInput => String::from_str("BadInput"),
            InterruptKind::GoalDrift => String::from_str("GoalDrift"),
            InterruptKind::Abort => String::from_str("Abort"),
            InterruptKind::Internal => String::from_str("Internal"),
        }
    }
}

/// General framework error.
#[derive(Debug)]
pub enum AgentError {
    Graph(String),
    Blackboard(String),
    Budget(String),
    Trust(String),
    Validation(String),
    Interrupt { kind: InterruptKind, reason: String },
    Io(std::io::Error),
    Json(serde_json::Error),
    Negotiation(String),
    HumanRejected(String),
    Other(String),
}

/// The message of an error whose text the library writes itself (every
/// variant but `Io` and `Json`).
pub open spec fn error_message(e: AgentError) -> Seq<char> {
    match e {
        AgentError::Graph(s) => "graph error: "@ + s@,
        AgentError::Blackboard(s) => "blackboard error: "@ + s@,
        AgentError::Budget(s) => "budget exhausted: "@ + s@,
        AgentError::Trust(s) => "trust violation: "@ + s@,
        AgentError::Validation(s) => "validation error: "@ + s@,
        AgentError::Interrupt { kind, reason } => "interrupt: "@ + kind_name(kind) + " ("@
            + reason@ + ")"@,
        AgentError::Negotiation(s) => "negotiation failed: "@ + s@,
        AgentError::HumanRejected(s) => "human review rejected: "@ + s@,
        AgentError::Other(s) => "other: "@ + s@,
        _ => Seq::empty(),
    }
}

fn prefixed(prefix: &str, s: &String) -> (r: String)
    ensures
        r@ == prefix@ + s@,
{
    let mut out = String::from_str(prefix);
    out.append(s.as_str());
    out
}

impl AgentError {
    /// The error's message: its variant's prefix followed by the detail.
    pub fn to_string(&self) -> (r: String)
        ensures
            !(self is Io) && !(self is Json) ==> r@ == error_message(*self),
    {
        match self {
            AgentError::Graph(s) => prefixed("graph error: ", s),
            AgentError::Blackboard(s) => prefixed("blackboard error: ", s),
            AgentError::Budget(s) => prefixed("budget exhausted: ", s),
            AgentError::Trust(s) => prefixed("trust violation: ", s),
            AgentError::Validation(s) => prefixed("validation error: ", s),
            AgentError::Interrupt { kind, reason } => {
                let mut out = String::from_str("interrupt: ");
                let name = kind.name();
                out.append(name.as_str());
                out.append(" (");
                out.append(reason.as_str());
                out.append(")");
                out
            },
            AgentError::Io(e) => {
                let t = io_error_text(e);
                prefixed("io error: ", &t)
            },
            AgentError::Json(e) => {
                let t = json_error_text(e);
                prefixed("json error: ", &t)
            },
            AgentError::Negotiation(s) => prefixed("negotiation failed: ", s),
            AgentError::HumanRejected(s) => prefixed("human review rejected: ", s),
            AgentError::Other(s) => prefixed("other: ", s),
        }
    }
}

/// A structured interrupt: what stopped the flow, where, and why.
#[derive(Debug)]
pub struct Interrupt {
    pub kind: InterruptKind,
    pub reason: String,
    /// The node that raised the interrupt, if known.
    pub node: Option<NodeId>,
    /// The causal span that was active when the interrupt fired.
    pub span: Option<SpanId>,
    /// Arbitrary structured context (state read, decision made, ...).
    pub context: JsonValue,
}

impl Clone for Interrupt {
    fn clone(&self) -> (r: Self)
        ensures
            r == *self,
    {
        Interrupt {
            kind: self.kind,
            reason: self.reason.clone(),
            node: self.node,
            span: self.span,
            context: json_clone(&self.context),
        }
    }
}

impl Interrupt {
    pub fn new(kind: InterruptKind, reason: &str) -> (r: Self)
        ensures
            r.kind == kind,
            r.reason@ == reason@,
            r.node is None,
            r.span is None,
    {
        Interrupt {
            kind,
            reason: String::from_str(reason),
            node: None,
            span: None,
            context: json_null(),
        }
    }

    pub fn with_node(self, n: NodeId) -> (r: Self)
        ensures
            r == (Interrupt { node: Some(n), ..self }),
    {
        Interrupt { node: Some(n), ..self }
    }

    pub fn with_span(self, s: SpanId) -> (r: Self)
        ensures
            r == (Interrupt { span: Some(s), ..self }),
    {
        Interrupt { span: Some(s), ..self }
    }

    pub fn with_context(self, ctx: JsonValue) -> (r: Self)
        ensures
            r == (Interrupt { context: ctx, ..self }),
    {
        Interrupt { context: ctx, ..self }
    }

    /// `kind: reason`, the interrupt's display text.
    pub fn to_string(&self) -> (r: String)
        ensures
            r@ == kind_name(self.kind) + ": "@ + self.reason@,
    {
        let mut out = self.kind.name();
        out.append(": ");
        out.append(self.reason.as_str());
        out
    }
}

impl From<Interrupt> for AgentError {
    fn from(i: Interrupt) -> (r: AgentError) {
        AgentError::Interrupt { kind: i.kind, reason: i.reason }
    }
}

impl vstd::std_specs::convert::FromSpecImpl<Interrupt> for AgentError {
    open spec fn obeys_from_spec() -> bool {
        true
    }

    open spec fn from_spec(i: Interrupt) -> AgentError {
        AgentError::Interrupt { kind: i.kind, reason: i.reason }
    }
}

/// Convenience result alias used throughout the framework.
pub type AgentResult<T> = Result<T, AgentError>;

} // verus!
