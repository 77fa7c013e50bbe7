//! What an agent produces.
//!
//! An agent is anything that, given a context, produces an output: the
//! value, its confidence in it, and a lifecycle status the runtime routes on.

use crate::meta::{Confidence, HIGH_BITS, LOW_BITS};
use crate::value::{Value, ValueView};
use vstd::prelude::*;
use vstd::string::StringExecFns;

verus! {

/// Lifecycle status of a single agent invocation.
#[derive(Clone, Copy, Debug, PartialEq, Eq, Structural)]
pub enum AgentStatus {
    /// Completed successfully.
    Done,
    /// The agent believes it is past its competence and wants escalation.
    Escalate,
    /// The agent wants to renegotiate its contract.
    Renegotiate,
    /// The agent produced a partial result under budget pressure.
    Degraded,
}

/// What an agent produced, plus signals the runtime routes on.
#[derive(Debug)]
pub struct AgentOutput {
    /// The primary result (written to the blackboard by the runtime).
    pub value: Value,
    /// How confident the agent is in this output.
    pub confidence: Confidence,
    /// Lifecycle status.
    pub status: AgentStatus,
    /// Optional message for the trace and logs.
    pub message: Option<String>,
}

impl Clone for AgentOutput {
    fn clone(&self) -> (r: Self)
        ensures
            r.value@ == self.value@,
            r.confidence == self.confidence,
            r.status == self.status,
            r.message == self.message,
    {
        AgentOutput {
            value: self.value.clone(),
            confidence: self.confidence,
            status: self.status,
            message: match &self.message {
                Some(m) => Some(m.clone()),
                None => None,
            },
        }
    }
}

impl AgentOutput {
    /// A finished output with high confidence.
    pub fn done(value: Value) -> (r: Self)
        ensures
            r.value == value,
            r.confidence.0 == HIGH_BITS,
            r.status == AgentStatus::Done,
            r.message is None,
    {
        AgentOutput { value, confidence: Confidence::high(), status: AgentStatus::Done, message: None }
    }

    /// A finished output with the given confidence.
    pub fn done_with(value: Value, conf: Confidence) -> (r: Self)
        ensures
            r.value == value,
            r.confidence == conf,
            r.status == AgentStatus::Done,
            r.message is None,
    {
        AgentOutput { value, confidence: conf, status: AgentStatus::Done, message: None }
    }

    /// A request to escalate, with low confidence and the reason as message.
    pub fn escalate(reason: &str) -> (r: Self)
        ensures
            r.value@ == ValueView::Null,
            r.confidence.0 == LOW_BITS,
            r.status == AgentStatus::Escalate,
            r.message matches Some(m) && m@ == reason@,
    {
        AgentOutput {
            value: Value::null(),
            confidence: Confidence::low(),
            status: AgentStatus::Escalate,
            message: Some(String::from_str(reason)),
        }
    }
}

} // verus!
