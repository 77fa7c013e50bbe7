//! Human review as a node type.
//!
//! A human node has the same contract as any other node: it produces a
//! `Value`, can time out, can escalate, and hands back into the graph. This
//! module holds the structured handoff, the human's decision, and the
//! decisions the stock review handlers make.

use crate::error::{AgentError, AgentResult};
use crate::value::{Value, ValueView};
use std::time::Duration;
use vstd::prelude::*;
use vstd::string::StringExecFns;

verus! {

/// What kind of review is requested.
#[derive(Clone, Copy, Debug, PartialEq, Eq, Structural)]
pub enum ReviewKind {
    /// Approve or reject a proposed action.
    Approve,
    /// Choose between options.
    Choose,
    /// Free-form input.
    Freeform,
    /// Senior review required.
    Senior,
}

/// A structured handoff describing what the human is being asked.
#[derive(Debug)]
pub struct HumanHandoff {
    /// What kind of review is requested.
    pub kind: ReviewKind,
    /// The input the human should look at.
    pub input: Value,
    /// A human-readable prompt.
    pub prompt: String,
    /// How long to wait before escalating.
    pub timeout: Duration,
}

impl Clone for HumanHandoff {
    fn clone(&self) -> (r: Self)
        ensures
            r.kind == self.kind,
            r.input@ == self.input@,
            r.prompt@ == self.prompt@,
            r.timeout == self.timeout,
    {
        HumanHandoff {
            kind: self.kind,
            input: self.input.clone(),
            prompt: self.prompt.clone(),
            timeout: self.timeout,
        }
    }
}

/// The human's decision.
#[derive(Debug)]
pub enum HumanDecision {
    Approved(Value),
    Rejected(String),
    /// No answer in time; escalate.
    TimedOut,
}

impl Clone for HumanDecision {
    fn clone(&self) -> (r: Self)
        ensures
            match (r, *self) {
                (HumanDecision::Approved(a), HumanDecision::Approved(b)) => a@ == b@,
                (HumanDecision::Rejected(a), HumanDecision::Rejected(b)) => a@ == b@,
                (HumanDecision::TimedOut, HumanDecision::TimedOut) => true,
                _ => false,
            },
    {
        match self {
            HumanDecision::Approved(v) => HumanDecision::Approved(v.clone()),
            HumanDecision::Rejected(s) => HumanDecision::Rejected(s.clone()),
            HumanDecision::TimedOut => HumanDecision::TimedOut,
        }
    }
}

/// `r` is a human rejection with message `m`.
pub open spec fn is_rejection(r: AgentResult<Value>, m: Seq<char>) -> bool {
    r matches Err(AgentError::HumanRejected(e)) && e@ == m
}

impl HumanDecision {
    /// The approved value, or the rejection as an error.
    pub fn into_result(self) -> (r: AgentResult<Value>)
        ensures
            match self {
                HumanDecision::Approved(v) => r == Ok::<Value, AgentError>(v),
                HumanDecision::Rejected(reason) => is_rejection(r, reason@),
                HumanDecision::TimedOut => is_rejection(r, "human review timed out"@),
            },
    {
        match self {
            HumanDecision::Approved(v) => Ok(v),
            HumanDecision::Rejected(reason) => Err(AgentError::HumanRejected(reason)),
            HumanDecision::TimedOut => Err(AgentError::HumanRejected(String::from_str("human review timed out"))),
        }
    }
}

/// The review that approves its input unchanged.
pub fn approve_input(input: &Value) -> (r: AgentResult<Value>)
    ensures
        r matches Ok(v) && v@ == input@,
{
    Ok(input.clone())
}

/// The review that always rejects, with the given reason.
pub fn reject_with(reason: &str) -> (r: AgentResult<Value>)
    ensures
        is_rejection(r, reason@),
{
    Err(AgentError::HumanRejected(String::from_str(reason)))
}

/// The position of the first field named `choice`, if any.
pub open spec fn choice_field(fields: Seq<(Seq<char>, ValueView)>, n: int) -> Option<int>
    decreases n,
{
    if n <= 0 || n > fields.len() {
        None
    } else {
        match choice_field(fields, n - 1) {
            Some(i) => Some(i),
            None => if fields[n - 1].0 == "choice"@ {
                Some(n - 1)
            } else {
                None
            },
        }
    }
}

/// The option a choice input picks: the input is an object whose first
/// `choice` field holds an integer index into the options.
pub open spec fn picked(options: Seq<ValueView>, input: ValueView) -> Option<ValueView> {
    match input {
        ValueView::Object(fields) => match choice_field(fields, fields.len() as int) {
            Some(i) => match fields[i].1 {
                ValueView::Int(idx) => if 0 <= idx < options.len() {
                    Some(options[idx as int])
                } else {
                    None
                },
                _ => None,
            },
            None => None,
        },
        _ => None,
    }
}

proof fn lemma_choice_field_stays(fields: Seq<(Seq<char>, ValueView)>, a: int, b: int)
    requires
        0 < a <= b <= fields.len(),
        choice_field(fields, a) is Some,
    ensures
        choice_field(fields, b) == choice_field(fields, a),
    decreases b - a,
{
    if a < b {
        lemma_choice_field_stays(fields, a, b - 1);
    }
}

/// The review that picks one of `options` by the index in the input's
/// `choice` field; an input that picks none is rejected as an invalid
/// choice.
pub fn choose_option(options: &Vec<Value>, input: &Value) -> (r: AgentResult<Value>)
    ensures
        match picked(Seq::new(options@.len(), |i: int| options@[i]@), input@) {
            Some(v) => r matches Ok(x) && x@ == v,
            None => is_rejection(r, "invalid choice"@),
        },
{
    let ghost opts = Seq::new(options@.len(), |i: int| options@[i]@);
    match input {
        Value::Object(fields) => {
            proof {
                crate::value::lemma_object_view(*fields);
            }
            let ghost fv = crate::value::field_views(fields@);
            let key = String::from_str("choice");
            let mut i: usize = 0;
            while i < fields.len()
                invariant
                    i <= fields@.len(),
                    fv == crate::value::field_views(fields@),
                    key@ == "choice"@,
                    input@ == ValueView::Object(fv),
                    opts == Seq::new(options@.len(), |i: int| options@[i]@),
                    choice_field(fv, i as int) is None,
                decreases fields.len() - i,
            {
                if fields[i].0 == key {
                    proof {
                        assert(choice_field(fv, i + 1) == Some(i as int));
                        lemma_choice_field_stays(fv, i + 1, fv.len() as int);
                    }
                    match &fields[i].1 {
                        Value::Int(idx) => {
                            if *idx >= 0 && (*idx as u64) < (options.len() as u64) {
                                return Ok(options[*idx as usize].clone());
                            }
                        },
                        _ => {},
                    }
                    return Err(AgentError::HumanRejected(String::from_str("invalid choice")));
                }
                i = i + 1;
            }
            Err(AgentError::HumanRejected(String::from_str("invalid choice")))
        },
        _ => Err(AgentError::HumanRejected(String::from_str("invalid choice"))),
    }
}

} // verus!
