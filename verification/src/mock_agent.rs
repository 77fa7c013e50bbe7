//! Built-in agents that work the blackboard.
//!
//! A `BlackboardReader` returns the value of one slot; a `BlackboardWriter`
//! writes a fixed value to one slot and returns it.

use crate::id::AgentId;
use crate::value::Value;
use vstd::prelude::*;
use vstd::string::StringExecFns;

verus! {

/// An agent that reads a blackboard slot and returns its value.
pub struct BlackboardReader {
    pub id: AgentId,
    pub name: String,
    pub slot: String,
}

impl BlackboardReader {
    pub fn new(name: &str, slot: &str) -> (r: Self)
        ensures
            r.name@ == name@,
            r.slot@ == slot@,
    {
        BlackboardReader { id: AgentId::new(), name: String::from_str(name), slot: String::from_str(slot) }
    }
}

/// An agent that writes a fixed value to a blackboard slot and returns it.
pub struct BlackboardWriter {
    pub id: AgentId,
    pub name: String,
    pub slot: String,
    pub value: Value,
}

impl BlackboardWriter {
    pub fn new(name: &str, slot: &str, value: Value) -> (r: Self)
        ensures
            r.name@ == name@,
            r.slot@ == slot@,
            r.value == value,
    {
        BlackboardWriter {
            id: AgentId::new(),
            name: String::from_str(name),
            slot: String::from_str(slot),
            value,
        }
    }
}

} // verus!
