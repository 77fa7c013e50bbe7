//! `agent_stack`: an agent orchestration framework built in layers: graph and
//! loops, a shared blackboard, causal memory, trust propagation, goals,
//! meta-cognition, budgets, interrupts, negotiation, replay, input
//! validation, memory decay and human review.

pub mod value;
pub mod str_map;
mod id_map;
pub mod id;
pub mod text;
pub mod error;
pub mod policy;
pub mod blackboard;
pub mod loop_spec;
pub mod trust;
pub mod graph;
pub mod budget;
pub mod clock;
pub mod causal;
pub mod interrupt;
pub mod contract;
pub mod negotiation;
pub mod goal;
pub mod validate;
pub mod meta;
pub mod agent;
pub mod memory;
pub mod trace_store;
pub mod human;
pub mod record;
pub mod executor;
pub mod run_control;
pub mod mock_agent;
pub mod graph_spec;
pub mod llm_agent;
