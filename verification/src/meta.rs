//! Meta-cognition: signals agents emit about their own work.
//!
//! Agents report how confident they are, that they are the wrong agent for
//! an input, that they want to escalate, or that they want to stop. The
//! graph routes on these signals instead of running confidently into
//! garbage.

use crate::id::{AgentId, SpanId};
use vstd::prelude::*;

verus! {

/// A confidence score in `[0.0, 1.0]`, held as the IEEE-754 bit pattern of
/// the `f64` score, so that scores are compared exactly.
#[derive(Clone, Copy, Debug)]
pub struct Confidence(pub u64);

/// The bit pattern of `0.4`, the score below which an agent is uncertain.
pub const UNCERTAIN_THRESHOLD_BITS: u64 = 0x3FD9_9999_9999_999A;

/// The bit pattern of `0.9`.
pub const HIGH_BITS: u64 = 0x3FEC_CCCC_CCCC_CCCD;

/// The bit pattern of `0.5`.
pub const MEDIUM_BITS: u64 = 0x3FE0_0000_0000_0000;

/// The bit pattern of `0.1`.
pub const LOW_BITS: u64 = 0x3FB9_9999_9999_999A;

/// The bits encode a NaN: all exponent bits set and a non-zero fraction.
pub open spec fn is_nan_bits(b: u64) -> bool {
    b & 0x7FF0_0000_0000_0000u64 == 0x7FF0_0000_0000_0000u64 && b & 0x000F_FFFF_FFFF_FFFFu64 != 0
}

/// The `f64` with bits `b` compares below `0.4`: it is no NaN, and it is
/// negative (sign bit set, zero included) or a positive number whose bits,
/// which order positive floats as their values, are below those of `0.4`.
pub open spec fn below_threshold(b: u64) -> bool {
    !is_nan_bits(b) && (b >= 0x8000_0000_0000_0000u64 || b < UNCERTAIN_THRESHOLD_BITS)
}

impl Confidence {
    /// `0.9`.
    pub fn high() -> (r: Self)
        ensures
            r.0 == HIGH_BITS,
    {
        Confidence(HIGH_BITS)
    }

    /// `0.5`.
    pub fn medium() -> (r: Self)
        ensures
            r.0 == MEDIUM_BITS,
    {
        Confidence(MEDIUM_BITS)
    }

    /// `0.1`.
    pub fn low() -> (r: Self)
        ensures
            r.0 == LOW_BITS,
    {
        Confidence(LOW_BITS)
    }

    /// Is the score below `0.4`?
    pub fn is_uncertain(&self) -> (r: bool)
        ensures
            r == below_threshold(self.0),
    {
        let b = self.0;
        let nan = b & 0x7FF0_0000_0000_0000u64 == 0x7FF0_0000_0000_0000u64 && b & 0x000F_FFFF_FFFF_FFFFu64 != 0;
        !nan && (b >= 0x8000_0000_0000_0000u64 || b < UNCERTAIN_THRESHOLD_BITS)
    }
}

/// An escalation request.
#[derive(Debug)]
pub struct EscalationSignal {
    pub span: SpanId,
    pub agent: AgentId,
    pub reason: String,
    /// Suggested next step: a node label or "human".
    pub suggest: String,
}

impl Clone for EscalationSignal {
    fn clone(&self) -> (r: Self)
        ensures
            r == *self,
    {
        EscalationSignal {
            span: self.span,
            agent: self.agent,
            reason: self.reason.clone(),
            suggest: self.suggest.clone(),
        }
    }
}

/// A meta-cognitive signal emitted by an agent.
#[derive(Debug)]
pub enum MetaSignal {
    /// Confidence in the last output.
    Confidence(SpanId, AgentId, Confidence),
    /// The agent believes it is the wrong agent for this input.
    WrongAgent(SpanId, AgentId, String),
    /// The agent wants to escalate to a stronger agent or a human.
    Escalate(EscalationSignal),
    /// The agent wants to stop the loop or the run.
    Stop(SpanId, AgentId, String),
}

impl Clone for MetaSignal {
    fn clone(&self) -> (r: Self)
        ensures
            r == *self,
    {
        match self {
            MetaSignal::Confidence(s, a, c) => MetaSignal::Confidence(*s, *a, *c),
            MetaSignal::WrongAgent(s, a, m) => MetaSignal::WrongAgent(*s, *a, m.clone()),
            MetaSignal::Escalate(e) => MetaSignal::Escalate(e.clone()),
            MetaSignal::Stop(s, a, m) => MetaSignal::Stop(*s, *a, m.clone()),
        }
    }
}

/// A signal is negative when it reports an uncertain score, or is any
/// other kind of signal.
pub open spec fn negative(s: MetaSignal) -> bool {
    match s {
        MetaSignal::Confidence(_, _, c) => below_threshold(c.0),
        _ => true,
    }
}

impl MetaSignal {
    /// Does this signal say the agent is uncertain or failing?
    pub fn is_negative(&self) -> (r: bool)
        ensures
            r == negative(*self),
    {
        match self {
            MetaSignal::Confidence(_, _, c) => c.is_uncertain(),
            MetaSignal::WrongAgent(_, _, _) => true,
            MetaSignal::Escalate(_) => true,
            MetaSignal::Stop(_, _, _) => true,
        }
    }
}

} // verus!
