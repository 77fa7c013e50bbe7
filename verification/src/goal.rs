//! The goal (intent) model.
//!
//! A `Goal` travels with a run as an invariant: every node's output is
//! checked against caller-supplied predicates, and each check that finds the
//! output off course (drifting or violated) is counted.

use crate::error::InterruptKind;
use crate::value::Value;
use vstd::prelude::*;
use vstd::string::StringExecFns;

verus! {

/// Alignment of an output to the goal.
#[derive(Clone, Copy, Debug, PartialEq, Eq, Structural)]
pub enum GoalStatus {
    /// Output still aligned with the goal.
    Aligned,
    /// Output drifted but is recoverable.
    Drifting,
    /// Output no longer serves the goal.
    Violated,
}

/// The result of checking an output against the goal.
#[derive(Debug)]
pub struct GoalReport {
    pub status: GoalStatus,
    pub note: String,
}

impl Clone for GoalReport {
    fn clone(&self) -> (r: Self)
        ensures
            r == *self,
    {
        GoalReport { status: self.status, note: self.note.clone() }
    }
}

/// The caller's satisfaction predicate over (blackboard snapshot, output).
#[verifier::external_body]
pub struct Satisfaction {
    f: Box<dyn Fn(&Value, &Value) -> bool + Send + Sync>,
}

impl Satisfaction {
    /// Boxes the caller's predicate. Nothing is stated of it.
    #[verifier::external_body]
    pub(crate) fn new<F: Fn(&Value, &Value) -> bool + Send + Sync + 'static>(f: F) -> Satisfaction {
        Satisfaction { f: Box::new(f) }
    }

    /// Calls the caller's predicate. What it returns is the caller's code,
    /// so nothing is stated of it.
    #[verifier::external_body]
    pub(crate) fn eval(&self, snapshot: &Value, output: &Value) -> bool {
        (self.f)(snapshot, output)
    }
}

/// The caller's alignment check over (blackboard snapshot, output).
#[verifier::external_body]
pub struct Alignment {
    f: Box<dyn Fn(&Value, &Value) -> GoalReport + Send + Sync>,
}

impl Alignment {
    /// Boxes the caller's check. Nothing is stated of it.
    #[verifier::external_body]
    pub(crate) fn new<F: Fn(&Value, &Value) -> GoalReport + Send + Sync + 'static>(f: F) -> Alignment {
        Alignment { f: Box::new(f) }
    }

    /// Calls the caller's check. What it returns is the caller's code, so
    /// nothing is stated of it.
    #[verifier::external_body]
    pub(crate) fn eval(&self, snapshot: &Value, output: &Value) -> GoalReport {
        (self.f)(snapshot, output)
    }
}

/// How a goal judges outputs.
pub enum Criteria {
    /// No constraint: always satisfied and aligned.
    Unconstrained,
    /// The caller's predicates.
    Custom { satisfied: Satisfaction, aligned: Alignment },
}

/// The goal invariant.
pub struct Goal {
    /// Human-readable statement of intent. Travels with the run.
    pub statement: String,
    criteria: Criteria,
    drift_count: u32,
}

/// The note the unconstrained goal reports with.
pub open spec fn unconstrained_note() -> Seq<char> {
    "no constraint"@
}

impl Goal {
    pub closed spec fn drifts(&self) -> u32 {
        self.drift_count
    }

    /// The statement of intent.
    pub closed spec fn intent(&self) -> Seq<char> {
        self.statement@
    }

    pub closed spec fn is_unconstrained(&self) -> bool {
        self.criteria is Unconstrained
    }

    pub fn new<S, A>(statement: &str, satisfied: S, aligned: A) -> (r: Self)
        where
            S: Fn(&Value, &Value) -> bool + Send + Sync + 'static,
            A: Fn(&Value, &Value) -> GoalReport + Send + Sync + 'static,
        ensures
            r.intent() == statement@,
            r.drifts() == 0,
            !r.is_unconstrained(),
    {
        Goal {
            statement: String::from_str(statement),
            criteria: Criteria::Custom { satisfied: Satisfaction::new(satisfied), aligned: Alignment::new(aligned) },
            drift_count: 0,
        }
    }

    /// A goal that is always satisfied and aligned, for runs with no
    /// explicit goal.
    pub fn trivial() -> (r: Self)
        ensures
            r.intent() == "trivial"@,
            r.drifts() == 0,
            r.is_unconstrained(),
    {
        Goal { statement: String::from_str("trivial"), criteria: Criteria::Unconstrained, drift_count: 0 }
    }

    /// Is the goal met, given the blackboard snapshot and the last output?
    pub fn is_satisfied(&self, snapshot: &Value, output: &Value) -> (r: bool)
        ensures
            self.is_unconstrained() ==> r,
    {
        match &self.criteria {
            Criteria::Unconstrained => true,
            Criteria::Custom { satisfied, .. } => satisfied.eval(snapshot, output),
        }
    }

    /// Count a report: every report that is not `Aligned` is one more drift.
    /// The report is handed back unchanged.
    pub fn tally(&mut self, report: GoalReport) -> (r: GoalReport)
        requires
            old(self).drifts() < u32::MAX,
        ensures
            r == report,
            final(self).drifts() == if report.status == GoalStatus::Aligned {
                old(self).drifts()
            } else {
                (old(self).drifts() + 1) as u32
            },
            final(self).intent() == old(self).intent(),
            final(self).is_unconstrained() == old(self).is_unconstrained(),
    {
        if report.status != GoalStatus::Aligned {
            self.drift_count = self.drift_count + 1;
        }
        report
    }

    /// Check one output for alignment, counting a drift when it is off
    /// course.
    pub fn check(&mut self, snapshot: &Value, output: &Value) -> (r: GoalReport)
        requires
            old(self).drifts() < u32::MAX,
        ensures
            final(self).drifts() == if r.status == GoalStatus::Aligned {
                old(self).drifts()
            } else {
                (old(self).drifts() + 1) as u32
            },
            old(self).is_unconstrained() ==> r.status == GoalStatus::Aligned && r.note@
                == unconstrained_note(),
            final(self).intent() == old(self).intent(),
            final(self).is_unconstrained() == old(self).is_unconstrained(),
    {
        let report = match &self.criteria {
            Criteria::Unconstrained => GoalReport {
                status: GoalStatus::Aligned,
                note: String::from_str("no constraint"),
            },
            Criteria::Custom { aligned, .. } => aligned.eval(snapshot, output),
        };
        self.tally(report)
    }

    pub fn drift_count(&self) -> (r: u32)
        ensures
            r == self.drifts(),
    {
        self.drift_count
    }

    /// The interrupt kind a violated goal maps to.
    pub fn violated_interrupt_kind() -> (r: InterruptKind)
        ensures
            r == InterruptKind::GoalDrift,
    {
        InterruptKind::GoalDrift
    }
}

} // verus!
