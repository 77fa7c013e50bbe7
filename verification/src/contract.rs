//! Contracts between agents.
//!
//! A `Contract` is the unit of a transaction between a requester and a
//! provider: what the requester wants, what the provider currently offers,
//! the acceptance criteria, and where the contract is in its lifecycle.

use crate::error::{AgentError, AgentResult};
use crate::id::NegotiationId;
use crate::value::{Value, ValueView};
use vstd::prelude::*;
use vstd::string::StringExecFns;

verus! {

/// Where a contract is in its lifecycle.
#[derive(Clone, Copy, Debug, PartialEq, Eq, Structural)]
pub enum ContractStatus {
    /// Requester has issued a bid; no provider has accepted yet.
    Proposed,
    /// A provider made a counter-offer.
    CounterOffered,
    /// Both parties agreed.
    Accepted,
    /// A party rejected.
    Rejected,
    /// An accepted contract was reopened for renegotiation.
    Renegotiating,
    /// The provider delivered the agreed output.
    Fulfilled,
    /// The provider failed to deliver.
    Breached,
}

/// The acceptance criteria of a contract: a predicate the requester supplies
/// over the delivered output.
#[verifier::external_body]
pub struct Acceptance {
    f: Box<dyn Fn(&Value) -> bool + Send + Sync>,
}

impl Acceptance {
    /// Boxes the requester's predicate. Nothing is stated of it.
    #[verifier::external_body]
    pub(crate) fn new<F: Fn(&Value) -> bool + Send + Sync + 'static>(f: F) -> Acceptance {
        Acceptance { f: Box::new(f) }
    }

    /// Calls the requester's predicate on `output`. What it returns is the
    /// requester's code, so nothing is stated of it.
    #[verifier::external_body]
    pub(crate) fn check(&self, output: &Value) -> bool {
        (self.f)(output)
    }
}

/// A contract.
pub struct Contract {
    pub id: NegotiationId,
    /// What the requester wants (a description and the expected shape).
    pub request: Value,
    /// What the provider currently offers (may differ from the request).
    pub offer: Value,
    /// Acceptance criteria over the delivered output.
    pub accept: Acceptance,
    pub status: ContractStatus,
    /// The delivered output, once fulfilled.
    pub delivered: Option<Value>,
}

/// The message of the error a breached contract gives.
pub open spec fn breach_message() -> Seq<char> {
    "delivered output failed acceptance criteria"@
}

/// The error a breached delivery returns.
pub open spec fn is_breach_error(r: AgentResult<()>) -> bool {
    r matches Err(AgentError::Negotiation(m)) && m@ == breach_message()
}

/// The view of an optional value.
pub open spec fn option_view(v: Option<Value>) -> Option<ValueView> {
    match v {
        Some(x) => Some(x@),
        None => None,
    }
}

impl Contract {
    /// A proposed contract with an empty offer and nothing delivered.
    pub fn new<F: Fn(&Value) -> bool + Send + Sync + 'static>(request: Value, accept: F) -> (r: Self)
        ensures
            r.request == request,
            r.offer@ == ValueView::Null,
            r.status == ContractStatus::Proposed,
            r.delivered is None,
    {
        Contract {
            id: NegotiationId::new(),
            request,
            offer: Value::null(),
            accept: Acceptance::new(accept),
            status: ContractStatus::Proposed,
            delivered: None,
        }
    }

    /// The provider makes a counter-offer.
    pub fn counter(&mut self, offer: Value)
        ensures
            *final(self) == (Contract { offer, status: ContractStatus::CounterOffered, ..*old(self) }),
    {
        self.offer = offer;
        self.status = ContractStatus::CounterOffered;
    }

    /// The requester accepts the current offer.
    pub fn accept(&mut self)
        ensures
            *final(self) == (Contract { status: ContractStatus::Accepted, ..*old(self) }),
    {
        self.status = ContractStatus::Accepted;
    }

    /// A party rejects.
    pub fn reject(&mut self)
        ensures
            *final(self) == (Contract { status: ContractStatus::Rejected, ..*old(self) }),
    {
        self.status = ContractStatus::Rejected;
    }

    /// Reopen for renegotiation.
    pub fn renegotiate(&mut self)
        ensures
            *final(self) == (Contract { status: ContractStatus::Renegotiating, ..*old(self) }),
    {
        self.status = ContractStatus::Renegotiating;
    }

    /// Settle a delivery once the acceptance criteria have judged it:
    /// fulfilled, with the output kept, when it passed; breached, with a
    /// negotiation error, when it did not.
    pub fn settle(&mut self, output: Value, passed: bool) -> (r: AgentResult<()>)
        ensures
            passed ==> r is Ok && *final(self) == (Contract {
                status: ContractStatus::Fulfilled,
                delivered: Some(output),
                ..*old(self)
            }),
            !passed ==> *final(self) == (Contract { status: ContractStatus::Breached, ..*old(self) })
                && is_breach_error(r),
    {
        if passed {
            self.delivered = Some(output);
            self.status = ContractStatus::Fulfilled;
            Ok(())
        } else {
            self.status = ContractStatus::Breached;
            Err(AgentError::Negotiation(String::from_str("delivered output failed acceptance criteria")))
        }
    }

    /// The provider delivers: the acceptance criteria judge the output, and
    /// the contract is fulfilled or breached accordingly.
    pub fn deliver(&mut self, output: Value) -> (r: AgentResult<()>)
        ensures
            r is Ok ==> *final(self) == (Contract {
                status: ContractStatus::Fulfilled,
                delivered: Some(output),
                ..*old(self)
            }),
            r is Err ==> *final(self) == (Contract { status: ContractStatus::Breached, ..*old(self) })
                && is_breach_error(r),
    {
        let passed = self.accept.check(&output);
        self.settle(output, passed)
    }

    pub fn status(&self) -> (r: ContractStatus)
        ensures
            r == self.status,
    {
        self.status
    }

    /// A copy of the delivered output, if any.
    pub fn delivered(&self) -> (r: Option<Value>)
        ensures
            option_view(r) == option_view(self.delivered),
    {
        match &self.delivered {
            Some(v) => Some(v.clone()),
            None => None,
        }
    }
}

} // verus!
