//! The negotiation protocol between agents.
//!
//! A requester and a provider take turns over a `Contract`: each round the
//! provider accepts and delivers, makes a counter-offer, or rejects. The
//! session ends with a delivery (fulfilled or breached), a rejection, or a
//! deadlock once the round cap is reached.

use crate::contract::{breach_message, Contract, ContractStatus};
use crate::error::{error_message, AgentError, AgentResult};
use crate::value::{Value, ValueView};
use vstd::prelude::*;
use vstd::string::StringExecFns;

verus! {

/// What a provider wants to do this round.
#[derive(Debug)]
pub enum ProviderAction {
    /// Accept the current offer and deliver this output.
    Accept(Value),
    /// Make a counter-offer and keep negotiating.
    Counter(Value),
    /// Reject and walk away.
    Reject(String),
}

impl Clone for ProviderAction {
    fn clone(&self) -> (r: Self)
        ensures
            match (r, *self) {
                (ProviderAction::Accept(a), ProviderAction::Accept(b)) => a@ == b@,
                (ProviderAction::Counter(a), ProviderAction::Counter(b)) => a@ == b@,
                (ProviderAction::Reject(a), ProviderAction::Reject(b)) => a@ == b@,
                _ => false,
            },
    {
        match self {
            ProviderAction::Accept(v) => ProviderAction::Accept(v.clone()),
            ProviderAction::Counter(v) => ProviderAction::Counter(v.clone()),
            ProviderAction::Reject(s) => ProviderAction::Reject(s.clone()),
        }
    }
}

/// The outcome of a negotiation.
#[derive(Debug)]
pub enum NegotiationOutcome {
    /// Both parties agreed and the provider delivered.
    Fulfilled(Value),
    /// The provider delivered but the output failed acceptance.
    Breached(String),
    /// A party rejected and no deal was reached (carries the reason).
    Rejected(String),
    /// No deal within the round cap.
    Deadlocked,
}

impl Clone for NegotiationOutcome {
    fn clone(&self) -> (r: Self)
        ensures
            match (r, *self) {
                (NegotiationOutcome::Fulfilled(a), NegotiationOutcome::Fulfilled(b)) => a@ == b@,
                (NegotiationOutcome::Breached(a), NegotiationOutcome::Breached(b)) => a@ == b@,
                (NegotiationOutcome::Rejected(a), NegotiationOutcome::Rejected(b)) => a@ == b@,
                (NegotiationOutcome::Deadlocked, NegotiationOutcome::Deadlocked) => true,
                _ => false,
            },
    {
        match self {
            NegotiationOutcome::Fulfilled(v) => NegotiationOutcome::Fulfilled(v.clone()),
            NegotiationOutcome::Breached(s) => NegotiationOutcome::Breached(s.clone()),
            NegotiationOutcome::Rejected(s) => NegotiationOutcome::Rejected(s.clone()),
            NegotiationOutcome::Deadlocked => NegotiationOutcome::Deadlocked,
        }
    }
}

/// The text a breached delivery is reported with: the breach error's
/// message.
pub open spec fn breach_report() -> Seq<char> {
    "negotiation failed: "@ + breach_message()
}

/// The contract is fulfilled and holds `output` as delivered.
pub open spec fn holds_delivery(c: Contract, output: ValueView) -> bool {
    &&& c.status == ContractStatus::Fulfilled
    &&& c.delivered matches Some(d) && d@ == output
}

/// What ends a round in which the provider accepted and delivered `output`:
/// the contract is fulfilled with that output, or breached.
pub open spec fn delivery_outcome(o: NegotiationOutcome, c: Contract, output: ValueView) -> bool {
    match o {
        NegotiationOutcome::Fulfilled(v) => v@ == output && holds_delivery(c, output),
        NegotiationOutcome::Breached(m) => m@ == breach_report() && c.status
            == ContractStatus::Breached,
        _ => false,
    }
}

/// The view of the offer the provider is handed at round `k`: the request
/// at round 0, after that the counter-offer of the round before.
pub open spec fn offer_at(request: ValueView, acts: Seq<ProviderAction>, k: int) -> ValueView {
    if k <= 0 {
        request
    } else {
        acts[k - 1]->Counter_0@
    }
}

/// The provider, called with round `k` and an offer whose view is `offer`,
/// may answer `act`.
pub open spec fn answered<F: FnMut(u32, &Value) -> ProviderAction>(
    provider: F,
    k: u32,
    offer: ValueView,
    act: ProviderAction,
) -> bool {
    exists|v: Value| v@ == offer && #[trigger] call_ensures(provider, (k, &v), act)
}

/// The contract after the first `k` answers, all counter-offers: unchanged
/// before any, else holding the last counter-offer.
pub open spec fn contract_after(c: Contract, acts: Seq<ProviderAction>, k: int) -> Contract {
    if k <= 0 {
        c
    } else {
        Contract { offer: acts[k - 1]->Counter_0, status: ContractStatus::CounterOffered, ..c }
    }
}

/// The answers `acts` are those the provider gave in a run from `before`
/// to `after` with result `r`: rounds 0, 1, ... each handed the request or
/// the previous counter-offer; every answer but the last a counter-offer;
/// and the last one decides: a counter-offer only at the round cap, with a
/// deadlock; otherwise the result `apply` gives for it.
pub open spec fn run_history<F: FnMut(u32, &Value) -> ProviderAction>(
    provider: F,
    before: Negotiation,
    after: Negotiation,
    acts: Seq<ProviderAction>,
    r: AgentResult<NegotiationOutcome>,
) -> bool {
    let n = acts.len() as int;
    let last = acts[n - 1];
    let prev = contract_after(before.contract, acts, n - 1);
    &&& 1 <= n <= before.max_rounds
    &&& forall|k: int| 0 <= k < n ==> answered(provider, k as u32, offer_at(before.contract.request@, acts, k), #[trigger] acts[k])
    &&& forall|k: int| 0 <= k < n - 1 ==> #[trigger] acts[k] is Counter
    &&& match last {
        ProviderAction::Counter(_) => {
            &&& n == before.max_rounds
            &&& r matches Ok(NegotiationOutcome::Deadlocked)
            &&& after.contract == contract_after(before.contract, acts, n)
        },
        ProviderAction::Accept(output) => r matches Ok(o) && delivery_outcome(o, after.contract, output@),
        ProviderAction::Reject(reason) => {
            &&& r == Ok::<NegotiationOutcome, AgentError>(NegotiationOutcome::Rejected(reason))
            &&& after.contract == (Contract { status: ContractStatus::Rejected, ..prev })
        },
    }
}

/// One more answer keeps the history: every earlier round was handed the
/// same offer as before, and the new round the offer it was handed.
proof fn lemma_history_push<F: FnMut(u32, &Value) -> ProviderAction>(
    provider: F,
    request: ValueView,
    acts: Seq<ProviderAction>,
    a: ProviderAction,
    round: u32,
)
    requires
        acts.len() == round,
        forall|k: int| 0 <= k < round ==> answered(provider, k as u32, offer_at(request, acts, k), #[trigger] acts[k]),
        forall|k: int| 0 <= k < round ==> #[trigger] acts[k] is Counter,
        answered(provider, round, offer_at(request, acts, round as int), a),
    ensures
        forall|k: int|
            0 <= k < round + 1 ==> answered(provider, k as u32, offer_at(request, acts.push(a), k), #[trigger] acts.push(a)[k]),
        forall|k: int| 0 <= k < round ==> #[trigger] acts.push(a)[k] is Counter,
{
    let b = acts.push(a);
    assert forall|k: int| 0 <= k < round + 1 implies answered(provider, k as u32, offer_at(request, b, k), #[trigger] b[k]) by {
        if k < round {
            assert(b[k] == acts[k]);
            assert(offer_at(request, b, k) == offer_at(request, acts, k));
        } else {
            assert(b[k] == a);
            assert(offer_at(request, b, k) == offer_at(request, acts, k));
        }
    }
    assert forall|k: int| 0 <= k < round implies #[trigger] b[k] is Counter by {
        assert(b[k] == acts[k]);
    }
}

/// A history whose rounds were handed the right offers, all counter-offers
/// but the last, and whose last answer decided the result, is a run history.
proof fn lemma_history_end<F: FnMut(u32, &Value) -> ProviderAction>(
    provider: F,
    before: Negotiation,
    after: Negotiation,
    acts: Seq<ProviderAction>,
    r: AgentResult<NegotiationOutcome>,
)
    requires
        1 <= acts.len() <= before.max_rounds,
        forall|k: int|
            0 <= k < acts.len() ==> answered(provider, k as u32, offer_at(before.contract.request@, acts, k), #[trigger] acts[k]),
        forall|k: int| 0 <= k < acts.len() - 1 ==> #[trigger] acts[k] is Counter,
        match acts.last() {
            ProviderAction::Counter(_) => {
                &&& acts.len() == before.max_rounds
                &&& r matches Ok(NegotiationOutcome::Deadlocked)
                &&& after.contract == contract_after(before.contract, acts, acts.len() as int)
            },
            ProviderAction::Accept(output) => r matches Ok(o) && delivery_outcome(o, after.contract, output@),
            ProviderAction::Reject(reason) => {
                &&& r == Ok::<NegotiationOutcome, AgentError>(NegotiationOutcome::Rejected(reason))
                &&& after.contract == (Contract {
                    status: ContractStatus::Rejected,
                    ..contract_after(before.contract, acts, acts.len() - 1)
                })
            },
        },
    ensures
        run_history(provider, before, after, acts, r),
{
}

/// A negotiation session over a contract, with a cap on the rounds.
pub struct Negotiation {
    pub contract: Contract,
    /// Rounds of back-and-forth before declaring deadlock.
    pub max_rounds: u32,
}

impl Negotiation {
    pub fn new(contract: Contract, max_rounds: u32) -> (r: Self)
        ensures
            r.contract == contract,
            r.max_rounds == max_rounds,
    {
        Negotiation { contract, max_rounds }
    }

    /// Apply one provider action to the contract. `None` means the
    /// negotiation goes on (a counter-offer was made); otherwise the outcome.
    pub fn apply(&mut self, action: ProviderAction) -> (r: Option<NegotiationOutcome>)
        ensures
            final(self).max_rounds == old(self).max_rounds,
            final(self).contract.request == old(self).contract.request,
            match action {
                ProviderAction::Accept(output) => r matches Some(o) && delivery_outcome(
                    o,
                    final(self).contract,
                    output@,
                ),
                ProviderAction::Counter(offer) => r is None && final(self).contract == (Contract {
                    offer,
                    status: ContractStatus::CounterOffered,
                    ..old(self).contract
                }),
                ProviderAction::Reject(reason) => r == Some(NegotiationOutcome::Rejected(reason))
                    && final(self).contract == (Contract {
                    status: ContractStatus::Rejected,
                    ..old(self).contract
                }),
            },
    {
        match action {
            ProviderAction::Accept(output) => {
                self.contract.accept();
                let ghost expected = output@;
                match self.contract.deliver(output) {
                    Ok(()) => {
                        let v = match self.contract.delivered() {
                            Some(v) => v,
                            None => Value::null(),
                        };
                        Some(NegotiationOutcome::Fulfilled(v))
                    },
                    Err(e) => {
                        let text = e.to_string();
                        proof {
                            assert(text@ == error_message(e));
                        }
                        Some(NegotiationOutcome::Breached(text))
                    },
                }
            },
            ProviderAction::Counter(offer) => {
                self.contract.counter(offer);
                None
            },
            ProviderAction::Reject(reason) => {
                self.contract.reject();
                Some(NegotiationOutcome::Rejected(reason))
            },
        }
    }

    /// Run the negotiation: each round the provider is called with the round
    /// number and the last offer (the request at first), until it accepts or
    /// rejects, or the cap is reached.
    #[verifier::spinoff_prover]
    #[verifier::rlimit(60)]
    pub fn run<F>(&mut self, provider: F) -> (r: AgentResult<NegotiationOutcome>)
        where
            F: FnMut(u32, &Value) -> ProviderAction,
        requires
            forall|g: F, round: u32, offer: &Value| #[trigger] call_requires(g, (round, offer)),
        ensures
            final(self).max_rounds == old(self).max_rounds,
            final(self).contract.request == old(self).contract.request,
            old(self).max_rounds == 0 ==> (r matches Ok(NegotiationOutcome::Deadlocked) && *final(self) == *old(self)),
            old(self).max_rounds > 0 ==> exists|acts: Seq<ProviderAction>|
                #[trigger] run_history(provider, *old(self), *final(self), acts, r),
            r matches Ok(o) && match o {
                NegotiationOutcome::Fulfilled(v) => holds_delivery(final(self).contract, v@),
                NegotiationOutcome::Breached(m) => m@ == breach_report() && final(self).contract.status
                    == ContractStatus::Breached,
                NegotiationOutcome::Rejected(_) => final(self).contract.status == ContractStatus::Rejected,
                NegotiationOutcome::Deadlocked => old(self).max_rounds == 0 && *final(self) == *old(self)
                    || old(self).max_rounds > 0 && final(self).contract.status
                    == ContractStatus::CounterOffered,
            },
    {
        let ghost start = *self;
        let mut ask = provider;
        let mut round: u32 = 0;
        let mut last_offer = self.contract.request.clone();
        let ghost mut acts: Seq<ProviderAction> = Seq::empty();
        loop
            invariant
                forall|g: F, rd: u32, offer: &Value| #[trigger] call_requires(g, (rd, offer)),
                ask == provider,
                start == *old(self),
                self.max_rounds == start.max_rounds,
                self.contract.request == start.contract.request,
                round <= self.max_rounds,
                acts.len() == round,
                forall|k: int| 0 <= k < round ==> #[trigger] acts[k] is Counter,
                forall|k: int|
                    0 <= k < round ==> answered(provider, k as u32, offer_at(start.contract.request@, acts, k), #[trigger] acts[k]),
                last_offer@ == offer_at(start.contract.request@, acts, round as int),
                self.contract == contract_after(start.contract, acts, round as int),
                round == 0 ==> *self == start,
                round > 0 ==> self.contract.status == ContractStatus::CounterOffered,
            decreases self.max_rounds - round,
        {
            if round >= self.max_rounds {
                proof {
                    if round > 0 {
                        assert(acts.last() is Counter);
                        lemma_history_end(provider, start, *self, acts, Ok(NegotiationOutcome::Deadlocked));
                    }
                }
                return Ok(NegotiationOutcome::Deadlocked);
            }
            let action = ask(round, &last_offer);
            assert(call_ensures(ask, (round, &last_offer), action));
            let ghost a = action;
            proof {
                assert(answered(provider, round, offer_at(start.contract.request@, acts, round as int), a));
                lemma_history_push(provider, start.contract.request@, acts, a, round);
                acts = acts.push(a);
            }
            let next = match &action {
                ProviderAction::Counter(offer) => Some(offer.clone()),
                _ => None,
            };
            match self.apply(action) {
                Some(outcome) => {
                    proof {
                        assert(acts.last() == a);
                        lemma_history_end(provider, start, *self, acts, Ok(outcome));
                        assert(run_history(provider, *old(self), *self, acts, Ok(outcome)));
                    }
                    return Ok(outcome);
                },
                None => {
                    match next {
                        Some(offer) => {
                            last_offer = offer;
                        },
                        None => {},
                    }
                    round = round + 1;
                },
            }
        }
    }

    pub fn status(&self) -> (r: ContractStatus)
        ensures
            r == self.contract.status,
    {
        self.contract.status()
    }
}

/// A one-round negotiation in which the provider delivers `output` at once.
pub fn one_shot(contract: Contract, output: Value) -> (r: AgentResult<NegotiationOutcome>)
    ensures
        r matches Ok(o) && match o {
            NegotiationOutcome::Fulfilled(v) => v@ == output@,
            NegotiationOutcome::Breached(m) => m@ == breach_report(),
            _ => false,
        },
{
    let mut neg = Negotiation::new(contract, 1);
    match neg.apply(ProviderAction::Accept(output)) {
        Some(o) => Ok(o),
        None => Ok(NegotiationOutcome::Deadlocked),
    }
}

/// The error a deadlocked negotiation is reported with.
pub fn deadlock_error() -> (r: AgentError)
    ensures
        r matches AgentError::Negotiation(m) && m@ == "negotiation deadlocked"@,
{
    AgentError::Negotiation(String::from_str("negotiation deadlocked"))
}

} // verus!
