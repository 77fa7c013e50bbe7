//! Resource budgets: tokens, money, API calls and wall-clock time.
//!
//! Agents spend from a budget; each spend is attributed to the causal span
//! that made it, and a spend that takes a resource past its cap fails.

use crate::error::{AgentError, AgentResult};
use crate::id::SpanId;
use crate::text::{decimal, decimal_string};
use std::time::{Duration, Instant};
use vstd::prelude::*;
use vstd::string::StringExecFns;

verus! {

broadcast use vstd::std_specs::vec::group_vec_axioms;

#[verifier::external_type_specification]
#[verifier::external_body]
pub struct ExInstant(Instant);

/// Calls `Instant::now`: the current instant. Nothing is stated of it.
#[verifier::external_body]
fn instant_now() -> Instant {
    Instant::now()
}

/// Calls `Instant::elapsed` and takes the whole milliseconds
/// (`Duration::as_millis`, cast to `u64`). The result depends on the clock,
/// so nothing is stated of it.
#[verifier::external_body]
fn elapsed_millis(start: &Instant) -> u64 {
    start.elapsed().as_millis() as u64
}

/// Calls `Instant::elapsed`. The result depends on the clock, so nothing is
/// stated of it.
#[verifier::external_body]
fn elapsed_duration(start: &Instant) -> Duration {
    start.elapsed()
}

/// The kinds of resources a budget tracks.
#[derive(Clone, Copy, Debug, PartialEq, Eq, Structural, Hash)]
pub enum ResourceKind {
    Tokens,
    /// Micro-dollars, to keep integers.
    MoneyMicros,
    ApiCalls,
    /// Wall-clock budget, in milliseconds.
    WallMs,
}

/// The name of a kind, as its `Debug` output spells it.
pub open spec fn resource_name(k: ResourceKind) -> Seq<char> {
    match k {
        ResourceKind::Tokens => "Tokens"@,
        ResourceKind::MoneyMicros => "MoneyMicros"@,
        ResourceKind::ApiCalls => "ApiCalls"@,
        ResourceKind::WallMs => "WallMs"@,
    }
}

fn resource_name_string(k: ResourceKind) -> (r: String)
    ensures
        r@ == resource_name(k),
{
    match k {
        ResourceKind::Tokens => String::from_str("Tokens"),
        ResourceKind::MoneyMicros => String::from_str("MoneyMicros"),
        ResourceKind::ApiCalls => String::from_str("ApiCalls"),
        ResourceKind::WallMs => String::from_str("WallMs"),
    }
}

/// A limit on one resource.
#[derive(Clone, Copy, Debug)]
pub struct BudgetLimit {
    pub kind: ResourceKind,
    pub cap: u64,
}

/// An amount per resource kind, for the kinds that have one.
#[derive(Clone, Copy, Debug, Default)]
pub struct KindMap {
    tokens: Option<u64>,
    money_micros: Option<u64>,
    api_calls: Option<u64>,
    wall_ms: Option<u64>,
}

impl View for KindMap {
    type V = Map<ResourceKind, u64>;

    closed spec fn view(&self) -> Map<ResourceKind, u64> {
        Map::new(
            |k: ResourceKind| self.slot(k) is Some,
            |k: ResourceKind| self.slot(k)->0,
        )
    }
}

impl KindMap {
    closed spec fn slot(&self, k: ResourceKind) -> Option<u64> {
        match k {
            ResourceKind::Tokens => self.tokens,
            ResourceKind::MoneyMicros => self.money_micros,
            ResourceKind::ApiCalls => self.api_calls,
            ResourceKind::WallMs => self.wall_ms,
        }
    }

    /// A map with no amounts.
    pub fn new() -> (r: Self)
        ensures
            r@ == Map::<ResourceKind, u64>::empty(),
    {
        let r = KindMap { tokens: None, money_micros: None, api_calls: None, wall_ms: None };
        assert(r@ =~= Map::<ResourceKind, u64>::empty());
        r
    }

    /// The amount for `kind`, if any.
    pub fn get(&self, kind: &ResourceKind) -> (r: Option<&u64>)
        ensures
            r is Some <==> self@.contains_key(*kind),
            r matches Some(v) ==> *v == self@[*kind],
    {
        match kind {
            ResourceKind::Tokens => self.tokens.as_ref(),
            ResourceKind::MoneyMicros => self.money_micros.as_ref(),
            ResourceKind::ApiCalls => self.api_calls.as_ref(),
            ResourceKind::WallMs => self.wall_ms.as_ref(),
        }
    }

    /// Set the amount for `kind`.
    pub fn insert(&mut self, kind: ResourceKind, v: u64)
        ensures
            final(self)@ == old(self)@.insert(kind, v),
    {
        match kind {
            ResourceKind::Tokens => self.tokens = Some(v),
            ResourceKind::MoneyMicros => self.money_micros = Some(v),
            ResourceKind::ApiCalls => self.api_calls = Some(v),
            ResourceKind::WallMs => self.wall_ms = Some(v),
        }
        assert(self@ =~= old(self)@.insert(kind, v));
    }

    /// The amount for `kind`, or 0.
    pub fn amount(&self, kind: ResourceKind) -> (r: u64)
        ensures
            r == amount_of(self@, kind),
    {
        match self.get(&kind) {
            Some(v) => *v,
            None => 0,
        }
    }
}

/// The amount recorded for `kind`, or 0.
pub open spec fn amount_of(m: Map<ResourceKind, u64>, kind: ResourceKind) -> u64 {
    if m.contains_key(kind) {
        m[kind]
    } else {
        0
    }
}

/// A snapshot of spend so far.
#[derive(Clone, Copy, Debug, Default)]
pub struct BudgetReport {
    pub spent: KindMap,
}

impl BudgetReport {
    /// The amount spent of `kind` (0 if none).
    pub fn spent(&self, kind: ResourceKind) -> (r: u64)
        ensures
            r == amount_of(self.spent@, kind),
    {
        self.spent.amount(kind)
    }
}

/// The model of a budget: caps, totals and per-span totals.
pub struct BudgetView {
    pub limits: Map<ResourceKind, u64>,
    pub spent: Map<ResourceKind, u64>,
    pub per_span: Map<SpanId, Map<ResourceKind, u64>>,
}

/// The message of a spend that took `kind` past its cap.
pub open spec fn exhausted_message(kind: ResourceKind, total: u64, cap: u64) -> Seq<char> {
    resource_name(kind) + " exhausted: spent "@ + decimal(total as nat) + " > cap "@ + decimal(
        cap as nat,
    )
}

/// The message when the wall-clock budget is used up.
pub open spec fn wall_message(elapsed: u64, cap: u64) -> Seq<char> {
    "wall-clock exhausted: "@ + decimal(elapsed as nat) + "ms > cap "@ + decimal(cap as nat) + "ms"@
}

/// The budget after spending `amount` of a countable `kind` on `span`.
pub open spec fn after_spend(b: BudgetView, kind: ResourceKind, amount: u64, span: SpanId) -> BudgetView {
    let per = if b.per_span.contains_key(span) {
        b.per_span[span]
    } else {
        Map::empty()
    };
    BudgetView {
        limits: b.limits,
        spent: b.spent.insert(kind, (amount_of(b.spent, kind) + amount) as u64),
        per_span: b.per_span.insert(span, per.insert(kind, (amount_of(per, kind) + amount) as u64)),
    }
}

/// The amount of `kind` that `span` has spent.
pub open spec fn span_amount(b: BudgetView, span: SpanId, kind: ResourceKind) -> u64 {
    if b.per_span.contains_key(span) {
        amount_of(b.per_span[span], kind)
    } else {
        0
    }
}

/// What remains of `kind`: cap minus spend (not below 0), or `u64::MAX`
/// without a cap.
pub open spec fn remaining_of(b: BudgetView, kind: ResourceKind) -> u64 {
    if b.limits.contains_key(kind) {
        if b.limits[kind] >= amount_of(b.spent, kind) {
            (b.limits[kind] - amount_of(b.spent, kind)) as u64
        } else {
            0
        }
    } else {
        u64::MAX
    }
}

/// The budget tracker.
pub struct Budget {
    limits: KindMap,
    spent: KindMap,
    /// Per-span spend, for causal attribution.
    per_span: Vec<(SpanId, KindMap)>,
    start: Instant,
}

impl View for Budget {
    type V = BudgetView;

    closed spec fn view(&self) -> BudgetView {
        BudgetView {
            limits: self.limits@,
            spent: self.spent@,
            per_span: Map::new(
                |s: SpanId| exists|i: int| 0 <= i < self.per_span@.len() && (#[trigger] self.per_span@[i]).0 == s,
                |s: SpanId|
                    self.per_span@[choose|i: int|
                        0 <= i < self.per_span@.len() && (#[trigger] self.per_span@[i]).0 == s].1@,
            ),
        }
    }
}

/// The caps that a list of limits sets: a later limit for a kind wins.
pub open spec fn caps_of(limits: Seq<BudgetLimit>) -> Map<ResourceKind, u64>
    decreases limits.len(),
{
    if limits.len() == 0 {
        Map::empty()
    } else {
        caps_of(limits.drop_last()).insert(limits.last().kind, limits.last().cap)
    }
}

impl Budget {
    /// Spans are recorded at most once.
    pub closed spec fn wf(&self) -> bool {
        forall|i: int, j: int|
            0 <= i < self.per_span@.len() && 0 <= j < self.per_span@.len() && i != j ==> (#[trigger] self.per_span@[i]).0
                != (#[trigger] self.per_span@[j]).0
    }

    pub fn new(limits: Vec<BudgetLimit>) -> (r: Self)
        ensures
            r.wf(),
            r@.limits == caps_of(limits@),
            r@.spent == Map::<ResourceKind, u64>::empty(),
            r@.per_span == Map::<SpanId, Map<ResourceKind, u64>>::empty(),
    {
        let mut caps = KindMap::new();
        let mut i: usize = 0;
        while i < limits.len()
            invariant
                i <= limits@.len(),
                caps@ == caps_of(limits@.take(i as int)),
            decreases limits.len() - i,
        {
            proof {
                assert(limits@.take(i + 1).drop_last() =~= limits@.take(i as int));
            }
            caps.insert(limits[i].kind, limits[i].cap);
            i = i + 1;
        }
        proof {
            assert(limits@.take(limits@.len() as int) =~= limits@);
        }
        let r = Budget { limits: caps, spent: KindMap::new(), per_span: Vec::new(), start: instant_now() };
        assert(r@.per_span =~= Map::<SpanId, Map<ResourceKind, u64>>::empty());
        r
    }

    /// A budget without caps (dev/test convenience).
    pub fn unlimited() -> (r: Self)
        ensures
            r.wf(),
            r@.limits == Map::<ResourceKind, u64>::empty(),
            r@.spent == Map::<ResourceKind, u64>::empty(),
            r@.per_span == Map::<SpanId, Map<ResourceKind, u64>>::empty(),
    {
        Self::new(Vec::new())
    }

    proof fn lemma_span_index(&self, i: int)
        requires
            self.wf(),
            0 <= i < self.per_span@.len(),
        ensures
            self@.per_span.contains_key(self.per_span@[i].0),
            self@.per_span[self.per_span@[i].0] == self.per_span@[i].1@,
    {
        let s = self.per_span@[i].0;
        let j = choose|j: int| 0 <= j < self.per_span@.len() && (#[trigger] self.per_span@[j]).0 == s;
        assert(self.per_span@[i].0 == s);
    }

    /// Spend `amount` of `kind`, attributed to `span`. Wall-clock time is not
    /// spent but elapses: a wall-clock spend of any amount, zero included,
    /// checks the elapsed time against its cap, so that a per-node budget
    /// check catches a run past its deadline. Any other spend is recorded
    /// even when it goes past the cap, and then fails.
    pub fn spend(&mut self, kind: ResourceKind, amount: u64, span: SpanId) -> (r: AgentResult<()>)
        requires
            old(self).wf(),
            kind != ResourceKind::WallMs ==> amount_of(old(self)@.spent, kind) + amount <= u64::MAX,
            kind != ResourceKind::WallMs ==> span_amount(old(self)@, span, kind) + amount <= u64::MAX,
        ensures
            final(self).wf(),
            kind == ResourceKind::WallMs ==> {
                &&& final(self)@ == old(self)@
                &&& !old(self)@.limits.contains_key(kind) ==> r is Ok
                &&& r matches Err(e) ==> e is Budget
            },
            amount == 0 && kind != ResourceKind::WallMs ==> r is Ok && final(self)@ == old(self)@,
            amount > 0 && kind != ResourceKind::WallMs ==> {
                &&& final(self)@ == after_spend(old(self)@, kind, amount, span)
                &&& r is Ok <==> !(old(self)@.limits.contains_key(kind) && amount_of(
                    old(self)@.spent,
                    kind,
                ) + amount > old(self)@.limits[kind])
                &&& r matches Err(e) ==> e matches AgentError::Budget(m) && m@ == exhausted_message(
                    kind,
                    (amount_of(old(self)@.spent, kind) + amount) as u64,
                    old(self)@.limits[kind],
                )
            },
    {
        if kind == ResourceKind::WallMs {
            let elapsed = elapsed_millis(&self.start);
            return self.check_wall_at(elapsed);
        }
        if amount == 0 {
            return Ok(());
        }
        let total = self.spent.amount(kind) + amount;
        self.spent.insert(kind, total);
        self.attribute(kind, amount, span);
        match self.limits.get(&kind) {
            Some(cap) => {
                if total > *cap {
                    let mut m = resource_name_string(kind);
                    m.append(" exhausted: spent ");
                    let t = decimal_string(total);
                    m.append(t.as_str());
                    m.append(" > cap ");
                    let c = decimal_string(*cap);
                    m.append(c.as_str());
                    return Err(AgentError::Budget(m));
                }
            },
            None => {},
        }
        Ok(())
    }

    fn attribute(&mut self, kind: ResourceKind, amount: u64, span: SpanId)
        requires
            old(self).wf(),
            span_amount(old(self)@, span, kind) + amount <= u64::MAX,
        ensures
            final(self).wf(),
            final(self)@.limits == old(self)@.limits,
            final(self)@.spent == old(self)@.spent,
            final(self)@.per_span == after_spend(old(self)@, kind, amount, span).per_span,
            final(self).start == old(self).start,
    {
        let ghost before = *self;
        let mut i: usize = 0;
        while i < self.per_span.len()
            invariant
                i <= self.per_span@.len(),
                *self == before,
                before == *old(self),
                before.wf(),
                span_amount(before@, span, kind) + amount <= u64::MAX,
                forall|k: int| 0 <= k < i ==> (#[trigger] self.per_span@[k]).0 != span,
            decreases self.per_span.len() - i,
        {
            if self.per_span[i].0 == span {
                proof {
                    before.lemma_span_index(i as int);
                }
                let mut entry = self.per_span[i].1;
                let cur = entry.amount(kind);
                entry.insert(kind, cur + amount);
                self.per_span.set(i, (span, entry));
                proof {
                    assert forall|a: int, b: int|
                        0 <= a < self.per_span@.len() && 0 <= b < self.per_span@.len() && a != b implies (#[trigger] self.per_span@[a]).0
                        != (#[trigger] self.per_span@[b]).0 by {
                        assert(before.per_span@[a].0 != before.per_span@[b].0);
                    }
                    let want = after_spend(before@, kind, amount, span).per_span;
                    assert forall|s: SpanId| #[trigger] self@.per_span.contains_key(s) == want.contains_key(s) by {
                        if want.contains_key(s) && s != span {
                            let j = choose|j: int| 0 <= j < before.per_span@.len() && (#[trigger] before.per_span@[j]).0 == s;
                            assert(self.per_span@[j].0 == s);
                        }
                        if s == span {
                            assert(self.per_span@[i as int].0 == s);
                        }
                        if self@.per_span.contains_key(s) {
                            let j = choose|j: int| 0 <= j < self.per_span@.len() && (#[trigger] self.per_span@[j]).0 == s;
                            assert(before.per_span@[j].0 == s);
                        }
                    }
                    assert(self.limits == before.limits);
                    assert(self.spent == before.spent);
                    assert forall|s: SpanId| #[trigger] self@.per_span.contains_key(s) implies self@.per_span[s] == want[s] by {
                        let j = choose|j: int| 0 <= j < self.per_span@.len() && (#[trigger] self.per_span@[j]).0 == s;
                        self.lemma_span_index(j);
                        before.lemma_span_index(j);
                    }
                    assert(self@.per_span =~= want);
                }
                return;
            }
            i = i + 1;
        }
        let mut entry = KindMap::new();
        entry.insert(kind, amount);
        self.per_span.push((span, entry));
        proof {
            let n = before.per_span@.len() as int;
            assert(!before@.per_span.contains_key(span));
            assert forall|a: int, b: int|
                0 <= a < self.per_span@.len() && 0 <= b < self.per_span@.len() && a != b implies (#[trigger] self.per_span@[a]).0
                != (#[trigger] self.per_span@[b]).0 by {
                if a < n && b < n {
                    assert(before.per_span@[a].0 != before.per_span@[b].0);
                }
            }
            let want = after_spend(before@, kind, amount, span).per_span;
            assert forall|s: SpanId| #[trigger] self@.per_span.contains_key(s) == want.contains_key(s) by {
                if want.contains_key(s) && s != span {
                    let j = choose|j: int| 0 <= j < before.per_span@.len() && (#[trigger] before.per_span@[j]).0 == s;
                    assert(self.per_span@[j].0 == s);
                }
                if s == span {
                    assert(self.per_span@[n].0 == s);
                }
                if self@.per_span.contains_key(s) {
                    let j = choose|j: int| 0 <= j < self.per_span@.len() && (#[trigger] self.per_span@[j]).0 == s;
                    if j < n {
                        assert(before.per_span@[j].0 == s);
                    }
                }
            }
            assert forall|s: SpanId| #[trigger] self@.per_span.contains_key(s) implies self@.per_span[s] == want[s] by {
                let j = choose|j: int| 0 <= j < self.per_span@.len() && (#[trigger] self.per_span@[j]).0 == s;
                self.lemma_span_index(j);
                if j < n {
                    before.lemma_span_index(j);
                } else {
                    assert(Map::<ResourceKind, u64>::empty().insert(kind, amount) =~= entry@);
                }
            }
            assert(self@.per_span =~= want);
        }
    }

    /// Check `elapsed` milliseconds against the wall-clock cap, if any.
    pub fn check_wall_at(&self, elapsed: u64) -> (r: AgentResult<()>)
        ensures
            r is Ok <==> !(self@.limits.contains_key(ResourceKind::WallMs) && elapsed > self@.limits[ResourceKind::WallMs]),
            r matches Err(e) ==> e matches AgentError::Budget(m) && m@ == wall_message(
                elapsed,
                self@.limits[ResourceKind::WallMs],
            ),
    {
        match self.limits.get(&ResourceKind::WallMs) {
            Some(cap) => {
                if elapsed > *cap {
                    let mut m = String::from_str("wall-clock exhausted: ");
                    let t = decimal_string(elapsed);
                    m.append(t.as_str());
                    m.append("ms > cap ");
                    let c = decimal_string(*cap);
                    m.append(c.as_str());
                    m.append("ms");
                    return Err(AgentError::Budget(m));
                }
                Ok(())
            },
            None => Ok(()),
        }
    }

    /// How much of `kind` has been spent.
    pub fn spent(&self, kind: ResourceKind) -> (r: u64)
        ensures
            r == amount_of(self@.spent, kind),
    {
        self.spent.amount(kind)
    }

    /// What remains of `kind`, or `u64::MAX` without a cap.
    pub fn remaining(&self, kind: ResourceKind) -> (r: u64)
        ensures
            r == remaining_of(self@, kind),
    {
        match self.limits.get(&kind) {
            Some(cap) => {
                let s = self.spent(kind);
                if *cap >= s {
                    *cap - s
                } else {
                    0
                }
            },
            None => u64::MAX,
        }
    }

    /// Is nothing left of `kind`?
    pub fn is_exhausted(&self, kind: ResourceKind) -> (r: bool)
        ensures
            r == (remaining_of(self@, kind) == 0),
    {
        self.remaining(kind) == 0
    }

    /// Full report of the totals.
    pub fn report(&self) -> (r: BudgetReport)
        ensures
            r.spent@ == self@.spent,
    {
        BudgetReport { spent: self.spent }
    }

    /// Spend attributed to a span.
    pub fn span_spend(&self, span: SpanId) -> (r: KindMap)
        requires
            self.wf(),
        ensures
            r@ == (if self@.per_span.contains_key(span) {
                self@.per_span[span]
            } else {
                Map::empty()
            }),
    {
        let mut i: usize = 0;
        while i < self.per_span.len()
            invariant
                i <= self.per_span@.len(),
                self.wf(),
                forall|k: int| 0 <= k < i ==> (#[trigger] self.per_span@[k]).0 != span,
            decreases self.per_span.len() - i,
        {
            if self.per_span[i].0 == span {
                proof {
                    self.lemma_span_index(i as int);
                }
                return self.per_span[i].1;
            }
            i = i + 1;
        }
        KindMap::new()
    }

    /// Elapsed wall time since the budget started.
    pub fn elapsed(&self) -> Duration {
        elapsed_duration(&self.start)
    }
}

/// Law: a spend within the cap leaves the rest of the cap: spent plus
/// remaining equals the cap.
pub proof fn law_spent_plus_remaining(b: BudgetView, kind: ResourceKind, amount: u64, span: SpanId)
    requires
        b.limits.contains_key(kind),
        amount_of(b.spent, kind) + amount <= b.limits[kind],
    ensures
        amount_of(after_spend(b, kind, amount, span).spent, kind) + remaining_of(
            after_spend(b, kind, amount, span),
            kind,
        ) == b.limits[kind],
{
}

/// Law: without a cap, a resource is never exhausted, whatever was spent.
pub proof fn law_unlimited_never_exhausted(b: BudgetView, kind: ResourceKind, amount: u64, span: SpanId)
    requires
        !b.limits.contains_key(kind),
    ensures
        remaining_of(after_spend(b, kind, amount, span), kind) == u64::MAX,
{
}

/// Law: a span's attributed spend grows by exactly what it spends, and other
/// spans' attribution is unchanged.
pub proof fn law_span_attribution(b: BudgetView, kind: ResourceKind, amount: u64, span: SpanId, other: SpanId)
    requires
        span_amount(b, span, kind) + amount <= u64::MAX,
        other != span,
    ensures
        span_amount(after_spend(b, kind, amount, span), span, kind) == span_amount(b, span, kind) + amount,
        span_amount(after_spend(b, kind, amount, span), other, kind) == span_amount(b, other, kind),
{
}

} // verus!
