//! Causal memory: a record of why things happened.
//!
//! The trace is a tree of `Span`s. Each span records its cause (a parent
//! span, a prior effect, a loop iteration or an external trigger), the slots
//! it read, the writes it made, and the effects it produced. Effects can
//! depend on other effects, across spans.

use crate::blackboard::WriteRecord;
use crate::clock::{utc_now, Timestamp};
use crate::id::{has_v4_layout, AgentId, NodeId, SpanId, TraceId};
use crate::id_map::IdMap;
use vstd::prelude::*;
use vstd::string::StringExecFns;

verus! {

broadcast use vstd::std_specs::vec::group_vec_axioms;

/// An effect id, unique within a trace.
#[derive(Clone, Copy, Debug, PartialEq, Eq, Structural, Hash)]
pub struct EffectId(pub u64);

/// Why a span exists.
#[derive(Debug)]
pub enum Cause {
    /// External trigger (user request, scheduler).
    External(String),
    /// Spawned by a parent span.
    Parent(SpanId),
    /// Caused by a specific prior effect.
    Effect(EffectId),
    /// A loop iteration, caused by the previous iteration's span.
    LoopIteration(SpanId, u32),
}

impl Clone for Cause {
    fn clone(&self) -> (r: Self)
        ensures
            same_cause(r, *self),
    {
        match self {
            Cause::External(s) => Cause::External(s.clone()),
            Cause::Parent(p) => Cause::Parent(*p),
            Cause::Effect(e) => Cause::Effect(*e),
            Cause::LoopIteration(p, i) => Cause::LoopIteration(*p, *i),
        }
    }
}

/// Causes that a clone cannot tell apart.
pub open spec fn same_cause(a: Cause, b: Cause) -> bool {
    match (a, b) {
        (Cause::External(x), Cause::External(y)) => x@ == y@,
        _ => a == b,
    }
}

/// The span a cause names as its parent: the parent span, or the previous
/// iteration of a loop.
pub open spec fn parent_of(c: Cause) -> Option<SpanId> {
    match c {
        Cause::Parent(p) => Some(p),
        Cause::LoopIteration(p, _) => Some(p),
        _ => None,
    }
}

impl Cause {
    pub fn parent_span(&self) -> (r: Option<SpanId>)
        ensures
            r == parent_of(*self),
    {
        match self {
            Cause::Parent(p) => Some(*p),
            Cause::LoopIteration(p, _) => Some(*p),
            _ => None,
        }
    }
}

/// What kind of effect a span produced.
#[derive(Debug)]
pub enum EffectKind {
    Decision,
    Output,
    WriteSlot(String),
    Escalation,
    Interrupt,
}

/// Kinds that a clone cannot tell apart.
pub open spec fn same_effect_kind(a: EffectKind, b: EffectKind) -> bool {
    match (a, b) {
        (EffectKind::WriteSlot(x), EffectKind::WriteSlot(y)) => x@ == y@,
        (EffectKind::WriteSlot(_), _) => false,
        (_, EffectKind::WriteSlot(_)) => false,
        _ => a == b,
    }
}

impl Clone for EffectKind {
    fn clone(&self) -> (r: Self)
        ensures
            same_effect_kind(r, *self),
    {
        match self {
            EffectKind::Decision => EffectKind::Decision,
            EffectKind::Output => EffectKind::Output,
            EffectKind::WriteSlot(s) => EffectKind::WriteSlot(s.clone()),
            EffectKind::Escalation => EffectKind::Escalation,
            EffectKind::Interrupt => EffectKind::Interrupt,
        }
    }
}

/// An effect a span produced (a decision, an output, a side effect).
#[derive(Debug)]
pub struct Effect {
    pub id: EffectId,
    pub span: SpanId,
    pub kind: EffectKind,
    pub description: String,
    /// Effects this one depends on.
    pub depends_on: Vec<EffectId>,
}

/// Effects that a clone cannot tell apart.
pub open spec fn effect_copy(a: Effect, b: Effect) -> bool {
    &&& a.id == b.id
    &&& a.span == b.span
    &&& same_effect_kind(a.kind, b.kind)
    &&& a.description@ == b.description@
    &&& a.depends_on@ == b.depends_on@
}

impl Clone for Effect {
    fn clone(&self) -> (r: Self)
        ensures
            effect_copy(r, *self),
    {
        Effect {
            id: self.id,
            span: self.span,
            kind: self.kind.clone(),
            description: self.description.clone(),
            depends_on: self.depends_on.clone(),
        }
    }
}

/// One span in the causal trace.
#[derive(Debug)]
pub struct Span {
    pub id: SpanId,
    pub trace: TraceId,
    pub node: NodeId,
    pub agent: AgentId,
    pub cause: Cause,
    pub reads: Vec<String>,
    pub writes: Vec<WriteRecord>,
    pub effects: Vec<Effect>,
    pub started_at: Timestamp,
    pub ended_at: Option<Timestamp>,
}

/// The ids of a list of effects.
pub open spec fn effect_ids(effects: Seq<Effect>) -> Seq<EffectId> {
    Seq::new(effects.len(), |i: int| effects[i].id)
}

/// The views of a list of strings.
pub open spec fn string_views(v: Seq<String>) -> Seq<Seq<char>> {
    Seq::new(v.len(), |i: int| v[i]@)
}

/// The views of a list of write records.
pub open spec fn write_views(w: Seq<WriteRecord>) -> Seq<crate::blackboard::WriteView> {
    Seq::new(w.len(), |i: int| w[i]@)
}

/// Spans that a clone cannot tell apart.
pub open spec fn span_copy(a: Span, b: Span) -> bool {
    &&& a.id == b.id
    &&& a.trace == b.trace
    &&& a.node == b.node
    &&& a.agent == b.agent
    &&& same_cause(a.cause, b.cause)
    &&& string_views(a.reads@) == string_views(b.reads@)
    &&& write_views(a.writes@) == write_views(b.writes@)
    &&& a.effects@.len() == b.effects@.len()
    &&& forall|i: int| 0 <= i < a.effects@.len() ==> effect_copy(#[trigger] a.effects@[i], b.effects@[i])
    &&& a.started_at == b.started_at
    &&& a.ended_at == b.ended_at
}

impl Clone for Span {
    fn clone(&self) -> (r: Self)
        ensures
            span_copy(r, *self),
    {
        let mut reads: Vec<String> = Vec::new();
        let mut i: usize = 0;
        while i < self.reads.len()
            invariant
                i <= self.reads@.len(),
                reads@.len() == i,
                forall|k: int| 0 <= k < i ==> (#[trigger] reads@[k])@ == self.reads@[k]@,
            decreases self.reads.len() - i,
        {
            reads.push(self.reads[i].clone());
            i = i + 1;
        }
        let mut writes: Vec<WriteRecord> = Vec::new();
        let mut j: usize = 0;
        while j < self.writes.len()
            invariant
                j <= self.writes@.len(),
                writes@.len() == j,
                forall|k: int| 0 <= k < j ==> (#[trigger] writes@[k])@ == self.writes@[k]@,
            decreases self.writes.len() - j,
        {
            writes.push(self.writes[j].clone());
            j = j + 1;
        }
        let mut effects: Vec<Effect> = Vec::new();
        let mut k: usize = 0;
        while k < self.effects.len()
            invariant
                k <= self.effects@.len(),
                effects@.len() == k,
                forall|q: int| 0 <= q < k ==> effect_copy(#[trigger] effects@[q], self.effects@[q]),
            decreases self.effects.len() - k,
        {
            effects.push(self.effects[k].clone());
            k = k + 1;
        }
        proof {
            assert(string_views(reads@) =~= string_views(self.reads@));
            assert(write_views(writes@) =~= write_views(self.writes@));
        }
        Span {
            id: self.id,
            trace: self.trace,
            node: self.node,
            agent: self.agent,
            cause: self.cause.clone(),
            reads,
            writes,
            effects,
            started_at: self.started_at,
            ended_at: self.ended_at,
        }
    }
}

impl Span {
    /// A span that starts now, with nothing recorded yet.
    pub fn new(id: SpanId, trace: TraceId, node: NodeId, agent: AgentId, cause: Cause) -> (r: Self)
        ensures
            r.id == id && r.trace == trace && r.node == node && r.agent == agent && r.cause == cause,
            r.reads@.len() == 0 && r.writes@.len() == 0 && r.effects@.len() == 0,
            r.started_at.valid(),
            r.ended_at is None,
    {
        Span {
            id,
            trace,
            node,
            agent,
            cause,
            reads: Vec::new(),
            writes: Vec::new(),
            effects: Vec::new(),
            started_at: utc_now(),
            ended_at: None,
        }
    }

    /// Mark the span as ended now.
    pub fn end(&mut self)
        ensures
            final(self).ended_at matches Some(t) && t.valid(),
            *final(self) == (Span { ended_at: final(self).ended_at, ..*old(self) }),
    {
        self.ended_at = Some(utc_now());
    }

    pub fn record_read(&mut self, slot: String)
        ensures
            *final(self) == (Span { reads: final(self).reads, ..*old(self) }),
            final(self).reads@ == old(self).reads@.push(slot),
    {
        self.reads.push(slot);
    }

    pub fn record_writes(&mut self, recs: Vec<WriteRecord>)
        ensures
            *final(self) == (Span { writes: final(self).writes, ..*old(self) }),
            final(self).writes@ == old(self).writes@ + recs@,
    {
        let mut recs = recs;
        self.writes.append(&mut recs);
    }

    /// Add an effect numbered by its position among this span's effects.
    pub fn add_effect(&mut self, kind: EffectKind, description: &str, depends_on: Vec<EffectId>) -> (r: EffectId)
        requires
            old(self).effects@.len() < u64::MAX,
        ensures
            r == EffectId(old(self).effects@.len() as u64),
            *final(self) == (Span { effects: final(self).effects, ..*old(self) }),
            final(self).effects@.len() == old(self).effects@.len() + 1,
            final(self).effects@.drop_last() == old(self).effects@,
            final(self).effects@.last().id == r,
            final(self).effects@.last().span == old(self).id,
            final(self).effects@.last().kind == kind,
            final(self).effects@.last().description@ == description@,
            final(self).effects@.last().depends_on == depends_on,
    {
        let id = EffectId(self.effects.len() as u64);
        self.effects.push(Effect {
            id,
            span: self.id,
            kind,
            description: String::from_str(description),
            depends_on,
        });
        assert(self.effects@.drop_last() =~= old(self).effects@);
        id
    }
}

/// Do the effects of these spans, in order, that depend on `e`.
pub open spec fn dependents_in(spans: Seq<Span>, e: EffectId) -> Seq<EffectId>
    decreases spans.len(),
{
    if spans.len() == 0 {
        Seq::empty()
    } else {
        dependents_in(spans.drop_last(), e) + effect_ids(
            spans.last().effects@.filter(|x: Effect| x.depends_on@.contains(e)),
        )
    }
}

/// The causal trace: spans by id, their insertion order, and the children of
/// each span.
pub struct CausalTrace {
    pub id: TraceId,
    spans: IdMap<Span>,
    children: IdMap<Vec<SpanId>>,
    order: Vec<SpanId>,
    next_effect: u64,
}

/// The model of a trace.
pub struct TraceView {
    pub id: TraceId,
    pub spans: Map<u128, Span>,
    pub children: Map<u128, Seq<SpanId>>,
    pub order: Seq<SpanId>,
    pub next_effect: u64,
}

impl View for CausalTrace {
    type V = TraceView;

    closed spec fn view(&self) -> TraceView {
        TraceView {
            id: self.id,
            spans: self.spans.map(),
            children: self.children.map().map_values(|v: Vec<SpanId>| v@),
            order: self.order@,
            next_effect: self.next_effect,
        }
    }
}

/// The children of a span recorded so far.
pub open spec fn children_in(t: TraceView, s: SpanId) -> Seq<SpanId> {
    if t.children.contains_key(s.0) {
        t.children[s.0]
    } else {
        Seq::empty()
    }
}

impl CausalTrace {
    /// Span ids and child lists are keyed consistently.
    pub closed spec fn wf(&self) -> bool {
        &&& self.spans.wf()
        &&& self.children.wf()
        &&& forall|i: int| 0 <= i < self.spans.entries@.len() ==> (#[trigger] self.spans.entries@[i]).1.id.0
            == self.spans.entries@[i].0
    }

    /// The spans in their table order.
    pub closed spec fn span_seq(&self) -> Seq<Span> {
        Seq::new(self.spans.entries@.len(), |i: int| self.spans.entries@[i].1)
    }

    /// An empty trace under a fresh random id.
    pub fn new() -> (r: Self)
        ensures
            r.wf(),
            has_v4_layout(r@.id.0),
            r@.spans == Map::<u128, Span>::empty(),
            r@.children == Map::<u128, Seq<SpanId>>::empty(),
            r@.order.len() == 0,
            r@.next_effect == 0,
    {
        let r = CausalTrace {
            id: TraceId::new(),
            spans: IdMap::new(),
            children: IdMap::new(),
            order: Vec::new(),
            next_effect: 0,
        };
        assert(r@.children =~= Map::<u128, Seq<SpanId>>::empty());
        r
    }

    /// Open a span under a fresh id, and list it as a child of the span its
    /// cause names as parent.
    pub fn open(&mut self, node: NodeId, agent: AgentId, cause: Cause) -> (r: SpanId)
        requires
            old(self).wf(),
        ensures
            final(self).wf(),
            final(self)@.spans.contains_key(r.0),
            final(self)@.spans == old(self)@.spans.insert(r.0, final(self)@.spans[r.0]),
            final(self)@.spans[r.0].id == r,
            final(self)@.spans[r.0].node == node,
            final(self)@.spans[r.0].agent == agent,
            final(self)@.spans[r.0].cause == cause,
            final(self)@.spans[r.0].trace == old(self)@.id,
            final(self)@.spans[r.0].reads@.len() == 0,
            final(self)@.spans[r.0].writes@.len() == 0,
            final(self)@.spans[r.0].effects@.len() == 0,
            final(self)@.spans[r.0].ended_at is None,
            final(self)@.order == old(self)@.order.push(r),
            final(self)@.children == match parent_of(cause) {
                Some(p) => old(self)@.children.insert(p.0, children_in(old(self)@, p).push(r)),
                None => old(self)@.children,
            },
            final(self)@.id == old(self)@.id,
            final(self)@.next_effect == old(self)@.next_effect,
    {
        let id = SpanId::new();
        let parent = cause.parent_span();
        let span = Span::new(id, self.id, node, agent, cause);
        self.spans.insert(id.0, span);
        self.order.push(id);
        match parent {
            Some(p) => {
                let mut list: Vec<SpanId> = match self.children.get(p.0) {
                    Some(v) => v.clone(),
                    None => Vec::new(),
                };
                list.push(id);
                self.children.insert(p.0, list);
                proof {
                    assert(self@.children =~= old(self)@.children.insert(p.0, children_in(old(self)@, p).push(id)));
                }
            },
            None => {},
        }
        proof {
            assert forall|i: int| 0 <= i < self.spans.entries@.len() implies (#[trigger] self.spans.entries@[i]).1.id.0
                == self.spans.entries@[i].0 by {
                crate::id_map::lemma_id_entry_in_map(self.spans.entries@, i);
                if self.spans.entries@[i].0 != id.0 {
                    crate::id_map::lemma_id_entry_in_map(old(self).spans.entries@, crate::id_map::id_index(old(self).spans.entries@, self.spans.entries@[i].0));
                }
            }
        }
        id
    }

    /// Record that a span read a slot (ignored for an unknown span).
    pub fn record_read(&mut self, span: SpanId, slot: String)
        requires
            old(self).wf(),
        ensures
            final(self).wf(),
            old(self)@.spans.contains_key(span.0) ==> final(self)@.spans == old(self)@.spans.insert(
                span.0,
                Span { reads: final(self)@.spans[span.0].reads, ..old(self)@.spans[span.0] },
            ) && final(self)@.spans[span.0].reads@ == old(self)@.spans[span.0].reads@.push(slot),
            !old(self)@.spans.contains_key(span.0) ==> final(self)@.spans == old(self)@.spans,
            final(self)@.children == old(self)@.children,
            final(self)@.order == old(self)@.order,
            final(self)@.next_effect == old(self)@.next_effect,
    {
        match self.spans.find(span.0) {
            Some(i) => {
                let mut entry = self.spans.remove_at(i);
                entry.1.record_read(slot);
                self.spans.insert(span.0, entry.1);
                proof {
                    crate::id_map::lemma_id_entry_in_map(old(self).spans.entries@, i as int);
                    assert(self@.spans =~= old(self)@.spans.insert(span.0, self@.spans[span.0]));
                    self.lemma_ids_match(old(self).spans.entries@, span.0);
                }
            },
            None => {},
        }
    }

    proof fn lemma_ids_match(&self, before: Seq<(u128, Span)>, k: u128)
        requires
            self.spans.wf(),
            crate::id_map::ids_distinct(before),
            forall|i: int| 0 <= i < before.len() ==> (#[trigger] before[i]).1.id.0 == before[i].0,
            self.spans.map().contains_key(k),
            self.spans.map()[k].id.0 == k,
            self.spans.map() == crate::id_map::id_entries_map(before).insert(k, self.spans.map()[k]),
        ensures
            forall|i: int| 0 <= i < self.spans.entries@.len() ==> (#[trigger] self.spans.entries@[i]).1.id.0
                == self.spans.entries@[i].0,
    {
        assert forall|i: int| 0 <= i < self.spans.entries@.len() implies (#[trigger] self.spans.entries@[i]).1.id.0
            == self.spans.entries@[i].0 by {
            crate::id_map::lemma_id_entry_in_map(self.spans.entries@, i);
            let key = self.spans.entries@[i].0;
            if key != k {
                let j = crate::id_map::id_index(before, key);
                crate::id_map::lemma_id_entry_in_map(before, j);
            }
        }
    }

    /// Record writes drained from the blackboard into a span (ignored for
    /// an unknown span).
    pub fn record_writes(&mut self, span: SpanId, recs: Vec<WriteRecord>)
        requires
            old(self).wf(),
        ensures
            final(self).wf(),
            old(self)@.spans.contains_key(span.0) ==> final(self)@.spans == old(self)@.spans.insert(
                span.0,
                Span { writes: final(self)@.spans[span.0].writes, ..old(self)@.spans[span.0] },
            ) && final(self)@.spans[span.0].writes@ == old(self)@.spans[span.0].writes@ + recs@,
            !old(self)@.spans.contains_key(span.0) ==> final(self)@.spans == old(self)@.spans,
            final(self)@.children == old(self)@.children,
            final(self)@.order == old(self)@.order,
            final(self)@.next_effect == old(self)@.next_effect,
    {
        match self.spans.find(span.0) {
            Some(i) => {
                let mut entry = self.spans.remove_at(i);
                entry.1.record_writes(recs);
                self.spans.insert(span.0, entry.1);
                proof {
                    crate::id_map::lemma_id_entry_in_map(old(self).spans.entries@, i as int);
                    assert(self@.spans =~= old(self)@.spans.insert(span.0, self@.spans[span.0]));
                    self.lemma_ids_match(old(self).spans.entries@, span.0);
                }
            },
            None => {},
        }
    }

    /// Add an effect to a span, numbered by the trace-wide counter so that
    /// effect ids are unique across spans. `None` for an unknown span.
    pub fn add_effect(&mut self, span: SpanId, kind: EffectKind, description: &str, depends_on: Vec<EffectId>) -> (r: Option<EffectId>)
        requires
            old(self).wf(),
            old(self)@.next_effect < u64::MAX,
        ensures
            final(self).wf(),
            r is Some <==> old(self)@.spans.contains_key(span.0),
            r matches Some(id) ==> {
                &&& effect_issued(old(self)@, final(self)@, id)
                &&& final(self)@.spans == old(self)@.spans.insert(
                    span.0,
                    Span { effects: final(self)@.spans[span.0].effects, ..old(self)@.spans[span.0] },
                )
                &&& final(self)@.spans[span.0].effects@ == old(self)@.spans[span.0].effects@.push(
                    Effect { id, span, kind, description: final(self)@.spans[span.0].effects@.last().description, depends_on },
                )
                &&& final(self)@.spans[span.0].effects@.last().description@ == description@
            },
            r is None ==> final(self)@ == old(self)@,
            final(self)@.children == old(self)@.children,
            final(self)@.order == old(self)@.order,
    {
        match self.spans.find(span.0) {
            Some(i) => {
                let mut entry = self.spans.remove_at(i);
                self.next_effect = self.next_effect + 1;
                let id = EffectId(self.next_effect);
                let ghost before_effects = entry.1.effects@;
                entry.1.effects.push(Effect {
                    id,
                    span,
                    kind,
                    description: String::from_str(description),
                    depends_on,
                });
                self.spans.insert(span.0, entry.1);
                proof {
                    crate::id_map::lemma_id_entry_in_map(old(self).spans.entries@, i as int);
                    assert(self@.spans =~= old(self)@.spans.insert(span.0, self@.spans[span.0]));
                    self.lemma_ids_match(old(self).spans.entries@, span.0);
                }
                Some(id)
            },
            None => None,
        }
    }

    /// Close a span (ignored for an unknown span).
    pub fn close(&mut self, span: SpanId)
        requires
            old(self).wf(),
        ensures
            final(self).wf(),
            old(self)@.spans.contains_key(span.0) ==> final(self)@.spans == old(self)@.spans.insert(
                span.0,
                Span { ended_at: final(self)@.spans[span.0].ended_at, ..old(self)@.spans[span.0] },
            ) && final(self)@.spans[span.0].ended_at is Some,
            !old(self)@.spans.contains_key(span.0) ==> final(self)@.spans == old(self)@.spans,
            final(self)@.children == old(self)@.children,
            final(self)@.order == old(self)@.order,
            final(self)@.next_effect == old(self)@.next_effect,
    {
        match self.spans.find(span.0) {
            Some(i) => {
                let mut entry = self.spans.remove_at(i);
                entry.1.end();
                self.spans.insert(span.0, entry.1);
                proof {
                    crate::id_map::lemma_id_entry_in_map(old(self).spans.entries@, i as int);
                    assert(self@.spans =~= old(self)@.spans.insert(span.0, self@.spans[span.0]));
                    self.lemma_ids_match(old(self).spans.entries@, span.0);
                }
            },
            None => {},
        }
    }

    /// A copy of a span.
    pub fn get(&self, span: SpanId) -> (r: Option<Span>)
        requires
            self.wf(),
        ensures
            r is Some <==> self@.spans.contains_key(span.0),
            r matches Some(s) ==> s.id == span && span_copy(s, self@.spans[span.0]),
    {
        match self.spans.get(span.0) {
            Some(s) => {
                proof {
                    let i = crate::id_map::id_index(self.spans.entries@, span.0);
                    crate::id_map::lemma_id_entry_in_map(self.spans.entries@, i);
                }
                Some(s.clone())
            },
            None => None,
        }
    }

    /// The children of a span, in the order they were opened.
    pub fn children_of(&self, span: SpanId) -> (r: Vec<SpanId>)
        requires
            self.wf(),
        ensures
            r@ == children_in(self@, span),
    {
        match self.children.get(span.0) {
            Some(v) => v.clone(),
            None => Vec::new(),
        }
    }

    /// All spans in the order they were opened.
    pub fn all_spans(&self) -> (r: Vec<Span>)
        requires
            self.wf(),
        ensures
            span_ids(r@) == listed_spans(self@),
            forall|i: int| 0 <= i < r@.len() ==> span_copy(#[trigger] r@[i], self@.spans[r@[i].id.0]),
    {
        let mut out: Vec<Span> = Vec::new();
        let mut i: usize = 0;
        let ghost present = |s: SpanId| self@.spans.contains_key(s.0);
        while i < self.order.len()
            invariant
                i <= self.order@.len(),
                self.wf(),
                present == (|s: SpanId| self@.spans.contains_key(s.0)),
                span_ids(out@) == self@.order.take(i as int).filter(present),
                forall|k: int| 0 <= k < out@.len() ==> span_copy(#[trigger] out@[k], self@.spans[out@[k].id.0]),
            decreases self.order.len() - i,
        {
            let ghost before = out@;
            let got = self.get(self.order[i]);
            proof {
                reveal(Seq::filter);
                assert(self@.order.take(i + 1).drop_last() =~= self@.order.take(i as int));
            }
            match got {
                Some(s) => {
                    out.push(s);
                    assert(span_ids(out@) =~= span_ids(before).push(self@.order[i as int]));
                },
                None => {},
            }
            i = i + 1;
        }
        proof {
            assert(self@.order.take(self@.order.len() as int) =~= self@.order);
        }
        out
    }

    /// The number of effect ids handed out so far.
    pub fn effects_issued(&self) -> (r: u64)
        ensures
            r == self@.next_effect,
    {
        self.next_effect
    }

    /// The trace's id.
    pub fn trace_id(&self) -> (r: TraceId)
        ensures
            r == self@.id,
    {
        self.id
    }

    /// Number of spans.
    pub fn len(&self) -> (r: usize)
        requires
            self.wf(),
        ensures
            r == self@.spans.dom().len(),
    {
        self.spans.len()
    }

    pub fn is_empty(&self) -> (r: bool)
        requires
            self.wf(),
        ensures
            r == (self@.spans.dom().len() == 0),
    {
        self.spans.len() == 0
    }

    /// The effects that depend on `effect` (reverse causality), span by span
    /// in table order.
    pub fn dependents_of(&self, effect: EffectId) -> (r: Vec<EffectId>)
        requires
            self.wf(),
        ensures
            r@ == dependents_in(self.span_seq(), effect),
    {
        let mut out: Vec<EffectId> = Vec::new();
        let n = self.spans.entries.len();
        let mut i: usize = 0;
        while i < n
            invariant
                n == self.spans.entries@.len(),
                i <= n,
                out@ == dependents_in(self.span_seq().take(i as int), effect),
            decreases n - i,
        {
            let effects = &self.spans.entries[i].1.effects;
            let ghost start = out@;
            let mut k: usize = 0;
            while k < effects.len()
                invariant
                    k <= effects@.len(),
                    out@ == start + effect_ids(effects@.take(k as int).filter(|x: Effect| x.depends_on@.contains(effect))),
                decreases effects.len() - k,
            {
                let deps = &effects[k].depends_on;
                let mut found = false;
                let mut q: usize = 0;
                while q < deps.len()
                    invariant
                        q <= deps@.len(),
                        found == deps@.take(q as int).contains(effect),
                    decreases deps.len() - q,
                {
                    let ghost prefix = deps@.take(q as int);
                    proof {
                        assert(deps@.take(q + 1) =~= prefix.push(deps@[q as int]));
                        assert(deps@.take(q + 1).contains(effect) == (prefix.contains(effect) || deps@[q as int] == effect)) by {
                            if deps@[q as int] == effect {
                                assert(deps@.take(q + 1)[q as int] == effect);
                            }
                            if prefix.contains(effect) {
                                let w = choose|w: int| 0 <= w < prefix.len() && prefix[w] == effect;
                                assert(deps@.take(q + 1)[w] == effect);
                            }
                            let grown = deps@.take(q + 1);
                            if grown.contains(effect) {
                                let w = choose|w: int| 0 <= w < grown.len() && grown[w] == effect;
                                if w < q {
                                    assert(prefix[w] == effect);
                                }
                            }
                        }
                    }
                    if deps[q] == effect {
                        found = true;
                    }
                    q = q + 1;
                }
                proof {
                    assert(deps@.take(deps@.len() as int) =~= deps@);
                    let pred = |x: Effect| x.depends_on@.contains(effect);
                    assert(effects@.take(k + 1) =~= effects@.take(k as int).push(effects@[k as int]));
                    reveal(Seq::filter);
                    assert(effects@.take(k + 1).drop_last() =~= effects@.take(k as int));
                }
                if found {
                    out.push(effects[k].id);
                }
                proof {
                    let pred = |x: Effect| x.depends_on@.contains(effect);
                    if found {
                        assert(out@ =~= start + effect_ids(effects@.take(k + 1).filter(pred)));
                    } else {
                        assert(out@ =~= start + effect_ids(effects@.take(k + 1).filter(pred)));
                    }
                }
                k = k + 1;
            }
            proof {
                assert(effects@.take(effects@.len() as int) =~= effects@);
                assert(self.span_seq().take(i + 1).drop_last() =~= self.span_seq().take(i as int));
            }
            i = i + 1;
        }
        proof {
            assert(self.span_seq().take(n as int) =~= self.span_seq());
        }
        out
    }
}

/// The ids of a list of spans.
pub open spec fn span_ids(spans: Seq<Span>) -> Seq<SpanId> {
    Seq::new(spans.len(), |i: int| spans[i].id)
}

/// The opening order of a trace, keeping the ids that name a span.
pub open spec fn listed_spans(t: TraceView) -> Seq<SpanId> {
    t.order.filter(|s: SpanId| t.spans.contains_key(s.0))
}

/// `id` is the effect id that turned the trace `before` into `after`.
pub open spec fn effect_issued(before: TraceView, after: TraceView, id: EffectId) -> bool {
    &&& id.0 == before.next_effect + 1
    &&& after.next_effect == id.0
}

/// Law: effect ids are unique across a trace. Of two effects issued one
/// after the other (with any operations in between, none of which lowers the
/// counter), the later one has the larger id.
pub proof fn law_effect_ids_increase(
    t0: TraceView,
    t1: TraceView,
    first: EffectId,
    t2: TraceView,
    t3: TraceView,
    second: EffectId,
)
    requires
        effect_issued(t0, t1, first),
        t1.next_effect <= t2.next_effect,
        effect_issued(t2, t3, second),
    ensures
        first.0 < second.0,
        first != second,
{
}


/// Every item kept by a filter is an item of the sequence.
proof fn lemma_filter_item<A>(s: Seq<A>, pred: spec_fn(A) -> bool, i: int)
    requires
        0 <= i < s.filter(pred).len(),
    ensures
        exists|k: int| 0 <= k < s.len() && s[k] == s.filter(pred)[i],
    decreases s.len(),
{
    reveal(Seq::filter);
    let sub = s.drop_last().filter(pred);
    if pred(s.last()) && i == sub.len() {
        assert(s[s.len() - 1] == s.filter(pred)[i]);
    } else {
        assert(s.filter(pred)[i] == sub[i]);
        lemma_filter_item(s.drop_last(), pred, i);
        let k = choose|k: int| 0 <= k < s.drop_last().len() && s.drop_last()[k] == sub[i];
        assert(s[k] == s.drop_last()[k]);
    }
}

/// Law: reverse causality. An effect of the spans is listed among the
/// dependents of `e` exactly when its own list of dependencies holds `e`,
/// wherever in that list.
pub proof fn law_dependents_are_the_effects_that_depend(spans: Seq<Span>, e: EffectId)
    ensures
        forall|s: int, k: int|
            0 <= s < spans.len() && 0 <= k < spans[s].effects@.len() && (exists|j: int|
                0 <= j < spans[s].effects@[k].depends_on@.len() && spans[s].effects@[k].depends_on@[j] == e)
                ==> dependents_in(spans, e).contains(#[trigger] spans[s].effects@[k].id),
        forall|d: EffectId|
            #[trigger] dependents_in(spans, e).contains(d) ==> exists|s: int, k: int|
                0 <= s < spans.len() && 0 <= k < spans[s].effects@.len() && spans[s].effects@[k].id == d && (exists|
                    j: int,
                |
                    0 <= j < spans[s].effects@[k].depends_on@.len() && spans[s].effects@[k].depends_on@[j] == e),
    decreases spans.len(),
{
    if spans.len() > 0 {
        let init = spans.drop_last();
        let last = spans.last();
        let pred = |x: Effect| x.depends_on@.contains(e);
        let kept = last.effects@.filter(pred);
        law_dependents_are_the_effects_that_depend(init, e);
        assert(dependents_in(spans, e) == dependents_in(init, e) + effect_ids(kept));
        assert forall|s: int, k: int|
            0 <= s < spans.len() && 0 <= k < spans[s].effects@.len() && (exists|j: int|
                0 <= j < spans[s].effects@[k].depends_on@.len() && spans[s].effects@[k].depends_on@[j] == e)
                implies dependents_in(spans, e).contains(#[trigger] spans[s].effects@[k].id) by {
            let x = spans[s].effects@[k];
            let j = choose|j: int| 0 <= j < x.depends_on@.len() && x.depends_on@[j] == e;
            assert(x.depends_on@.contains(e));
            if s < spans.len() - 1 {
                assert(spans[s] == init[s]);
                let w = choose|w: int| 0 <= w < dependents_in(init, e).len() && dependents_in(init, e)[w] == x.id;
                assert(dependents_in(spans, e)[w] == x.id);
            } else {
                assert(pred(last.effects@[k]));
                last.effects@.lemma_filter_contains(pred, k);
                let w = choose|w: int| 0 <= w < kept.len() && kept[w] == x;
                assert(effect_ids(kept)[w] == x.id);
                assert(dependents_in(spans, e)[dependents_in(init, e).len() + w] == x.id);
            }
        }
        assert forall|d: EffectId| #[trigger] dependents_in(spans, e).contains(d) implies exists|s: int, k: int|
            0 <= s < spans.len() && 0 <= k < spans[s].effects@.len() && spans[s].effects@[k].id == d && (exists|
                j: int,
            |
                0 <= j < spans[s].effects@[k].depends_on@.len() && spans[s].effects@[k].depends_on@[j] == e) by {
            let all = dependents_in(spans, e);
            let w = choose|w: int| 0 <= w < all.len() && all[w] == d;
            if w < dependents_in(init, e).len() {
                assert(dependents_in(init, e)[w] == d);
                assert(dependents_in(init, e).contains(d));
                let (s, k) = choose|s: int, k: int|
                    0 <= s < init.len() && 0 <= k < init[s].effects@.len() && init[s].effects@[k].id == d && (exists|
                        j: int,
                    |
                        0 <= j < init[s].effects@[k].depends_on@.len() && init[s].effects@[k].depends_on@[j] == e);
                assert(spans[s] == init[s]);
            } else {
                let v = w - dependents_in(init, e).len();
                assert(effect_ids(kept)[v] == d);
                last.effects@.lemma_filter_pred(pred, v);
                lemma_filter_item(last.effects@, pred, v);
                let k = choose|k: int| 0 <= k < last.effects@.len() && last.effects@[k] == kept[v];
                assert(kept[v].depends_on@.contains(e));
                assert(spans[spans.len() - 1] == last);
                assert(spans[spans.len() - 1].effects@[k].id == d);
            }
        }
    }
}

} // verus!
