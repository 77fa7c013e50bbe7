//! Records of a causal trace, shaped for persistence.
//!
//! A `TraceRecord` is a plain copy of a `CausalTrace`: its spans in the order
//! they were opened, each with its cause, reads, writes and effects, and the
//! children of each span keyed by the parent's display text.

use crate::blackboard::WriteRecord;
use crate::causal::{
    listed_spans, parent_of, span_copy, span_ids, string_views, CausalTrace, Cause, Effect, EffectKind, Span,
    TraceView,
};
use crate::clock::Timestamp;
use crate::id::{uuid_hyphenated, AgentId, NodeId, SpanId, TraceId};
use crate::str_map::{entries_map, StrMap};
use crate::value::Value;
use vstd::prelude::*;
use vstd::string::StringExecFns;

verus! {

broadcast use vstd::std_specs::vec::group_vec_axioms;

/// A recorded cause.
#[derive(Debug)]
pub enum CauseRecord {
    External(String),
    Parent(SpanId),
    Effect(u64),
    LoopIteration(SpanId, u32),
}

/// A recorded blackboard write.
#[derive(Debug)]
pub struct WriteRecordSer {
    pub slot: String,
    pub writer: AgentId,
    pub value: Value,
    pub seq: u64,
}

/// A recorded effect, with its kind as text and its ids as numbers.
#[derive(Debug)]
pub struct EffectRecord {
    pub id: u64,
    pub span: SpanId,
    pub kind: String,
    pub description: String,
    pub depends_on: Vec<u64>,
}

/// A recorded span.
#[derive(Debug)]
pub struct SpanRecord {
    pub id: SpanId,
    pub node: NodeId,
    pub agent: AgentId,
    pub cause: CauseRecord,
    pub reads: Vec<String>,
    pub writes: Vec<WriteRecordSer>,
    pub effects: Vec<EffectRecord>,
    pub started_at: Timestamp,
    pub ended_at: Option<Timestamp>,
}

/// A recorded trace.
pub struct TraceRecord {
    pub id: TraceId,
    pub spans: Vec<SpanRecord>,
    /// The children of each span, keyed by the parent's display text, each
    /// key once.
    pub children: Vec<(String, Vec<SpanId>)>,
}

/// `r` records the cause `c`.
pub open spec fn records_cause(r: CauseRecord, c: Cause) -> bool {
    match (r, c) {
        (CauseRecord::External(a), Cause::External(b)) => a@ == b@,
        (CauseRecord::Parent(a), Cause::Parent(b)) => a == b,
        (CauseRecord::Effect(a), Cause::Effect(b)) => a == b.0,
        (CauseRecord::LoopIteration(a, i), Cause::LoopIteration(b, j)) => a == b && i == j,
        _ => false,
    }
}

/// The text an effect kind is recorded as.
pub open spec fn effect_kind_text(k: EffectKind) -> Seq<char> {
    match k {
        EffectKind::Decision => "decision"@,
        EffectKind::Output => "output"@,
        EffectKind::WriteSlot(s) => "write:"@ + s@,
        EffectKind::Escalation => "escalation"@,
        EffectKind::Interrupt => "interrupt"@,
    }
}

/// `r` records the write `w`.
pub open spec fn records_write(r: WriteRecordSer, w: WriteRecord) -> bool {
    r.slot@ == w.slot@ && r.writer == w.writer && r.value@ == w.value@ && r.seq == w.seq
}

/// `r` records the effect `e`.
pub open spec fn records_effect(r: EffectRecord, e: Effect) -> bool {
    &&& r.id == e.id.0
    &&& r.span == e.span
    &&& r.kind@ == effect_kind_text(e.kind)
    &&& r.description@ == e.description@
    &&& r.depends_on@ == Seq::new(e.depends_on@.len(), |i: int| e.depends_on@[i].0)
}

/// `r` records the span `s`.
pub open spec fn records_span(r: SpanRecord, s: Span) -> bool {
    &&& r.id == s.id
    &&& r.node == s.node
    &&& r.agent == s.agent
    &&& records_cause(r.cause, s.cause)
    &&& string_views(r.reads@) == string_views(s.reads@)
    &&& r.writes@.len() == s.writes@.len()
    &&& forall|i: int| 0 <= i < r.writes@.len() ==> records_write(#[trigger] r.writes@[i], s.writes@[i])
    &&& r.effects@.len() == s.effects@.len()
    &&& forall|i: int| 0 <= i < r.effects@.len() ==> records_effect(#[trigger] r.effects@[i], s.effects@[i])
    &&& r.started_at == s.started_at
    &&& r.ended_at == s.ended_at
}

/// The display text of a span id.
pub open spec fn span_text(s: SpanId) -> Seq<char> {
    "span-"@ + uuid_hyphenated(s.0)
}

/// The children lists of the first `n` listed spans, keyed by the parent's
/// display text, in the order the children were opened.
pub open spec fn children_by_text(t: TraceView, ids: Seq<SpanId>, n: int) -> Map<Seq<char>, Seq<SpanId>>
    decreases n,
{
    if n <= 0 || n > ids.len() {
        Map::empty()
    } else {
        let m = children_by_text(t, ids, n - 1);
        match parent_of(t.spans[ids[n - 1].0].cause) {
            Some(p) => {
                let k = span_text(p);
                let prev = if m.contains_key(k) {
                    m[k]
                } else {
                    Seq::empty()
                };
                m.insert(k, prev.push(ids[n - 1]))
            },
            None => m,
        }
    }
}

/// The record of a cause.
pub fn cause_to_record(c: &Cause) -> (r: CauseRecord)
    ensures
        records_cause(r, *c),
{
    match c {
        Cause::External(s) => CauseRecord::External(s.clone()),
        Cause::Parent(p) => CauseRecord::Parent(*p),
        Cause::Effect(e) => CauseRecord::Effect(e.0),
        Cause::LoopIteration(p, i) => CauseRecord::LoopIteration(*p, *i),
    }
}

/// The text an effect kind is recorded as.
pub fn effect_kind_str(k: &EffectKind) -> (r: String)
    ensures
        r@ == effect_kind_text(*k),
{
    match k {
        EffectKind::Decision => String::from_str("decision"),
        EffectKind::Output => String::from_str("output"),
        EffectKind::WriteSlot(s) => {
            let mut out = String::from_str("write:");
            out.append(s.as_str());
            out
        },
        EffectKind::Escalation => String::from_str("escalation"),
        EffectKind::Interrupt => String::from_str("interrupt"),
    }
}

fn record_effect(e: &Effect) -> (r: EffectRecord)
    ensures
        records_effect(r, *e),
{
    let mut deps: Vec<u64> = Vec::new();
    let mut i: usize = 0;
    while i < e.depends_on.len()
        invariant
            i <= e.depends_on@.len(),
            deps@ == Seq::new(i as nat, |k: int| e.depends_on@[k].0),
        decreases e.depends_on.len() - i,
    {
        deps.push(e.depends_on[i].0);
        proof {
            assert(deps@ =~= Seq::new((i + 1) as nat, |k: int| e.depends_on@[k].0));
        }
        i = i + 1;
    }
    EffectRecord {
        id: e.id.0,
        span: e.span,
        kind: effect_kind_str(&e.kind),
        description: e.description.clone(),
        depends_on: deps,
    }
}

fn record_span(s: &Span) -> (r: SpanRecord)
    ensures
        records_span(r, *s),
{
    let mut reads: Vec<String> = Vec::new();
    let mut i: usize = 0;
    while i < s.reads.len()
        invariant
            i <= s.reads@.len(),
            reads@.len() == i,
            forall|k: int| 0 <= k < i ==> (#[trigger] reads@[k])@ == s.reads@[k]@,
        decreases s.reads.len() - i,
    {
        reads.push(s.reads[i].clone());
        i = i + 1;
    }
    let mut writes: Vec<WriteRecordSer> = Vec::new();
    let mut j: usize = 0;
    while j < s.writes.len()
        invariant
            j <= s.writes@.len(),
            writes@.len() == j,
            forall|k: int| 0 <= k < j ==> records_write(#[trigger] writes@[k], s.writes@[k]),
        decreases s.writes.len() - j,
    {
        let w = &s.writes[j];
        writes.push(WriteRecordSer { slot: w.slot.clone(), writer: w.writer, value: w.value.clone(), seq: w.seq });
        j = j + 1;
    }
    let mut effects: Vec<EffectRecord> = Vec::new();
    let mut k: usize = 0;
    while k < s.effects.len()
        invariant
            k <= s.effects@.len(),
            effects@.len() == k,
            forall|q: int| 0 <= q < k ==> records_effect(#[trigger] effects@[q], s.effects@[q]),
        decreases s.effects.len() - k,
    {
        effects.push(record_effect(&s.effects[k]));
        k = k + 1;
    }
    proof {
        assert(string_views(reads@) =~= string_views(s.reads@));
    }
    SpanRecord {
        id: s.id,
        node: s.node,
        agent: s.agent,
        cause: cause_to_record(&s.cause),
        reads,
        writes,
        effects,
        started_at: s.started_at,
        ended_at: s.ended_at,
    }
}

/// A record of a span matches the record of any copy of that span.
proof fn lemma_record_of_copy(r: SpanRecord, a: Span, b: Span)
    requires
        records_span(r, a),
        span_copy(a, b),
    ensures
        records_span(r, b),
{
    assert(crate::causal::write_views(a.writes@).len() == crate::causal::write_views(b.writes@).len());
    assert forall|i: int| 0 <= i < r.writes@.len() implies records_write(#[trigger] r.writes@[i], b.writes@[i]) by {
        assert(crate::causal::write_views(a.writes@)[i] == crate::causal::write_views(b.writes@)[i]);
        assert(a.writes@[i]@ == b.writes@[i]@);
    }
    assert forall|i: int| 0 <= i < r.effects@.len() implies records_effect(#[trigger] r.effects@[i], b.effects@[i]) by {
        assert(crate::causal::effect_copy(a.effects@[i], b.effects@[i]));
        assert(Seq::new(a.effects@[i].depends_on@.len(), |q: int| a.effects@[i].depends_on@[q].0) =~= Seq::new(
            b.effects@[i].depends_on@.len(),
            |q: int| b.effects@[i].depends_on@[q].0,
        ));
    }
    match (r.cause, a.cause, b.cause) {
        (CauseRecord::External(x), Cause::External(y), Cause::External(z)) => {
            assert(x@ == z@);
        },
        _ => {},
    }
}

impl TraceRecord {
    /// Record a live trace: every span in the order opened, and the children
    /// of each parent under the parent's display text.
    pub fn from_trace(trace: &CausalTrace) -> (r: Self)
        requires
            trace.wf(),
        ensures
            r.id == trace@.id,
            Seq::new(r.spans@.len(), |i: int| r.spans@[i].id) == listed_spans(trace@),
            forall|i: int| 0 <= i < r.spans@.len() ==> records_span(#[trigger] r.spans@[i], trace@.spans[r.spans@[i].id.0]),
            crate::str_map::keys_distinct(r.children@),
            entries_map(r.children@).map_values(|v: Vec<SpanId>| v@) == children_by_text(
                trace@,
                listed_spans(trace@),
                listed_spans(trace@).len() as int,
            ),
    {
        let all = trace.all_spans();
        let mut spans: Vec<SpanRecord> = Vec::new();
        let mut i: usize = 0;
        while i < all.len()
            invariant
                i <= all@.len(),
                spans@.len() == i,
                forall|k: int| 0 <= k < all@.len() ==> span_copy(#[trigger] all@[k], trace@.spans[all@[k].id.0]),
                forall|k: int| 0 <= k < i ==> records_span(#[trigger] spans@[k], trace@.spans[all@[k].id.0]),
                forall|k: int| 0 <= k < i ==> (#[trigger] spans@[k]).id == all@[k].id,
            decreases all.len() - i,
        {
            let rec = record_span(&all[i]);
            proof {
                lemma_record_of_copy(rec, all@[i as int], trace@.spans[all@[i as int].id.0]);
            }
            spans.push(rec);
            i = i + 1;
        }
        proof {
            assert(Seq::new(spans@.len(), |k: int| spans@[k].id) =~= span_ids(all@));
        }
        let ghost ids = listed_spans(trace@);
        let mut children: StrMap<Vec<SpanId>> = StrMap::new();
        let mut j: usize = 0;
        while j < all.len()
            invariant
                j <= all@.len(),
                span_ids(all@) == ids,
                forall|k: int| 0 <= k < all@.len() ==> span_copy(#[trigger] all@[k], trace@.spans[all@[k].id.0]),
                children.wf(),
                children.map().map_values(|v: Vec<SpanId>| v@) == children_by_text(trace@, ids, j as int),
            decreases all.len() - j,
        {
            let s = &all[j];
            proof {
                assert(span_copy(all@[j as int], trace@.spans[all@[j as int].id.0]));
                assert(ids[j as int] == s.id);
            }
            match s.cause.parent_span() {
                Some(p) => {
                    let key = p.to_string();
                    let mut list: Vec<SpanId> = match children.get(key.as_str()) {
                        Some(v) => v.clone(),
                        None => Vec::new(),
                    };
                    list.push(s.id);
                    children.insert(key.as_str(), list);
                    proof {
                        assert(children.map().map_values(|v: Vec<SpanId>| v@) =~= children_by_text(
                            trace@,
                            ids,
                            j + 1,
                        ));
                    }
                },
                None => {},
            }
            j = j + 1;
        }
        proof {
            assert(all@.len() == ids.len());
        }
        TraceRecord { id: trace.trace_id(), spans, children: children.entries }
    }
}

} // verus!
