//! Working memory with decay.
//!
//! Memory that never forgets becomes noise. Entries carry a decay policy that
//! decides what to keep verbatim, what to compress into a shorter summary,
//! and what to drop, and after how long.

use crate::clock::{seconds_between, seconds_from, utc_now, Timestamp};
use crate::str_map::{has_key, key_index, lemma_entry_in_map, StrMap};
use crate::text::{decimal, decimal_string};
use crate::value::{field_views, lemma_list_view, lemma_object_view, shape_of, views_of, Value, ValueView};
use vstd::prelude::*;
use vstd::string::StringExecFns;

verus! {

broadcast use vstd::std_specs::vec::group_vec_axioms;

/// The number of UTF-8 bytes of a text, as `str::len` gives it.
pub open spec fn byte_len(s: Seq<char>) -> nat {
    (vstd::utf8::encode_utf8(s).len() as usize) as nat
}

/// The last character boundary of `bytes` at or below `b` (0 is always one).
pub open spec fn cut_point(bytes: Seq<u8>, b: int) -> int
    decreases b,
{
    if b <= 0 {
        0
    } else if vstd::utf8::is_char_boundary(bytes, b) {
        b
    } else {
        cut_point(bytes, b - 1)
    }
}

/// The summary `compress` makes of a value: a string over 64 bytes keeps its
/// longest prefix of at most 64 bytes that ends on a character boundary and
/// notes its length; a list over 8 items keeps 8 and notes
/// how many more there were; an object keeps its field names, each with the
/// shape of its value; anything else stays as it is.
pub open spec fn compressed(v: ValueView) -> ValueView {
    match v {
        ValueView::Str(s) => if byte_len(s) > 64 {
            ValueView::Str(
                vstd::utf8::decode_utf8(
                    vstd::utf8::encode_utf8(s).subrange(0, cut_point(vstd::utf8::encode_utf8(s), 64)),
                ) + "…("@ + decimal(
                    byte_len(s),
                ) + "b)"@,
            )
        } else {
            v
        },
        ValueView::List(items) => if items.len() > 8 {
            ValueView::List(
                items.take(8).push(ValueView::Str("…(+"@ + decimal((items.len() - 8) as nat) + " items)"@)),
            )
        } else {
            v
        },
        ValueView::Object(fields) => ValueView::Object(
            Seq::new(fields.len(), |i: int| (fields[i].0, ValueView::Str(shape_of(fields[i].1, 1)))),
        ),
        _ => v,
    }
}

/// Compress a value into a shorter summary: long strings are truncated, long
/// lists capped, and objects keep only field names and value shapes.
pub fn compress(v: &Value) -> (r: Value)
    ensures
        r@ == compressed(v@),
{
    match v {
        Value::Str(s) => {
            let st = s.as_str();
            let n = st.len();
            if n > 64 {
                proof {
                    vstd::utf8::encode_utf8_valid_utf8(st@);
                }
                let mut cut: usize = 64;
                while cut > 0 && !st.is_char_boundary(cut)
                    invariant
                        cut <= 64,
                        vstd::utf8::valid_utf8(vstd::utf8::encode_utf8(st@)),
                        cut_point(vstd::utf8::encode_utf8(st@), 64) == cut_point(vstd::utf8::encode_utf8(st@), cut as int),
                    decreases cut,
                {
                    cut = cut - 1;
                }
                let (head, _) = st.split_at(cut);
                proof {
                    vstd::utf8::encode_utf8_decode_utf8(head@);
                }
                let mut out = String::from_str(head);
                out.append("…(");
                let d = decimal_string(n as u64);
                out.append(d.as_str());
                out.append("b)");
                Value::Str(out)
            } else {
                v.clone()
            }
        },
        Value::List(items) => {
            proof {
                lemma_list_view(*items);
            }
            if items.len() > 8 {
                let mut head: Vec<Value> = Vec::new();
                let mut i: usize = 0;
                while i < 8
                    invariant
                        i <= 8,
                        8 < items@.len(),
                        head@.len() == i,
                        forall|k: int| 0 <= k < i ==> (#[trigger] head@[k])@ == items@[k]@,
                    decreases 8 - i,
                {
                    head.push(items[i].clone());
                    i = i + 1;
                }
                let mut note = String::from_str("…(+");
                let d = decimal_string((items.len() - 8) as u64);
                note.append(d.as_str());
                note.append(" items)");
                head.push(Value::Str(note));
                proof {
                    lemma_list_view(head);
                    assert(views_of(head@) =~= views_of(items@).take(8).push(
                        ValueView::Str("…(+"@ + decimal((items@.len() - 8) as nat) + " items)"@),
                    ));
                }
                Value::List(head)
            } else {
                v.clone()
            }
        },
        Value::Object(fields) => {
            proof {
                lemma_object_view(*fields);
            }
            let mut out: Vec<(String, Value)> = Vec::new();
            let mut i: usize = 0;
            while i < fields.len()
                invariant
                    i <= fields@.len(),
                    out@.len() == i,
                    forall|k: int|
                        0 <= k < i ==> (#[trigger] out@[k]).0@ == fields@[k].0@ && out@[k].1@ == ValueView::Str(
                            shape_of(fields@[k].1@, 1),
                        ),
                decreases fields.len() - i,
            {
                let shape = fields[i].1.shape(1);
                out.push((fields[i].0.clone(), Value::Str(shape)));
                i = i + 1;
            }
            proof {
                lemma_object_view(out);
                assert(field_views(out@) =~= Seq::new(
                    field_views(fields@).len(),
                    |k: int| (field_views(fields@)[k].0, ValueView::Str(shape_of(field_views(fields@)[k].1, 1))),
                ));
            }
            Value::Object(out)
        },
        _ => v.clone(),
    }
}


/// When to act on an entry.
#[derive(Clone, Copy, Debug, PartialEq, Eq, Structural)]
pub enum DecayKind {
    /// Keep verbatim forever.
    Keep,
    /// Compress (replace with a summary) after `ttl_seconds`.
    Compress { ttl_seconds: i64 },
    /// Drop after `ttl_seconds`.
    Drop { ttl_seconds: i64 },
}

impl Default for DecayKind {
    fn default() -> (r: Self)
        ensures
            r == DecayKind::Keep,
    {
        DecayKind::Keep
    }
}

/// A decay policy: a decay kind per slot name, and one for the others.
pub struct DecayPolicy {
    rules: StrMap<DecayKind>,
    default: DecayKind,
}

/// The model of a policy.
pub struct PolicyView {
    pub rules: Map<Seq<char>, DecayKind>,
    pub default: DecayKind,
}

impl View for DecayPolicy {
    type V = PolicyView;

    closed spec fn view(&self) -> PolicyView {
        PolicyView { rules: self.rules.map(), default: self.default }
    }
}

/// The decay kind a policy assigns to a slot.
pub open spec fn kind_of(p: PolicyView, slot: Seq<char>) -> DecayKind {
    if p.rules.contains_key(slot) {
        p.rules[slot]
    } else {
        p.default
    }
}

impl DecayPolicy {
    pub closed spec fn wf(&self) -> bool {
        self.rules.wf()
    }

    /// Keep everything, with no rules.
    pub fn new() -> (r: Self)
        ensures
            r.wf(),
            r@.rules == Map::<Seq<char>, DecayKind>::empty(),
            r@.default == DecayKind::Keep,
    {
        DecayPolicy { rules: StrMap::new(), default: DecayKind::Keep }
    }

    pub fn set_default(self, k: DecayKind) -> (r: Self)
        ensures
            r.wf() == self.wf(),
            r@ == (PolicyView { default: k, ..self@ }),
    {
        DecayPolicy { default: k, ..self }
    }

    pub fn set(&mut self, slot: &str, kind: DecayKind)
        requires
            old(self).wf(),
        ensures
            final(self).wf(),
            final(self)@ == (PolicyView { rules: old(self)@.rules.insert(slot@, kind), ..old(self)@ }),
    {
        self.rules.insert(slot, kind);
    }

    pub fn kind_for(&self, slot: &str) -> (r: DecayKind)
        requires
            self.wf(),
        ensures
            r == kind_of(self@, slot@),
    {
        match self.rules.get(slot) {
            Some(k) => *k,
            None => self.default,
        }
    }
}

impl Default for DecayPolicy {
    fn default() -> (r: Self)
        ensures
            r.wf(),
            r@.rules == Map::<Seq<char>, DecayKind>::empty(),
            r@.default == DecayKind::Keep,
    {
        DecayPolicy::new()
    }
}

/// One working-memory entry.
#[derive(Debug)]
pub struct MemoryEntry {
    pub slot: String,
    pub value: Value,
    pub created_at: Timestamp,
    pub last_touched: Timestamp,
    pub compressed: bool,
}

/// The model of an entry.
pub struct EntryView {
    pub slot: Seq<char>,
    pub value: ValueView,
    pub created_at: Timestamp,
    pub last_touched: Timestamp,
    pub compressed: bool,
}

impl View for MemoryEntry {
    type V = EntryView;

    open spec fn view(&self) -> EntryView {
        EntryView {
            slot: self.slot@,
            value: self.value@,
            created_at: self.created_at,
            last_touched: self.last_touched,
            compressed: self.compressed,
        }
    }
}

impl Clone for MemoryEntry {
    fn clone(&self) -> (r: Self)
        ensures
            r@ == self@,
    {
        MemoryEntry {
            slot: self.slot.clone(),
            value: self.value.clone(),
            created_at: self.created_at,
            last_touched: self.last_touched,
            compressed: self.compressed,
        }
    }
}

/// Does decay at `now` drop this entry?
pub open spec fn drops(kind: DecayKind, e: EntryView, now: Timestamp) -> bool {
    kind matches DecayKind::Drop { ttl_seconds } && seconds_between(now, e.last_touched) >= ttl_seconds
}

/// Does decay at `now` compress this entry?
pub open spec fn compresses(kind: DecayKind, e: EntryView, now: Timestamp) -> bool {
    kind matches DecayKind::Compress { ttl_seconds } && seconds_between(now, e.last_touched) >= ttl_seconds
        && !e.compressed
}

/// An entry after decay at `now`, when it is not dropped.
pub open spec fn decayed_entry(kind: DecayKind, e: EntryView, now: Timestamp) -> EntryView {
    if compresses(kind, e, now) {
        EntryView { value: compressed(e.value), compressed: true, last_touched: now, ..e }
    } else {
        e
    }
}

/// The store after decay at `now`.
pub open spec fn decayed(m: Map<Seq<char>, EntryView>, p: PolicyView, now: Timestamp) -> Map<Seq<char>, EntryView> {
    Map::new(
        |k: Seq<char>| m.contains_key(k) && !drops(kind_of(p, k), m[k], now),
        |k: Seq<char>| decayed_entry(kind_of(p, k), m[k], now),
    )
}

/// A key is in the first `i + 1` entries when it is in the first `i` or is
/// the key of entry `i`.
proof fn lemma_has_key_take<V>(e: Seq<(String, V)>, i: int)
    requires
        0 <= i < e.len(),
    ensures
        forall|k: Seq<char>| #[trigger] has_key(e.take(i + 1), k) == (has_key(e.take(i), k) || k == e[i].0@),
{
    assert forall|k: Seq<char>| #[trigger] has_key(e.take(i + 1), k) == (has_key(e.take(i), k) || k == e[i].0@) by {
        if has_key(e.take(i), k) {
            let w = choose|w: int| 0 <= w < e.take(i).len() && (#[trigger] e.take(i)[w]).0@ == k;
            assert(e.take(i + 1)[w].0@ == k);
        }
        if k == e[i].0@ {
            assert(e.take(i + 1)[i].0@ == k);
        }
        if has_key(e.take(i + 1), k) {
            let w = choose|w: int| 0 <= w < e.take(i + 1).len() && (#[trigger] e.take(i + 1)[w]).0@ == k;
            if w < i {
                assert(e.take(i)[w].0@ == k);
            }
        }
    }
}

/// The working-memory store with decay.
pub struct MemoryStore {
    entries: StrMap<MemoryEntry>,
    policy: DecayPolicy,
}

impl View for MemoryStore {
    type V = Map<Seq<char>, EntryView>;

    closed spec fn view(&self) -> Map<Seq<char>, EntryView> {
        self.entries.map().map_values(|e: MemoryEntry| e@)
    }
}

impl MemoryStore {
    /// Entries are filed under their own slot, with valid timestamps, and
    /// the policy is well formed.
    pub closed spec fn wf(&self) -> bool {
        &&& self.entries.wf()
        &&& self.policy.wf()
        &&& forall|i: int| 0 <= i < self.entries.entries@.len() ==> {
            let e = #[trigger] self.entries.entries@[i];
            &&& e.1.slot@ == e.0@
            &&& e.1.created_at.valid()
            &&& e.1.last_touched.valid()
        }
    }

    pub closed spec fn policy_view(&self) -> PolicyView {
        self.policy@
    }

    pub fn new() -> (r: Self)
        ensures
            r.wf(),
            r@ == Map::<Seq<char>, EntryView>::empty(),
            r.policy_view() == (PolicyView { rules: Map::empty(), default: DecayKind::Keep }),
    {
        let r = MemoryStore { entries: StrMap::new(), policy: DecayPolicy::new() };
        assert(r@ =~= Map::<Seq<char>, EntryView>::empty());
        r
    }

    pub fn with_policy(policy: DecayPolicy) -> (r: Self)
        requires
            policy.wf(),
        ensures
            r.wf(),
            r@ == Map::<Seq<char>, EntryView>::empty(),
            r.policy_view() == policy@,
    {
        let r = MemoryStore { entries: StrMap::new(), policy };
        assert(r@ =~= Map::<Seq<char>, EntryView>::empty());
        r
    }

    proof fn lemma_view_entry(&self, i: int)
        requires
            self.entries.wf(),
            0 <= i < self.entries.entries@.len(),
        ensures
            self@.contains_key(self.entries.entries@[i].0@),
            self@[self.entries.entries@[i].0@] == self.entries.entries@[i].1@,
    {
        lemma_entry_in_map(self.entries.entries@, i);
    }

    /// Write or touch an entry at the instant `now`: it holds `value`,
    /// uncompressed, created and touched at `now`.
    pub fn put_at(&mut self, slot: &str, value: Value, now: Timestamp)
        requires
            old(self).wf(),
            now.valid(),
        ensures
            final(self).wf(),
            final(self).policy_view() == old(self).policy_view(),
            final(self)@ == old(self)@.insert(
                slot@,
                EntryView { slot: slot@, value: value@, created_at: now, last_touched: now, compressed: false },
            ),
    {
        let entry = MemoryEntry {
            slot: String::from_str(slot),
            value,
            created_at: now,
            last_touched: now,
            compressed: false,
        };
        let ghost old_entries = self.entries.entries@;
        self.entries.insert(slot, entry);
        proof {
            assert forall|i: int| 0 <= i < self.entries.entries@.len() implies {
                let e = #[trigger] self.entries.entries@[i];
                &&& e.1.slot@ == e.0@
                &&& e.1.created_at.valid()
                &&& e.1.last_touched.valid()
            } by {
                let e = self.entries.entries@[i];
                lemma_entry_in_map(self.entries.entries@, i);
                if e.0@ != slot@ {
                    let j = key_index(old_entries, e.0@);
                    lemma_entry_in_map(old_entries, j);
                }
            }
            assert(self@ =~= old(self)@.insert(
                slot@,
                EntryView { slot: slot@, value: self@[slot@].value, created_at: now, last_touched: now, compressed: false },
            ));
        }
    }

    /// Write or touch an entry now.
    pub fn put(&mut self, slot: &str, value: Value)
        requires
            old(self).wf(),
        ensures
            final(self).wf(),
            final(self).policy_view() == old(self).policy_view(),
            final(self)@.dom() == old(self)@.dom().insert(slot@),
            final(self)@[slot@].value == value@,
            final(self)@[slot@].slot == slot@,
            !final(self)@[slot@].compressed,
            final(self)@[slot@].created_at == final(self)@[slot@].last_touched,
            forall|k: Seq<char>| k != slot@ && old(self)@.contains_key(k) ==> final(self)@[k] == old(self)@[k],
    {
        let now = utc_now();
        self.put_at(slot, value, now);
    }

    pub fn get(&self, slot: &str) -> (r: Option<&MemoryEntry>)
        requires
            self.wf(),
        ensures
            r is None <==> !self@.contains_key(slot@),
            r matches Some(e) ==> e@ == self@[slot@],
    {
        self.entries.get(slot)
    }

    pub fn len(&self) -> (r: usize)
        requires
            self.wf(),
        ensures
            r == self@.dom().len(),
    {
        assert(self@.dom() =~= self.entries.map().dom());
        self.entries.len()
    }

    /// Run decay at the instant `now`: entries whose drop time has come are
    /// dropped, entries whose compress time has come are compressed once and
    /// touched. Returns the number of entries dropped.
    pub fn decay_at(&mut self, now: Timestamp) -> (r: usize)
        requires
            old(self).wf(),
            now.valid(),
        ensures
            final(self).wf(),
            final(self).policy_view() == old(self).policy_view(),
            final(self)@ == decayed(old(self)@, old(self).policy_view(), now),
            r == old(self)@.dom().len() - final(self)@.dom().len(),
    {
        let ghost before = *self;
        let ghost goal = decayed(old(self)@, old(self).policy_view(), now);
        let mut orig: StrMap<MemoryEntry> = StrMap::new();
        std::mem::swap(&mut orig, &mut self.entries);
        let ghost e = orig.entries@;
        proof {
            orig.lemma_len();
            assert(old(self)@.dom() =~= orig.map().dom());
        }
        let n = orig.entries.len();
        let mut dropped: usize = 0;
        let mut i: usize = 0;
        while i < n
            invariant
                n == e.len(),
                old(self)@.dom().len() == n,
                i <= n,
                e == orig.entries@,
                orig.wf(),
                before.wf(),
                before.entries.entries@ == e,
                before@ == old(self)@,
                goal == decayed(old(self)@, old(self).policy_view(), now),
                self.policy@ == before.policy@,
                self.policy.wf(),
                self.entries.wf(),
                now.valid(),
                old(self).policy_view() == before.policy@,
                forall|j: int| 0 <= j < self.entries.entries@.len() ==> {
                    let x = #[trigger] self.entries.entries@[j];
                    &&& x.1.slot@ == x.0@
                    &&& x.1.created_at.valid()
                    &&& x.1.last_touched.valid()
                },
                forall|k: Seq<char>| #[trigger] self.entries.map().contains_key(k) <==> (has_key(e.take(i as int), k) && goal.contains_key(k)),
                forall|k: Seq<char>| #[trigger] self.entries.map().contains_key(k) ==> self.entries.map()[k]@ == goal[k],
                dropped + self.entries.entries@.len() == i,
            decreases n - i,
        {
            let ghost key = e[i as int].0@;
            proof {
                lemma_entry_in_map(e, i as int);
                before.lemma_view_entry(i as int);
                lemma_has_key_take(e, i as int);
                assert(!has_key(e.take(i as int), key)) by {
                    if has_key(e.take(i as int), key) {
                        let w = choose|w: int| 0 <= w < e.take(i as int).len() && (#[trigger] e.take(i as int)[w]).0@ == key;
                        assert(e[w].0@ == e[i as int].0@);
                    }
                }
            }
            let slot = &orig.entries[i].0;
            let mut entry = orig.entries[i].1.clone();
            let kind = self.policy.kind_for(slot.as_str());
            let age = seconds_from(now, entry.last_touched);
            let keep = match kind {
                DecayKind::Keep => true,
                DecayKind::Compress { ttl_seconds } => {
                    if age >= ttl_seconds && !entry.compressed {
                        proof {
                            assert(old(self)@.contains_key(key));
                            assert(old(self)@[key] == entry@);
                            assert(compresses(kind, old(self)@[key], now));
                        }
                        entry.value = compress(&entry.value);
                        entry.compressed = true;
                        entry.last_touched = now;
                    }
                    true
                },
                DecayKind::Drop { ttl_seconds } => age < ttl_seconds,
            };
            let ghost pre = self.entries.map();
            if keep {
                self.entries.insert(slot.as_str(), entry);
                proof {
                    assert(!pre.contains_key(key));
                }
            } else {
                dropped = dropped + 1;
            }
            proof {
                assert(goal.contains_key(key) == keep);
                assert forall|j: int| 0 <= j < self.entries.entries@.len() implies {
                    let x = #[trigger] self.entries.entries@[j];
                    &&& x.1.slot@ == x.0@
                    &&& x.1.created_at.valid()
                    &&& x.1.last_touched.valid()
                } by {
                    let x = self.entries.entries@[j];
                    lemma_entry_in_map(self.entries.entries@, j);
                    if keep && x.0@ != key {
                        assert(pre.contains_key(x.0@));
                    }
                }
            }
            i = i + 1;
        }
        proof {
            assert(e.take(n as int) =~= e);
            self.entries.lemma_len();
            assert(self@.dom() =~= self.entries.map().dom());
            assert(self@ =~= goal) by {
                assert forall|k: Seq<char>| #[trigger] self@.contains_key(k) == goal.contains_key(k) by {
                    if goal.contains_key(k) {
                        assert(old(self)@.contains_key(k));
                        assert(orig.map().contains_key(k));
                    }
                }
            }
            assert(goal.dom().subset_of(old(self)@.dom()));
        }
        dropped
    }

    /// Run decay now. Returns the number of entries dropped.
    pub fn decay(&mut self) -> (r: usize)
        requires
            old(self).wf(),
        ensures
            final(self).wf(),
            final(self).policy_view() == old(self).policy_view(),
            exists|now: Timestamp| now.valid() && final(self)@ == decayed(old(self)@, old(self).policy_view(), now),
            r == old(self)@.dom().len() - final(self)@.dom().len(),
    {
        let now = utc_now();
        self.decay_at(now)
    }

    /// Copies of all entries, one per slot.
    pub fn snapshot(&self) -> (r: Vec<MemoryEntry>)
        requires
            self.wf(),
        ensures
            r@.len() == self@.dom().len(),
            forall|j: int| 0 <= j < r@.len() ==> self@.contains_key((#[trigger] r@[j]).slot@) && self@[r@[j].slot@] == r@[j]@,
            forall|a: int, b: int| 0 <= a < b < r@.len() ==> (#[trigger] r@[a]).slot@ != (#[trigger] r@[b]).slot@,
    {
        let mut out: Vec<MemoryEntry> = Vec::new();
        let mut i: usize = 0;
        while i < self.entries.entries.len()
            invariant
                self.wf(),
                i <= self.entries.entries@.len(),
                out@.len() == i,
                forall|j: int| 0 <= j < i ==> (#[trigger] out@[j])@ == self.entries.entries@[j].1@,
            decreases self.entries.entries.len() - i,
        {
            out.push(self.entries.entries[i].1.clone());
            i = i + 1;
        }
        proof {
            self.entries.lemma_len();
            assert(self@.dom() =~= self.entries.map().dom());
            assert forall|j: int| 0 <= j < out@.len() implies self@.contains_key((#[trigger] out@[j]).slot@) && self@[out@[j].slot@] == out@[j]@ by {
                self.lemma_view_entry(j);
            }
            assert forall|a: int, b: int| 0 <= a < b < out@.len() implies (#[trigger] out@[a]).slot@ != (#[trigger] out@[b]).slot@ by {
                assert(self.entries.entries@[a].0@ != self.entries.entries@[b].0@);
            }
        }
        out
    }

    pub fn is_empty(&self) -> (r: bool)
        requires
            self.wf(),
        ensures
            r == (self@.dom().len() == 0),
    {
        self.len() == 0
    }
}

/// Law: an entry whose slot is kept survives every decay unchanged.
pub proof fn law_keep_survives_decay(m: Map<Seq<char>, EntryView>, p: PolicyView, now: Timestamp, k: Seq<char>)
    requires
        m.contains_key(k),
        kind_of(p, k) == DecayKind::Keep,
    ensures
        decayed(m, p, now).contains_key(k),
        decayed(m, p, now)[k] == m[k],
{
}

/// Law: an entry whose drop time has come is gone after decay, and decay
/// never adds a slot.
pub proof fn law_drop_after_ttl(m: Map<Seq<char>, EntryView>, p: PolicyView, now: Timestamp, k: Seq<char>, ttl: i64)
    requires
        m.contains_key(k),
        kind_of(p, k) == (DecayKind::Drop { ttl_seconds: ttl }),
        seconds_between(now, m[k].last_touched) >= ttl,
    ensures
        !decayed(m, p, now).contains_key(k),
        decayed(m, p, now).dom().subset_of(m.dom()),
{
}

/// Law: an entry is compressed at most once; a second decay leaves a
/// compressed entry's value as it is.
pub proof fn law_compress_once(m: Map<Seq<char>, EntryView>, p: PolicyView, now: Timestamp, later: Timestamp, k: Seq<char>)
    requires
        m.contains_key(k),
        kind_of(p, k) is Compress,
        decayed(m, p, now).contains_key(k),
        decayed(m, p, now)[k].compressed,
    ensures
        decayed(decayed(m, p, now), p, later).contains_key(k),
        decayed(decayed(m, p, now), p, later)[k].value == decayed(m, p, now)[k].value,
{
}

} // verus!
