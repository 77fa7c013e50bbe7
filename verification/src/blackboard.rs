//! The blackboard: the shared working memory that agents read from, write
//! to and contend over.
//!
//! Every access is checked against an `AccessPolicy`; every write is given
//! the next number of a monotonic sequence and appended to a write log that
//! causal memory consumes.

use crate::error::{AgentError, AgentResult};
use crate::id::{uuid_hyphenated, uuid_text, AgentId};
use crate::policy::{policy_allows, AccessPolicy, Permission, PolicyView};
use crate::str_map::{entries_map, lemma_entry_in_map, StrMap};
use crate::value::{Value, ValueView};
use vstd::prelude::*;
use vstd::string::StringExecFns;

verus! {

broadcast use vstd::std_specs::vec::group_vec_axioms;

/// A slot key: a dotted path such as `results.summarize` or `state.count`.
#[derive(Debug)]
pub struct SlotKey(pub String);

impl View for SlotKey {
    type V = Seq<char>;

    open spec fn view(&self) -> Seq<char> {
        self.0@
    }
}

impl Clone for SlotKey {
    fn clone(&self) -> (r: Self)
        ensures
            r@ == self@,
    {
        SlotKey(self.0.clone())
    }
}

impl PartialEq for SlotKey {
    fn eq(&self, other: &Self) -> (r: bool) {
        self.0 == other.0
    }
}

impl vstd::std_specs::cmp::PartialEqSpecImpl for SlotKey {
    open spec fn obeys_eq_spec() -> bool {
        true
    }

    open spec fn eq_spec(&self, other: &SlotKey) -> bool {
        self.0@ == other.0@
    }
}

impl SlotKey {
    pub fn new(s: &str) -> (r: Self)
        ensures
            r@ == s@,
    {
        SlotKey(String::from_str(s))
    }

    pub fn as_str(&self) -> (r: &str)
        ensures
            r@ == self@,
    {
        self.0.as_str()
    }
}

impl From<String> for SlotKey {
    fn from(s: String) -> (r: Self) {
        SlotKey(s)
    }
}

impl vstd::std_specs::convert::FromSpecImpl<String> for SlotKey {
    open spec fn obeys_from_spec() -> bool {
        true
    }

    open spec fn from_spec(s: String) -> SlotKey {
        SlotKey(s)
    }
}

/// One write, as the log records it.
#[derive(Debug)]
pub struct WriteRecord {
    pub slot: String,
    pub writer: AgentId,
    pub value: Value,
    pub seq: u64,
}

/// The model of a write record.
pub struct WriteView {
    pub slot: Seq<char>,
    pub writer: AgentId,
    pub value: ValueView,
    pub seq: u64,
}

impl View for WriteRecord {
    type V = WriteView;

    open spec fn view(&self) -> WriteView {
        WriteView { slot: self.slot@, writer: self.writer, value: self.value@, seq: self.seq }
    }
}

impl Clone for WriteRecord {
    fn clone(&self) -> (r: Self)
        ensures
            r@ == self@,
    {
        WriteRecord {
            slot: self.slot.clone(),
            writer: self.writer,
            value: self.value.clone(),
            seq: self.seq,
        }
    }
}

/// The model of a blackboard: its slots, policy, last sequence number and
/// write log.
pub struct BlackboardView {
    pub slots: Map<Seq<char>, ValueView>,
    pub policy: PolicyView,
    pub seq: u64,
    pub log: Seq<WriteView>,
}

/// What a read of `key` by `agent` gives back: the stored value, or null for
/// an absent slot; `None` when the policy denies the read.
pub open spec fn read_result(b: BlackboardView, agent: AgentId, key: Seq<char>) -> Option<ValueView> {
    if !policy_allows(b.policy, agent, key, Permission::Read) {
        None
    } else if b.slots.contains_key(key) {
        Some(b.slots[key])
    } else {
        Some(ValueView::Null)
    }
}

/// The blackboard after a granted write of `value` to `key` by `agent`.
pub open spec fn after_write(b: BlackboardView, agent: AgentId, key: Seq<char>, value: ValueView) -> BlackboardView {
    BlackboardView {
        slots: b.slots.insert(key, value),
        policy: b.policy,
        seq: (b.seq + 1) as u64,
        log: b.log.push(WriteView { slot: key, writer: agent, value, seq: (b.seq + 1) as u64 }),
    }
}

/// The message of a denied access.
pub open spec fn denial_message(agent: AgentId, action: Seq<char>, key: Seq<char>) -> Seq<char> {
    "agent AgentId("@ + uuid_hyphenated(agent.0) + ") denied "@ + action + " on "@ + key
}

/// `e` is the error that denies `action` on `key` to `agent`.
pub open spec fn is_denial(e: AgentError, agent: AgentId, action: Seq<char>, key: Seq<char>) -> bool {
    e matches AgentError::Blackboard(m) && m@ == denial_message(agent, action, key)
}

fn denial(agent: AgentId, action: &str, key: &SlotKey) -> (r: AgentError)
    ensures
        is_denial(r, agent, action@, key@),
{
    let mut m = String::from_str("agent AgentId(");
    let t = uuid_text(agent.0);
    m.append(t.as_str());
    m.append(") denied ");
    m.append(action);
    m.append(" on ");
    m.append(key.as_str());
    proof {
        assert(m@ =~= denial_message(agent, action@, key@));
    }
    AgentError::Blackboard(m)
}

/// The shared working memory.
pub struct Blackboard {
    slots: StrMap<Value>,
    policy: AccessPolicy,
    /// Monotonic write sequence, for ordering in causal traces.
    seq: u64,
    /// Append-only write log, drained by the causal tracer.
    log: Vec<WriteRecord>,
}

impl View for Blackboard {
    type V = BlackboardView;

    closed spec fn view(&self) -> BlackboardView {
        BlackboardView {
            slots: self.slots.map().map_values(|v: Value| v@),
            policy: self.policy@,
            seq: self.seq,
            log: Seq::new(self.log@.len(), |i: int| self.log@[i]@),
        }
    }
}

impl Blackboard {
    /// The blackboard's internal consistency: slot keys are distinct.
    pub closed spec fn wf(&self) -> bool {
        self.slots.wf()
    }

    pub fn new(policy: AccessPolicy) -> (r: Self)
        ensures
            r.wf(),
            r@.slots == Map::<Seq<char>, ValueView>::empty(),
            r@.policy == policy@,
            r@.seq == 0,
            r@.log.len() == 0,
    {
        let r = Blackboard { slots: StrMap::new(), policy, seq: 0, log: Vec::new() };
        assert(r@.slots =~= Map::<Seq<char>, ValueView>::empty());
        r
    }

    /// A blackboard whose policy grants every access (dev/test convenience).
    pub fn permissive() -> (r: Self)
        ensures
            r.wf(),
            r@.slots == Map::<Seq<char>, ValueView>::empty(),
            r@.policy.rules.len() == 0,
            r@.policy.default_allow,
            r@.seq == 0,
            r@.log.len() == 0,
    {
        Self::new(AccessPolicy::new().with_default_allow(true))
    }

    /// The number of the last write (0 before any write).
    pub fn write_seq(&self) -> (r: u64)
        ensures
            r == self@.seq,
    {
        self.seq
    }

    /// Does the slot hold a value?
    pub fn holds(&self, key: &SlotKey) -> (r: bool)
        requires
            self.wf(),
        ensures
            r == self@.slots.contains_key(key@),
    {
        match self.slots.get(key.as_str()) {
            Some(_) => true,
            None => false,
        }
    }

    /// Read a slot; an absent slot reads as null.
    pub fn read(&self, agent: AgentId, key: &SlotKey) -> (r: AgentResult<Value>)
        requires
            self.wf(),
        ensures
            match r {
                Ok(v) => read_result(self@, agent, key@) == Some(v@),
                Err(e) => read_result(self@, agent, key@) is None && is_denial(e, agent, "read"@, key@),
            },
    {
        if !self.policy.check(agent, key.as_str(), Permission::Read) {
            return Err(denial(agent, "read", key));
        }
        match self.slots.get(key.as_str()) {
            Some(v) => Ok(v.clone()),
            None => Ok(Value::Null),
        }
    }

    /// Write a slot: checks the policy, numbers the write and logs it.
    pub fn write(&mut self, agent: AgentId, key: &SlotKey, value: Value) -> (r: AgentResult<()>)
        requires
            old(self).wf(),
            old(self)@.seq < u64::MAX,
        ensures
            final(self).wf(),
            r is Ok <==> policy_allows(old(self)@.policy, agent, key@, Permission::Write),
            r is Ok ==> final(self)@ == after_write(old(self)@, agent, key@, value@),
            r matches Err(e) ==> final(self)@ == old(self)@ && is_denial(e, agent, "write"@, key@),
    {
        if !self.policy.check(agent, key.as_str(), Permission::Write) {
            return Err(denial(agent, "write", key));
        }
        self.store(agent, key, value);
        Ok(())
    }

    fn store(&mut self, agent: AgentId, key: &SlotKey, value: Value)
        requires
            old(self).wf(),
            old(self)@.seq < u64::MAX,
        ensures
            final(self).wf(),
            final(self)@ == after_write(old(self)@, agent, key@, value@),
    {
        let ghost before = self@;
        self.seq = self.seq + 1;
        let s = self.seq;
        let copy = value.clone();
        self.slots.insert(key.as_str(), value);
        self.log.push(WriteRecord { slot: key.0.clone(), writer: agent, value: copy, seq: s });
        proof {
            let want = after_write(before, agent, key@, copy@);
            assert(self@.slots =~= want.slots);
            assert(self@.log =~= want.log);
        }
    }

    /// Atomic read-modify-write under the lock permission: `f` receives the
    /// current value (null for an absent slot) and its result is written.
    pub fn update<F>(&mut self, agent: AgentId, key: &SlotKey, f: F) -> (r: AgentResult<Value>) where
        F: FnOnce(&Value) -> Value,
        requires
            old(self).wf(),
            old(self)@.seq < u64::MAX,
            forall|v: &Value| f.requires((v,)),
        ensures
            final(self).wf(),
            r is Ok <==> policy_allows(old(self)@.policy, agent, key@, Permission::Lock),
            r matches Ok(new) ==> final(self)@ == after_write(old(self)@, agent, key@, new@) && exists|
                cur: Value,
                made: Value,
            |
                {
                    &&& cur@ == (if old(self)@.slots.contains_key(key@) {
                        old(self)@.slots[key@]
                    } else {
                        ValueView::Null
                    })
                    &&& #[trigger] f.ensures((&cur,), made)
                    &&& made@ == new@
                },
            r matches Err(e) ==> final(self)@ == old(self)@ && is_denial(e, agent, "lock"@, key@),
    {
        if !self.policy.check(agent, key.as_str(), Permission::Lock) {
            return Err(denial(agent, "lock", key));
        }
        let current = match self.slots.get(key.as_str()) {
            Some(v) => v.clone(),
            None => Value::Null,
        };
        let new = f(&current);
        let out = new.clone();
        self.store(agent, key, new);
        Ok(out)
    }

    /// Take the write log, leaving it empty.
    pub fn drain_log(&mut self) -> (r: Vec<WriteRecord>)
        ensures
            Seq::new(r@.len(), |i: int| r@[i]@) == old(self)@.log,
            final(self)@ == (BlackboardView { log: Seq::empty(), ..old(self)@ }),
            final(self).wf() == old(self).wf(),
    {
        let mut r: Vec<WriteRecord> = Vec::new();
        std::mem::swap(&mut r, &mut self.log);
        assert(self@.log =~= Seq::<WriteView>::empty());
        assert(Seq::new(r@.len(), |i: int| r@[i]@) =~= old(self)@.log);
        r
    }

    /// A copy of every slot, in the order the slots were first written.
    pub fn snapshot(&self) -> (r: Vec<(String, Value)>)
        requires
            self.wf(),
        ensures
            entries_map(r@).map_values(|v: Value| v@) == self@.slots,
            r@.len() == self@.slots.dom().len(),
            crate::str_map::keys_distinct(r@),
    {
        let mut out: Vec<(String, Value)> = Vec::new();
        let n = self.slots.entries.len();
        let mut i: usize = 0;
        while i < n
            invariant
                n == self.slots.entries@.len(),
                i <= n,
                out@.len() == i,
                forall|k: int|
                    0 <= k < i ==> (#[trigger] out@[k]).0@ == self.slots.entries@[k].0@ && out@[k].1@
                        == self.slots.entries@[k].1@,
            decreases n - i,
        {
            let k = self.slots.entries[i].0.clone();
            let v = self.slots.entries[i].1.clone();
            out.push((k, v));
            i = i + 1;
        }
        proof {
            let e = self.slots.entries@;
            assert(crate::str_map::keys_distinct(out@)) by {
                assert forall|a: int, b: int|
                    0 <= a < out@.len() && 0 <= b < out@.len() && a != b implies (#[trigger] out@[a]).0@
                    != (#[trigger] out@[b]).0@ by {
                    assert(e[a].0@ != e[b].0@);
                }
            }
            assert forall|kk: Seq<char>| #[trigger] crate::str_map::has_key(out@, kk)
                == crate::str_map::has_key(e, kk) by {
                if crate::str_map::has_key(out@, kk) {
                    let j = crate::str_map::key_index(out@, kk);
                    assert(e[j].0@ == kk);
                }
                if crate::str_map::has_key(e, kk) {
                    let j = crate::str_map::key_index(e, kk);
                    assert(out@[j].0@ == kk);
                }
            }
            assert forall|kk: Seq<char>| crate::str_map::has_key(e, kk) implies
                #[trigger] entries_map(out@)[kk]@ == entries_map(e)[kk]@ by {
                let j = crate::str_map::key_index(e, kk);
                lemma_entry_in_map(e, j);
                lemma_entry_in_map(out@, j);
            }
            assert(entries_map(out@).map_values(|v: Value| v@) =~= self@.slots);
            self.slots.lemma_len();
            assert(self@.slots.dom() =~= self.slots.map().dom());
        }
        out
    }

    /// Replace every slot with the given ones, written in order (a later
    /// pair for the same key wins).
    pub fn restore(&mut self, snap: Vec<(String, Value)>)
        ensures
            final(self).wf(),
            final(self)@.slots == fold_pairs(Map::empty(), snap@),
            final(self)@.policy == old(self)@.policy,
            final(self)@.seq == old(self)@.seq,
            final(self)@.log == old(self)@.log,
    {
        let mut table: StrMap<Value> = StrMap::new();
        let mut i: usize = 0;
        while i < snap.len()
            invariant
                i <= snap@.len(),
                table.wf(),
                table.map().map_values(|v: Value| v@) == fold_pairs(Map::empty(), snap@.take(i as int)),
            decreases snap.len() - i,
        {
            proof {
                lemma_fold_push(Map::empty(), snap@.take(i as int), snap@[i as int]);
                assert(snap@.take(i as int).push(snap@[i as int]) =~= snap@.take(i + 1));
            }
            let v = snap[i].1.clone();
            table.insert(snap[i].0.as_str(), v);
            proof {
                assert(table.map().map_values(|v: Value| v@) =~= fold_pairs(
                    Map::empty(),
                    snap@.take(i + 1),
                ));
            }
            i = i + 1;
        }
        self.slots = table;
        proof {
            assert(snap@.take(snap@.len() as int) =~= snap@);
        }
    }

    /// Number of slots.
    pub fn len(&self) -> (r: usize)
        requires
            self.wf(),
        ensures
            r == self@.slots.dom().len(),
    {
        proof {
            assert(self@.slots.dom() =~= self.slots.map().dom());
        }
        self.slots.len()
    }

    pub fn is_empty(&self) -> (r: bool)
        requires
            self.wf(),
        ensures
            r == (self@.slots.dom().len() == 0),
    {
        self.len() == 0
    }

    /// The policy that guards this blackboard.
    pub fn policy(&self) -> (r: &AccessPolicy)
        ensures
            r@ == self@.policy,
    {
        &self.policy
    }
}

/// The slots after writing the pairs in order.
pub open spec fn fold_pairs(m: Map<Seq<char>, ValueView>, pairs: Seq<(String, Value)>) -> Map<
    Seq<char>,
    ValueView,
>
    decreases pairs.len(),
{
    if pairs.len() == 0 {
        m
    } else {
        fold_pairs(m, pairs.drop_last()).insert(pairs.last().0@, pairs.last().1@)
    }
}

proof fn lemma_fold_push(m: Map<Seq<char>, ValueView>, pairs: Seq<(String, Value)>, p: (String, Value))
    ensures
        fold_pairs(m, pairs.push(p)) == fold_pairs(m, pairs).insert(p.0@, p.1@),
{
    assert(pairs.push(p).drop_last() =~= pairs);
}

/// Law: a write that the policy grants is read back unchanged by any agent
/// allowed to read the slot.
pub proof fn law_read_after_write(
    b: BlackboardView,
    writer: AgentId,
    reader: AgentId,
    key: Seq<char>,
    value: ValueView,
)
    requires
        policy_allows(b.policy, reader, key, Permission::Read),
    ensures
        read_result(after_write(b, writer, key, value), reader, key) == Some(value),
{
}

/// Law: a write leaves every other slot as it was.
pub proof fn law_write_preserves_other_slots(
    b: BlackboardView,
    writer: AgentId,
    reader: AgentId,
    key: Seq<char>,
    other: Seq<char>,
    value: ValueView,
)
    requires
        key != other,
    ensures
        read_result(after_write(b, writer, key, value), reader, other) == read_result(b, reader, other),
{
}

/// Law: every granted write gets a sequence number one above the previous
/// one, and the log's last record is that write.
pub proof fn law_write_is_logged_in_order(
    b: BlackboardView,
    writer: AgentId,
    key: Seq<char>,
    value: ValueView,
)
    requires
        b.seq < u64::MAX,
    ensures
        after_write(b, writer, key, value).seq == b.seq + 1,
        after_write(b, writer, key, value).log.last() == (WriteView {
            slot: key,
            writer,
            value,
            seq: (b.seq + 1) as u64,
        }),
        after_write(b, writer, key, value).log.drop_last() == b.log,
{
    assert(after_write(b, writer, key, value).log.drop_last() =~= b.log);
}

/// Writing pairs with distinct keys, in order, gives the map they stand for.
proof fn lemma_fold_distinct(snap: Seq<(String, Value)>)
    requires
        crate::str_map::keys_distinct(snap),
    ensures
        fold_pairs(Map::empty(), snap) == entries_map(snap).map_values(|v: Value| v@),
    decreases snap.len(),
{
    if snap.len() > 0 {
        let prev = snap.drop_last();
        let p = snap.last();
        assert(crate::str_map::keys_distinct(prev)) by {
            assert forall|a: int, b: int|
                0 <= a < prev.len() && 0 <= b < prev.len() && a != b implies (#[trigger] prev[a]).0@
                != (#[trigger] prev[b]).0@ by {
                assert(snap[a].0@ != snap[b].0@);
            }
        }
        lemma_fold_distinct(prev);
        let n = snap.len() - 1;
        assert forall|k: Seq<char>| #[trigger] crate::str_map::has_key(snap, k) == (crate::str_map::has_key(prev, k) || k == p.0@) by {
            if crate::str_map::has_key(prev, k) {
                let j = crate::str_map::key_index(prev, k);
                assert(snap[j].0@ == k);
            }
            if k == p.0@ {
                assert(snap[n].0@ == k);
            }
            if crate::str_map::has_key(snap, k) {
                let j = crate::str_map::key_index(snap, k);
                if j < n {
                    assert(prev[j].0@ == k);
                }
            }
        }
        assert forall|k: Seq<char>| crate::str_map::has_key(snap, k) implies #[trigger] entries_map(snap)[k]@
            == entries_map(prev).map_values(|v: Value| v@).insert(p.0@, p.1@)[k] by {
            let j = crate::str_map::key_index(snap, k);
            lemma_entry_in_map(snap, j);
            if k != p.0@ {
                assert(j < n);
                assert(prev[j] == snap[j]);
                lemma_entry_in_map(prev, j);
            } else {
                assert(j == n) by {
                    if j != n {
                        assert(snap[j].0@ != snap[n].0@);
                    }
                }
            }
        }
        assert(entries_map(snap).map_values(|v: Value| v@) =~= entries_map(prev).map_values(|v: Value| v@).insert(
            p.0@,
            p.1@,
        ));
    } else {
        assert(entries_map(snap).map_values(|v: Value| v@) =~= Map::<Seq<char>, ValueView>::empty());
    }
}

/// Law: restoring a snapshot reproduces the slots the snapshot was taken
/// of; a board rebuilt from a snapshot reads exactly as the original did.
pub proof fn law_restore_reproduces_snapshot(slots: Map<Seq<char>, ValueView>, snap: Seq<(String, Value)>)
    requires
        crate::str_map::keys_distinct(snap),
        entries_map(snap).map_values(|v: Value| v@) == slots,
    ensures
        fold_pairs(Map::empty(), snap) == slots,
{
    lemma_fold_distinct(snap);
}

} // verus!
