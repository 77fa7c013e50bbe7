//! Access policy for the blackboard: who may read, write or lock which slots.
//!
//! A policy is a list of rules; an access is granted when some rule for the
//! agent and permission matches the slot, and otherwise falls back to the
//! default, which is deny (fail-closed) unless set otherwise.

use crate::id::AgentId;
use crate::text::{chars_of, is_prefix, starts_with_chars};
use vstd::prelude::*;
use vstd::string::StringExecFns;

verus! {

/// A permission on a slot.
#[derive(Clone, Copy, Debug, PartialEq, Eq, Structural, Hash)]
pub enum Permission {
    Read,
    Write,
    Lock,
}

/// A rule: `agent` has `perm` on slots matching `pattern`. A pattern ending
/// in `*` matches every slot that starts with what precedes the `*`.
#[derive(Debug)]
pub struct Rule {
    pub agent: AgentId,
    pub pattern: String,
    pub perm: Permission,
}

/// The model of a rule.
pub struct RuleView {
    pub agent: AgentId,
    pub pattern: Seq<char>,
    pub perm: Permission,
}

impl View for Rule {
    type V = RuleView;

    open spec fn view(&self) -> RuleView {
        RuleView { agent: self.agent, pattern: self.pattern@, perm: self.perm }
    }
}

/// Does `pattern` match `slot`?
pub open spec fn pattern_matches(pattern: Seq<char>, slot: Seq<char>) -> bool {
    if pattern.len() > 0 && pattern.last() == '*' {
        is_prefix(pattern.drop_last(), slot)
    } else {
        pattern == slot
    }
}

/// Does the rule grant `perm` on `slot` to `agent`?
pub open spec fn rule_grants(r: RuleView, agent: AgentId, slot: Seq<char>, perm: Permission) -> bool {
    r.agent == agent && r.perm == perm && pattern_matches(r.pattern, slot)
}

/// The model of a policy: its rules in order and its default.
pub struct PolicyView {
    pub rules: Seq<RuleView>,
    pub default_allow: bool,
}

/// Is the access granted: by a matching rule, or else by the default?
pub open spec fn policy_allows(p: PolicyView, agent: AgentId, slot: Seq<char>, perm: Permission) -> bool {
    (exists|i: int| 0 <= i < p.rules.len() && rule_grants(#[trigger] p.rules[i], agent, slot, perm))
        || p.default_allow
}

/// A policy: rules evaluated in order, with a default for unmatched accesses.
pub struct AccessPolicy {
    rules: Vec<Rule>,
    default_allow: bool,
}

impl View for AccessPolicy {
    type V = PolicyView;

    closed spec fn view(&self) -> PolicyView {
        PolicyView {
            rules: Seq::new(self.rules@.len(), |i: int| self.rules@[i]@),
            default_allow: self.default_allow,
        }
    }
}

/// Does `pattern` match `slot`?
fn pattern_matches_exec(pattern: &str, slot: &str) -> (r: bool)
    ensures
        r == pattern_matches(pattern@, slot@),
{
    let p = chars_of(pattern);
    let s = chars_of(slot);
    if p.len() > 0 && p[p.len() - 1] == '*' {
        let mut prefix: Vec<char> = Vec::new();
        let mut i: usize = 0;
        while i + 1 < p.len()
            invariant
                p.len() > 0,
                i <= p.len() - 1,
                prefix@ == p@.subrange(0, i as int),
            decreases p.len() - i,
        {
            prefix.push(p[i]);
            i = i + 1;
        }
        assert(prefix@ =~= p@.drop_last());
        starts_with_chars(&s, &prefix)
    } else {
        if p.len() != s.len() {
            return false;
        }
        let mut i: usize = 0;
        while i < p.len()
            invariant
                p.len() == s.len(),
                p@ == pattern@,
                s@ == slot@,
                !(p@.len() > 0 && p@.last() == '*'),
                i <= p.len(),
                forall|k: int| 0 <= k < i ==> p@[k] == s@[k],
            decreases p.len() - i,
        {
            if p[i] != s[i] {
                return false;
            }
            i = i + 1;
        }
        assert(p@ =~= s@);
        true
    }
}

impl AccessPolicy {
    /// An empty, fail-closed policy.
    pub fn new() -> (r: Self)
        ensures
            r@.rules.len() == 0,
            !r@.default_allow,
    {
        AccessPolicy { rules: Vec::new(), default_allow: false }
    }

    /// Set the default for accesses that no rule matches (true: fail-open).
    pub fn with_default_allow(self, allow: bool) -> (r: Self)
        ensures
            r@.rules == self@.rules,
            r@.default_allow == allow,
    {
        AccessPolicy { rules: self.rules, default_allow: allow }
    }

    /// Append a rule.
    pub fn add(&mut self, agent: AgentId, pattern: &str, perm: Permission)
        ensures
            final(self)@.rules == old(self)@.rules.push(
                RuleView { agent, pattern: pattern@, perm },
            ),
            final(self)@.default_allow == old(self)@.default_allow,
    {
        self.rules.push(Rule { agent, pattern: String::from_str(pattern), perm });
        assert(self@.rules =~= old(self)@.rules.push(RuleView { agent, pattern: pattern@, perm }));
    }

    /// Grant read, write and lock on a pattern to an agent.
    pub fn grant_all(&mut self, agent: AgentId, pattern: &str)
        ensures
            final(self)@.rules == old(self)@.rules + seq![
                RuleView { agent, pattern: pattern@, perm: Permission::Read },
                RuleView { agent, pattern: pattern@, perm: Permission::Write },
                RuleView { agent, pattern: pattern@, perm: Permission::Lock },
            ],
            final(self)@.default_allow == old(self)@.default_allow,
    {
        self.add(agent, pattern, Permission::Read);
        self.add(agent, pattern, Permission::Write);
        self.add(agent, pattern, Permission::Lock);
        assert(self@.rules =~= old(self)@.rules + seq![
            RuleView { agent, pattern: pattern@, perm: Permission::Read },
            RuleView { agent, pattern: pattern@, perm: Permission::Write },
            RuleView { agent, pattern: pattern@, perm: Permission::Lock },
        ]);
    }

    /// Is `perm` on `slot` granted to `agent`?
    pub fn check(&self, agent: AgentId, slot: &str, perm: Permission) -> (r: bool)
        ensures
            r == policy_allows(self@, agent, slot@, perm),
    {
        let mut i: usize = 0;
        while i < self.rules.len()
            invariant
                i <= self.rules@.len(),
                forall|k: int| 0 <= k < i ==> !rule_grants(#[trigger] self@.rules[k], agent, slot@, perm),
            decreases self.rules.len() - i,
        {
            let r = &self.rules[i];
            if r.agent == agent && r.perm == perm && pattern_matches_exec(r.pattern.as_str(), slot) {
                assert(rule_grants(self@.rules[i as int], agent, slot@, perm));
                return true;
            }
            i = i + 1;
        }
        self.default_allow
    }
}

/// Law: a new policy denies every access (fail-closed).
pub proof fn law_new_policy_denies(agent: AgentId, slot: Seq<char>, perm: Permission)
    ensures
        !policy_allows(PolicyView { rules: Seq::empty(), default_allow: false }, agent, slot, perm),
{
}

/// Law: adding a rule never revokes an access, and the added rule grants what
/// it names.
pub proof fn law_add_grants(
    p: PolicyView,
    rule: RuleView,
    agent: AgentId,
    slot: Seq<char>,
    perm: Permission,
)
    ensures
        policy_allows(p, agent, slot, perm) ==> policy_allows(
            PolicyView { rules: p.rules.push(rule), default_allow: p.default_allow },
            agent,
            slot,
            perm,
        ),
        rule_grants(rule, agent, slot, perm) ==> policy_allows(
            PolicyView { rules: p.rules.push(rule), default_allow: p.default_allow },
            agent,
            slot,
            perm,
        ),
{
    let q = PolicyView { rules: p.rules.push(rule), default_allow: p.default_allow };
    if policy_allows(p, agent, slot, perm) && !p.default_allow {
        let i = choose|i: int| 0 <= i < p.rules.len() && rule_grants(#[trigger] p.rules[i], agent, slot, perm);
        assert(q.rules[i] == p.rules[i]);
    }
    if rule_grants(rule, agent, slot, perm) {
        assert(q.rules[p.rules.len() as int] == rule);
    }
}

/// Does `pattern` end in the wildcard `*`?
pub open spec fn is_wildcard(pattern: Seq<char>) -> bool {
    pattern.len() > 0 && pattern[pattern.len() - 1] == '*'
}

/// Law: a pattern without a trailing `*` matches exactly the slot it
/// spells, and nothing else (not a longer slot it begins, nor a shorter
/// one); a pattern with a trailing `*` matches exactly the slots that begin
/// with what precedes the `*`.
pub proof fn law_pattern_match(pattern: Seq<char>, slot: Seq<char>)
    ensures
        !is_wildcard(pattern) ==> (pattern_matches(pattern, slot) <==> pattern =~= slot),
        is_wildcard(pattern) ==> (pattern_matches(pattern, slot) <==> (slot.len() >= pattern.len() - 1
            && forall|i: int| 0 <= i < pattern.len() - 1 ==> slot[i] == pattern[i])),
{
    if is_wildcard(pattern) {
        let stem = pattern.drop_last();
        if pattern_matches(pattern, slot) {
            assert(is_prefix(stem, slot));
            assert forall|i: int| 0 <= i < pattern.len() - 1 implies slot[i] == pattern[i] by {
                assert(stem[i] == pattern[i]);
            }
        }
        if slot.len() >= pattern.len() - 1 && forall|i: int| 0 <= i < pattern.len() - 1 ==> slot[i] == pattern[i] {
            assert(slot.subrange(0, stem.len() as int) =~= stem);
        }
    }
}

/// Law: an access is granted only by the default or by a rule for that
/// agent and permission whose pattern is the slot itself, or ends in `*`
/// after a beginning of the slot. In particular, under a fail-closed policy
/// a rule with the pattern `count` grants nothing on `counter`.
pub proof fn law_access_needs_a_matching_rule(p: PolicyView, agent: AgentId, slot: Seq<char>, perm: Permission)
    ensures
        policy_allows(p, agent, slot, perm) ==> p.default_allow || exists|i: int|
            0 <= i < p.rules.len() && (#[trigger] p.rules[i]).agent == agent && p.rules[i].perm == perm && (
            p.rules[i].pattern =~= slot || (is_wildcard(p.rules[i].pattern) && slot.len() >= p.rules[i].pattern.len()
                - 1 && forall|j: int| 0 <= j < p.rules[i].pattern.len() - 1 ==> slot[j] == p.rules[i].pattern[j])),
{
    if policy_allows(p, agent, slot, perm) && !p.default_allow {
        let i = choose|i: int| 0 <= i < p.rules.len() && rule_grants(#[trigger] p.rules[i], agent, slot, perm);
        law_pattern_match(p.rules[i].pattern, slot);
    }
}

} // verus!
