//! Trust propagation.
//!
//! A `TrustContext` travels with each invocation and narrows as it descends
//! a call chain: a child never holds an authority its parent does not grant,
//! and constraints only accumulate.

use crate::id::AgentId;
use crate::text::{chars_of, is_prefix, starts_with_chars};
use vstd::prelude::*;
use vstd::string::StringExecFns;

verus! {

broadcast use vstd::std_specs::vec::group_vec_axioms;

/// A capability, e.g. `network`, `filesystem:write`. An authority grants
/// itself and everything under it: `filesystem` grants `filesystem:write`.
#[derive(Debug)]
pub struct Authority(pub String);

/// A constraint an agent must respect, e.g. `max_tokens:1000`.
#[derive(Debug)]
pub struct Constraint(pub String);

/// Does authority `a` grant `requested`?
pub open spec fn grants(a: Seq<char>, requested: Seq<char>) -> bool {
    a == requested || is_prefix(a + ":"@, requested)
}

/// Granting is transitive: what a granted authority grants, the granting
/// one grants too.
pub proof fn lemma_grants_transitive(a: Seq<char>, b: Seq<char>, c: Seq<char>)
    requires
        grants(a, b),
        grants(b, c),
    ensures
        grants(a, c),
{
    if a != b && b != c {
        let p = a + ":"@;
        let q = b + ":"@;
        assert(b.subrange(0, p.len() as int) == p);
        assert(c.subrange(0, q.len() as int) == q);
        assert(c.subrange(0, p.len() as int) =~= p) by {
            assert forall|i: int| 0 <= i < p.len() implies c.subrange(0, p.len() as int)[i] == p[i] by {
                assert(c[i] == q[i]);
                assert(q[i] == b[i]);
                assert(b[i] == p[i]);
            }
        }
    }
}

impl Clone for Authority {
    fn clone(&self) -> (r: Self)
        ensures
            r.0@ == self.0@,
    {
        Authority(self.0.clone())
    }
}

impl Clone for Constraint {
    fn clone(&self) -> (r: Self)
        ensures
            r.0@ == self.0@,
    {
        Constraint(self.0.clone())
    }
}

impl Authority {
    pub fn new(s: &str) -> (r: Self)
        ensures
            r.0@ == s@,
    {
        Authority(String::from_str(s))
    }

    /// Does this authority grant `requested`? `filesystem` grants both
    /// `filesystem` and `filesystem:write`.
    pub fn grants(&self, requested: &str) -> (r: bool)
        ensures
            r == grants(self.0@, requested@),
    {
        let a = chars_of(self.0.as_str());
        let q = chars_of(requested);
        let mut p = a.clone();
        p.push(':');
        assert(p@ =~= a@ + ":"@) by {
            reveal_strlit(":");
        }
        if starts_with_chars(&q, &p) {
            return true;
        }
        if a.len() != q.len() {
            return false;
        }
        let mut i: usize = 0;
        while i < a.len()
            invariant
                a.len() == q.len(),
                a@ == self.0@,
                q@ == requested@,
                !is_prefix(a@ + ":"@, q@),
                i <= a.len(),
                forall|k: int| 0 <= k < i ==> a@[k] == q@[k],
            decreases a.len() - i,
        {
            if a[i] != q[i] {
                return false;
            }
            i = i + 1;
        }
        assert(a@ =~= q@);
        true
    }
}

impl Constraint {
    pub fn new(s: &str) -> (r: Self)
        ensures
            r.0@ == s@,
    {
        Constraint(String::from_str(s))
    }
}

/// The trust context inherited by an invocation.
#[derive(Debug)]
pub struct TrustContext {
    /// Who is invoking.
    pub actor: AgentId,
    /// Capabilities currently held, without repeats.
    pub authorities: Vec<Authority>,
    /// Constraints accumulated down the chain, without repeats.
    pub constraints: Vec<Constraint>,
    /// Depth in the call chain (root = 0).
    pub depth: u32,
}

/// The names of a vector of authorities.
pub open spec fn authority_names(v: Seq<Authority>) -> Set<Seq<char>> {
    Set::new(|s: Seq<char>| exists|i: int| 0 <= i < v.len() && (#[trigger] v[i]).0@ == s)
}

/// The names of a vector of constraints.
pub open spec fn constraint_names(v: Seq<Constraint>) -> Set<Seq<char>> {
    Set::new(|s: Seq<char>| exists|i: int| 0 <= i < v.len() && (#[trigger] v[i]).0@ == s)
}

proof fn lemma_authority_names_push(v: Seq<Authority>, a: Authority)
    ensures
        authority_names(v.push(a)) == authority_names(v).insert(a.0@),
{
    let w = v.push(a);
    assert forall|s: Seq<char>| authority_names(v).insert(a.0@).contains(s) implies authority_names(w).contains(s) by {
        if s == a.0@ {
            assert(w[v.len() as int].0@ == s);
        } else {
            let k = choose|k: int| 0 <= k < v.len() && (#[trigger] v[k]).0@ == s;
            assert(w[k] == v[k]);
        }
    }
    assert forall|s: Seq<char>| authority_names(w).contains(s) implies authority_names(v).insert(a.0@).contains(s) by {
        let k = choose|k: int| 0 <= k < w.len() && (#[trigger] w[k]).0@ == s;
        if k < v.len() {
            assert(w[k] == v[k]);
        }
    }
    assert(authority_names(w) =~= authority_names(v).insert(a.0@));
}

proof fn lemma_constraint_names_push(v: Seq<Constraint>, c: Constraint)
    ensures
        constraint_names(v.push(c)) == constraint_names(v).insert(c.0@),
{
    let w = v.push(c);
    assert forall|s: Seq<char>| constraint_names(v).insert(c.0@).contains(s) implies constraint_names(w).contains(s) by {
        if s == c.0@ {
            assert(w[v.len() as int].0@ == s);
        } else {
            let k = choose|k: int| 0 <= k < v.len() && (#[trigger] v[k]).0@ == s;
            assert(w[k] == v[k]);
        }
    }
    assert forall|s: Seq<char>| constraint_names(w).contains(s) implies constraint_names(v).insert(c.0@).contains(s) by {
        let k = choose|k: int| 0 <= k < w.len() && (#[trigger] w[k]).0@ == s;
        if k < v.len() {
            assert(w[k] == v[k]);
        }
    }
    assert(constraint_names(w) =~= constraint_names(v).insert(c.0@));
}

/// Does some held authority grant `requested`?
pub open spec fn holds(auth: Set<Seq<char>>, requested: Seq<char>) -> bool {
    exists|a: Seq<char>| auth.contains(a) && #[trigger] grants(a, requested)
}

/// The authorities a child receives: those of `grant` that the parent's
/// authorities grant.
pub open spec fn narrowed(parent: Set<Seq<char>>, grant: Set<Seq<char>>) -> Set<Seq<char>> {
    grant.filter(|a: Seq<char>| holds(parent, a))
}

impl Clone for TrustContext {
    fn clone(&self) -> (r: Self)
        ensures
            r.actor == self.actor,
            r.depth == self.depth,
            authority_names(r.authorities@) == authority_names(self.authorities@),
            constraint_names(r.constraints@) == constraint_names(self.constraints@),
    {
        let mut a: Vec<Authority> = Vec::new();
        let mut i: usize = 0;
        while i < self.authorities.len()
            invariant
                i <= self.authorities@.len(),
                a@.len() == i,
                forall|k: int| 0 <= k < i ==> (#[trigger] a@[k]).0@ == self.authorities@[k].0@,
            decreases self.authorities.len() - i,
        {
            a.push(self.authorities[i].clone());
            i = i + 1;
        }
        let mut c: Vec<Constraint> = Vec::new();
        let mut j: usize = 0;
        while j < self.constraints.len()
            invariant
                j <= self.constraints@.len(),
                c@.len() == j,
                forall|k: int| 0 <= k < j ==> (#[trigger] c@[k]).0@ == self.constraints@[k].0@,
            decreases self.constraints.len() - j,
        {
            c.push(self.constraints[j].clone());
            j = j + 1;
        }
        proof {
            assert(authority_names(a@) =~= authority_names(self.authorities@)) by {
                assert forall|s: Seq<char>| authority_names(self.authorities@).contains(s) implies authority_names(a@).contains(s) by {
                    let k = choose|k: int| 0 <= k < self.authorities@.len() && (#[trigger] self.authorities@[k]).0@ == s;
                    assert(a@[k].0@ == s);
                }
            }
            assert(constraint_names(c@) =~= constraint_names(self.constraints@)) by {
                assert forall|s: Seq<char>| constraint_names(self.constraints@).contains(s) implies constraint_names(c@).contains(s) by {
                    let k = choose|k: int| 0 <= k < self.constraints@.len() && (#[trigger] self.constraints@[k]).0@ == s;
                    assert(c@[k].0@ == s);
                }
            }
        }
        TrustContext { actor: self.actor, authorities: a, constraints: c, depth: self.depth }
    }
}

fn same_text(a: &String, b: &String) -> (r: bool)
    ensures
        r == (a@ == b@),
{
    *a == *b
}

/// Is an authority of this name in the vector?
fn has_authority(v: &Vec<Authority>, name: &String) -> (r: bool)
    ensures
        r == authority_names(v@).contains(name@),
{
    let mut i: usize = 0;
    while i < v.len()
        invariant
            i <= v@.len(),
            forall|k: int| 0 <= k < i ==> (#[trigger] v@[k]).0@ != name@,
        decreases v.len() - i,
    {
        if same_text(&v[i].0, name) {
            return true;
        }
        i = i + 1;
    }
    false
}

/// Is a constraint of this name in the vector?
fn has_constraint(v: &Vec<Constraint>, name: &String) -> (r: bool)
    ensures
        r == constraint_names(v@).contains(name@),
{
    let mut i: usize = 0;
    while i < v.len()
        invariant
            i <= v@.len(),
            forall|k: int| 0 <= k < i ==> (#[trigger] v@[k]).0@ != name@,
        decreases v.len() - i,
    {
        if same_text(&v[i].0, name) {
            return true;
        }
        i = i + 1;
    }
    false
}

impl TrustContext {
    /// The set of names of the held authorities.
    pub open spec fn authority_set(&self) -> Set<Seq<char>> {
        authority_names(self.authorities@)
    }

    /// The set of names of the accumulated constraints.
    pub open spec fn constraint_set(&self) -> Set<Seq<char>> {
        constraint_names(self.constraints@)
    }

    /// A root context with the given authorities (for the top-level
    /// orchestrator).
    pub fn root(actor: AgentId, authorities: Vec<Authority>) -> (r: Self)
        ensures
            r.actor == actor,
            r.authority_set() == authority_names(authorities@),
            r.constraint_set() == Set::<Seq<char>>::empty(),
            r.depth == 0,
    {
        let mut held: Vec<Authority> = Vec::new();
        let mut i: usize = 0;
        while i < authorities.len()
            invariant
                i <= authorities@.len(),
                authority_names(held@) == authority_names(authorities@.take(i as int)),
            decreases authorities.len() - i,
        {
            let a = authorities[i].clone();
            proof {
                assert(authorities@.take(i + 1) =~= authorities@.take(i as int).push(authorities@[i as int]));
                lemma_authority_names_push(authorities@.take(i as int), authorities@[i as int]);
            }
            if !has_authority(&held, &a.0) {
                proof {
                    lemma_authority_names_push(held@, a);
                }
                held.push(a);
            } else {
                proof {
                    assert(authority_names(held@).insert(a.0@) =~= authority_names(held@));
                }
            }
            i = i + 1;
        }
        proof {
            assert(authorities@.take(authorities@.len() as int) =~= authorities@);
            assert(constraint_names(Seq::<Constraint>::empty()) =~= Set::<Seq<char>>::empty());
        }
        TrustContext { actor, authorities: held, constraints: Vec::new(), depth: 0 }
    }

    /// A root with the common authorities `network`, `filesystem`, `compute`
    /// and `call`, for a fresh actor (dev/test).
    pub fn permissive_root() -> (r: Self)
        ensures
            r.authority_set() == set!["network"@, "filesystem"@, "compute"@, "call"@],
            r.constraint_set() == Set::<Seq<char>>::empty(),
            r.depth == 0,
    {
        let mut v: Vec<Authority> = Vec::new();
        v.push(Authority::new("network"));
        v.push(Authority::new("filesystem"));
        v.push(Authority::new("compute"));
        v.push(Authority::new("call"));
        let r = Self::root(AgentId::new(), v);
        proof {
            assert(authority_names(v@) =~= set!["network"@, "filesystem"@, "compute"@, "call"@]) by {
                assert(v@[0].0@ == "network"@);
                assert(v@[1].0@ == "filesystem"@);
                assert(v@[2].0@ == "compute"@);
                assert(v@[3].0@ == "call"@);
            }
        }
        r
    }

    /// Does this context grant `requested`?
    pub fn has(&self, requested: &str) -> (r: bool)
        ensures
            r == holds(self.authority_set(), requested@),
    {
        let mut i: usize = 0;
        while i < self.authorities.len()
            invariant
                i <= self.authorities@.len(),
                forall|k: int| 0 <= k < i ==> !grants((#[trigger] self.authorities@[k]).0@, requested@),
            decreases self.authorities.len() - i,
        {
            if self.authorities[i].grants(requested) {
                proof {
                    let a = self.authorities@[i as int].0@;
                    assert(self.authority_set().contains(a));
                }
                return true;
            }
            i = i + 1;
        }
        proof {
            assert forall|a: Seq<char>| self.authority_set().contains(a) implies !#[trigger] grants(a, requested@) by {
                let k = choose|k: int| 0 <= k < self.authorities@.len() && (#[trigger] self.authorities@[k]).0@ == a;
            }
        }
        false
    }

    /// Narrow the context for a child invocation: the child holds those of
    /// `grant` that this context grants, the constraints grow by
    /// `extra_constraints`, and the depth goes up by one.
    pub fn narrow(&self, child: AgentId, grant: &[Authority], extra_constraints: &[Constraint]) -> (r: TrustContext)
        requires
            self.depth < u32::MAX,
        ensures
            r.actor == child,
            r.authority_set() == narrowed(self.authority_set(), authority_names(grant@)),
            r.constraint_set() == self.constraint_set().union(constraint_names(extra_constraints@)),
            r.depth == self.depth + 1,
    {
        let mut child_auth: Vec<Authority> = Vec::new();
        let mut i: usize = 0;
        let ghost parent = self.authority_set();
        while i < grant.len()
            invariant
                i <= grant@.len(),
                parent == self.authority_set(),
                authority_names(child_auth@) == narrowed(parent, authority_names(grant@.take(i as int))),
            decreases grant.len() - i,
        {
            let ghost g = grant@[i as int];
            proof {
                assert(grant@.take(i + 1) =~= grant@.take(i as int).push(g));
                lemma_authority_names_push(grant@.take(i as int), g);
            }
            let held = self.has(grant[i].0.as_str());
            if held && !has_authority(&child_auth, &grant[i].0) {
                let a = grant[i].clone();
                proof {
                    lemma_authority_names_push(child_auth@, a);
                }
                child_auth.push(a);
            }
            proof {
                let before = narrowed(parent, authority_names(grant@.take(i as int)));
                let after = narrowed(parent, authority_names(grant@.take(i + 1)));
                if held {
                    assert(after =~= before.insert(g.0@));
                } else {
                    assert(after =~= before);
                }
            }
            i = i + 1;
        }
        let mut constraints: Vec<Constraint> = Vec::new();
        let mut j: usize = 0;
        while j < self.constraints.len()
            invariant
                j <= self.constraints@.len(),
                constraint_names(constraints@) == constraint_names(self.constraints@.take(j as int)),
            decreases self.constraints.len() - j,
        {
            proof {
                assert(self.constraints@.take(j + 1) =~= self.constraints@.take(j as int).push(self.constraints@[j as int]));
                lemma_constraint_names_push(self.constraints@.take(j as int), self.constraints@[j as int]);
            }
            let c = self.constraints[j].clone();
            proof {
                lemma_constraint_names_push(constraints@, c);
            }
            constraints.push(c);
            j = j + 1;
        }
        proof {
            assert(self.constraints@.take(self.constraints@.len() as int) =~= self.constraints@);
        }
        let mut e: usize = 0;
        while e < extra_constraints.len()
            invariant
                e <= extra_constraints@.len(),
                constraint_names(constraints@) == self.constraint_set().union(
                    constraint_names(extra_constraints@.take(e as int)),
                ),
            decreases extra_constraints.len() - e,
        {
            let ghost c = extra_constraints@[e as int];
            proof {
                assert(extra_constraints@.take(e + 1) =~= extra_constraints@.take(e as int).push(c));
                lemma_constraint_names_push(extra_constraints@.take(e as int), c);
                assert(self.constraint_set().union(constraint_names(extra_constraints@.take(e + 1)))
                    =~= self.constraint_set().union(constraint_names(extra_constraints@.take(e as int))).insert(c.0@));
            }
            if !has_constraint(&constraints, &extra_constraints[e].0) {
                let x = extra_constraints[e].clone();
                proof {
                    lemma_constraint_names_push(constraints@, x);
                }
                constraints.push(x);
            } else {
                proof {
                    assert(constraint_names(constraints@).insert(c.0@) =~= constraint_names(constraints@));
                }
            }
            e = e + 1;
        }
        proof {
            assert(grant@.take(grant@.len() as int) =~= grant@);
            assert(extra_constraints@.take(extra_constraints@.len() as int) =~= extra_constraints@);
        }
        TrustContext { actor: child, authorities: child_auth, constraints, depth: self.depth + 1 }
    }

    /// Is constraint `c` present?
    pub fn constrained_to(&self, c: &str) -> (r: bool)
        ensures
            r == self.constraint_set().contains(c@),
    {
        let name = String::from_str(c);
        has_constraint(&self.constraints, &name)
    }
}

/// Law: a narrowed context never holds more authority than its parent:
/// whatever the child can do, the parent could.
pub proof fn law_narrowing_never_widens(parent: Set<Seq<char>>, grant: Set<Seq<char>>, requested: Seq<char>)
    ensures
        holds(narrowed(parent, grant), requested) ==> holds(parent, requested),
{
    if holds(narrowed(parent, grant), requested) {
        let a = choose|a: Seq<char>| narrowed(parent, grant).contains(a) && #[trigger] grants(a, requested);
        assert(holds(parent, a));
        let p = choose|p: Seq<char>| parent.contains(p) && #[trigger] grants(p, a);
        lemma_grants_transitive(p, a, requested);
        assert(grants(p, requested));
    }
}

/// Law: narrowing keeps exactly the granted authorities the parent holds.
pub proof fn law_narrowing_keeps_granted(parent: Set<Seq<char>>, grant: Set<Seq<char>>, a: Seq<char>)
    ensures
        narrowed(parent, grant).contains(a) <==> (grant.contains(a) && holds(parent, a)),
{
}

/// Law: constraints accumulate down a chain: every constraint of the parent
/// and every added one is present in the child.
pub proof fn law_constraints_accumulate(parent: Set<Seq<char>>, extra: Set<Seq<char>>, c: Seq<char>)
    ensures
        parent.contains(c) || extra.contains(c) ==> parent.union(extra).contains(c),
{
}

} // verus!
