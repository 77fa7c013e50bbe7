//! Graph topology.
//!
//! A `Graph` is a set of `Node`s connected by `Edge`s. Nodes carry an agent
//! label (or a nested subgraph, a human review, a negotiation, or nothing for
//! a router) and an optional loop spec. Edges carry an optional condition, a
//! predicate over a blackboard snapshot and the source node's output.

use crate::error::{AgentError, AgentResult};
use crate::id::{uuid_hyphenated, uuid_text, EdgeId, GraphId, NodeId};
use crate::loop_spec::LoopSpec;
use crate::value::Value;
use vstd::prelude::*;
use vstd::string::StringExecFns;

verus! {

broadcast use vstd::std_specs::vec::group_vec_axioms;

/// What a node represents.
#[derive(Debug)]
pub enum NodeKind {
    /// Runs an agent, by the label the runtime resolves.
    Agent(String),
    /// A nested subgraph.
    Subgraph(GraphId),
    /// A human-in-the-loop review node.
    Human(String),
    /// A negotiation between agents.
    Negotiation(String),
    /// A pure routing node with no agent.
    Router,
}

/// Two node kinds that name the same thing.
pub open spec fn same_node_kind(a: NodeKind, b: NodeKind) -> bool {
    match (a, b) {
        (NodeKind::Agent(x), NodeKind::Agent(y)) => x@ == y@,
        (NodeKind::Subgraph(x), NodeKind::Subgraph(y)) => x == y,
        (NodeKind::Human(x), NodeKind::Human(y)) => x@ == y@,
        (NodeKind::Negotiation(x), NodeKind::Negotiation(y)) => x@ == y@,
        (NodeKind::Router, NodeKind::Router) => true,
        _ => false,
    }
}

impl Clone for NodeKind {
    fn clone(&self) -> (r: Self)
        ensures
            same_node_kind(r, *self),
    {
        match self {
            NodeKind::Agent(s) => NodeKind::Agent(s.clone()),
            NodeKind::Subgraph(g) => NodeKind::Subgraph(*g),
            NodeKind::Human(s) => NodeKind::Human(s.clone()),
            NodeKind::Negotiation(s) => NodeKind::Negotiation(s.clone()),
            NodeKind::Router => NodeKind::Router,
        }
    }
}

impl PartialEq for NodeKind {
    fn eq(&self, other: &Self) -> (r: bool) {
        match (self, other) {
            (NodeKind::Agent(x), NodeKind::Agent(y)) => *x == *y,
            (NodeKind::Subgraph(x), NodeKind::Subgraph(y)) => *x == *y,
            (NodeKind::Human(x), NodeKind::Human(y)) => *x == *y,
            (NodeKind::Negotiation(x), NodeKind::Negotiation(y)) => *x == *y,
            (NodeKind::Router, NodeKind::Router) => true,
            _ => false,
        }
    }
}

impl vstd::std_specs::cmp::PartialEqSpecImpl for NodeKind {
    open spec fn obeys_eq_spec() -> bool {
        true
    }

    open spec fn eq_spec(&self, other: &NodeKind) -> bool {
        same_node_kind(*self, *other)
    }
}

/// A node in the graph.
#[derive(Debug)]
pub struct Node {
    pub id: NodeId,
    pub label: String,
    pub kind: NodeKind,
    /// Optional loop wrapping this node.
    pub loop_spec: Option<LoopSpec>,
    /// The blackboard slot this node writes its output to.
    pub output_slot: Option<String>,
    /// Priority for budget-aware scheduling (higher = more important).
    pub priority: i32,
}

impl Clone for Node {
    fn clone(&self) -> (r: Self)
        ensures
            r.id == self.id,
            r.label@ == self.label@,
            same_node_kind(r.kind, self.kind),
            r.loop_spec is Some <==> self.loop_spec is Some,
            r.loop_spec matches Some(l) ==> l.max_iters == self.loop_spec->0.max_iters
                && crate::loop_spec::same_kind(l.kind, self.loop_spec->0.kind),
            r.output_slot is Some <==> self.output_slot is Some,
            r.output_slot matches Some(s) ==> s@ == self.output_slot->0@,
            r.priority == self.priority,
    {
        Node {
            id: self.id,
            label: self.label.clone(),
            kind: self.kind.clone(),
            loop_spec: match &self.loop_spec {
                Some(l) => Some(l.clone()),
                None => None,
            },
            output_slot: match &self.output_slot {
                Some(s) => Some(s.clone()),
                None => None,
            },
            priority: self.priority,
        }
    }
}

impl Node {
    /// A node that runs the agent registered under `agent_label`.
    pub fn agent(label: &str, agent_label: &str) -> (r: Self)
        ensures
            r.label@ == label@,
            r.kind matches NodeKind::Agent(a) && a@ == agent_label@,
            r.loop_spec is None,
            r.output_slot is None,
            r.priority == 0,
    {
        Node {
            id: NodeId::new(),
            label: String::from_str(label),
            kind: NodeKind::Agent(String::from_str(agent_label)),
            loop_spec: None,
            output_slot: None,
            priority: 0,
        }
    }

    /// A routing node.
    pub fn router(label: &str) -> (r: Self)
        ensures
            r.label@ == label@,
            r.kind is Router,
            r.loop_spec is None,
            r.output_slot is None,
            r.priority == 0,
    {
        Node {
            id: NodeId::new(),
            label: String::from_str(label),
            kind: NodeKind::Router,
            loop_spec: None,
            output_slot: None,
            priority: 0,
        }
    }

    pub fn with_output_slot(self, slot: &str) -> (r: Self)
        ensures
            r.output_slot matches Some(s) && s@ == slot@,
            r.id == self.id && r.label == self.label && r.kind == self.kind,
            r.loop_spec == self.loop_spec && r.priority == self.priority,
    {
        Node { output_slot: Some(String::from_str(slot)), ..self }
    }

    pub fn with_loop(self, spec: LoopSpec) -> (r: Self)
        ensures
            r == (Node { loop_spec: Some(spec), ..self }),
    {
        Node { loop_spec: Some(spec), ..self }
    }

    pub fn with_priority(self, p: i32) -> (r: Self)
        ensures
            r == (Node { priority: p, ..self }),
    {
        Node { priority: p, ..self }
    }
}

/// Edge kind.
#[derive(Clone, Copy, Debug, PartialEq, Eq, Structural)]
pub enum EdgeKind {
    /// Always follow on success.
    Normal,
    /// Follow only if the condition holds.
    Conditional,
    /// Follow on failure (exception edge).
    OnError,
}

/// A user-supplied edge condition: a predicate over a blackboard snapshot
/// and the source node's output.
#[verifier::external_body]
pub struct EdgeCondition {
    f: Box<dyn Fn(&Value, &Value) -> bool + Send + Sync>,
}

impl EdgeCondition {
    /// Boxes the caller's closure. Nothing is stated of it.
    #[verifier::external_body]
    pub(crate) fn new<F: Fn(&Value, &Value) -> bool + Send + Sync + 'static>(cond: F) -> EdgeCondition {
        EdgeCondition { f: Box::new(cond) }
    }

    /// Calls the caller's closure on `(snapshot, output)`. What it returns is
    /// the caller's code, so nothing is stated of it.
    #[verifier::external_body]
    pub(crate) fn eval(&self, snapshot: &Value, output: &Value) -> bool {
        (self.f)(snapshot, output)
    }
}

/// An edge between two nodes.
pub struct Edge {
    pub id: EdgeId,
    pub from: NodeId,
    pub to: NodeId,
    pub kind: EdgeKind,
    pub condition: Option<EdgeCondition>,
}

/// The model of an edge.
pub struct EdgeView {
    pub id: EdgeId,
    pub from: NodeId,
    pub to: NodeId,
    pub kind: EdgeKind,
    pub conditional: bool,
}

impl View for Edge {
    type V = EdgeView;

    open spec fn view(&self) -> EdgeView {
        EdgeView {
            id: self.id,
            from: self.from,
            to: self.to,
            kind: self.kind,
            conditional: self.condition is Some,
        }
    }
}

impl Edge {
    pub fn normal(from: NodeId, to: NodeId) -> (r: Self)
        ensures
            r.from == from && r.to == to && r.kind == EdgeKind::Normal && r.condition is None,
    {
        Edge { id: EdgeId::new(), from, to, kind: EdgeKind::Normal, condition: None }
    }

    pub fn conditional<F: Fn(&Value, &Value) -> bool + Send + Sync + 'static>(
        from: NodeId,
        to: NodeId,
        cond: F,
    ) -> (r: Self)
        ensures
            r.from == from && r.to == to && r.kind == EdgeKind::Conditional && r.condition is Some,
    {
        Edge {
            id: EdgeId::new(),
            from,
            to,
            kind: EdgeKind::Conditional,
            condition: Some(EdgeCondition::new(cond)),
        }
    }

    pub fn on_error(from: NodeId, to: NodeId) -> (r: Self)
        ensures
            r.from == from && r.to == to && r.kind == EdgeKind::OnError && r.condition is None,
    {
        Edge { id: EdgeId::new(), from, to, kind: EdgeKind::OnError, condition: None }
    }

    /// Evaluate the edge's condition; an edge without one always passes.
    pub fn passes(&self, snapshot: &Value, output: &Value) -> (r: bool)
        ensures
            self.condition is None ==> r,
    {
        match &self.condition {
            Some(c) => c.eval(snapshot, output),
            None => true,
        }
    }
}

/// The edges that leave one node.
pub struct OutEdges {
    pub node: NodeId,
    pub edges: Vec<Edge>,
}

/// Sum of the numbers of edges in the first `n` lists.
pub open spec fn edge_total(adj: Seq<OutEdges>, n: int) -> nat
    decreases n,
{
    if n <= 0 || n > adj.len() {
        0
    } else {
        edge_total(adj, n - 1) + adj[n - 1].edges@.len()
    }
}

proof fn lemma_edge_total_update(adj: Seq<OutEdges>, i: int, o: OutEdges, n: int)
    requires
        0 <= i < adj.len(),
        0 <= n <= adj.len(),
    ensures
        edge_total(adj.update(i, o), n) == if i < n {
            edge_total(adj, n) - adj[i].edges@.len() + o.edges@.len()
        } else {
            edge_total(adj, n) as int
        },
    decreases n,
{
    if n > 0 {
        lemma_edge_total_update(adj, i, o, n - 1);
        if i < n - 1 {
            lemma_edge_total_bound(adj, n - 1, i);
        }
    }
}

proof fn lemma_edge_total_bound(adj: Seq<OutEdges>, n: int, i: int)
    requires
        0 <= i < n <= adj.len(),
    ensures
        adj[i].edges@.len() <= edge_total(adj, n),
    decreases n,
{
    if i < n - 1 {
        lemma_edge_total_bound(adj, n - 1, i);
    }
}

proof fn lemma_edge_total_push(adj: Seq<OutEdges>, o: OutEdges, n: int)
    requires
        0 <= n <= adj.len(),
    ensures
        edge_total(adj.push(o), n) == edge_total(adj, n),
    decreases n,
{
    if n > 0 {
        lemma_edge_total_push(adj, o, n - 1);
    }
}

/// The graph. `nodes`, `out` and `n_edges` are kept consistent by the
/// methods (see `wf`); change them only through the methods.
pub struct Graph {
    pub id: GraphId,
    pub name: String,
    /// The nodes, in the order they were added, with distinct ids.
    pub nodes: Vec<Node>,
    /// Outgoing edges, one list per node, in the order of `nodes`.
    pub out: Vec<OutEdges>,
    /// The number of edges.
    pub n_edges: usize,
    /// Entry node ids.
    pub entries: Vec<NodeId>,
}

/// The error for an edge with an end outside the graph: the source is named
/// when it is the unknown one, else the target.
pub open spec fn unknown_end_error(e: AgentError, from_known: bool, from: NodeId, to: NodeId) -> bool {
    e matches AgentError::Graph(m) && m@ == (if !from_known {
        "edge from unknown node NodeId("@ + uuid_hyphenated(from.0) + ")"@
    } else {
        "edge to unknown node NodeId("@ + uuid_hyphenated(to.0) + ")"@
    })
}

/// A node with this id is in the sequence.
pub open spec fn has_node(nodes: Seq<Node>, id: NodeId) -> bool {
    exists|i: int| 0 <= i < nodes.len() && (#[trigger] nodes[i]).id == id
}

impl Graph {
    /// Node ids are distinct, edge lists follow the nodes, and the edge
    /// count is their total.
    pub open spec fn wf(&self) -> bool {
        &&& self.out@.len() == self.nodes@.len()
        &&& forall|i: int| 0 <= i < self.nodes@.len() ==> (#[trigger] self.out@[i]).node == self.nodes@[i].id
        &&& forall|i: int, j: int|
            0 <= i < self.nodes@.len() && 0 <= j < self.nodes@.len() && i != j ==> (#[trigger] self.nodes@[i]).id
                != (#[trigger] self.nodes@[j]).id
        &&& self.n_edges == edge_total(self.out@, self.out@.len() as int)
        &&& forall|i: int, k: int|
            0 <= i < self.out@.len() && 0 <= k < self.out@[i].edges@.len() ==> (#[trigger] self.out@[i].edges@[k]).from
                == self.out@[i].node
    }

    /// The nodes, keyed by id.
    pub open spec fn node_map(&self) -> Map<NodeId, Node> {
        Map::new(
            |id: NodeId| has_node(self.nodes@, id),
            |id: NodeId| self.nodes@[choose|i: int| 0 <= i < self.nodes@.len() && (#[trigger] self.nodes@[i]).id == id],
        )
    }

    /// The outgoing edges of each node, in insertion order.
    pub open spec fn edge_map(&self) -> Map<NodeId, Seq<EdgeView>> {
        Map::new(
            |id: NodeId| has_node(self.nodes@, id),
            |id: NodeId|
                {
                    let i = choose|i: int| 0 <= i < self.nodes@.len() && (#[trigger] self.nodes@[i]).id == id;
                    Seq::new(self.out@[i].edges@.len(), |k: int| self.out@[i].edges@[k]@)
                },
        )
    }

    /// The number of edges in the graph.
    pub open spec fn edge_total(&self) -> nat {
        self.n_edges as nat
    }

    /// The nodes in the order they were added.
    pub open spec fn node_seq(&self) -> Seq<Node> {
        self.nodes@
    }

    proof fn lemma_index(&self, i: int)
        requires
            self.wf(),
            0 <= i < self.nodes@.len(),
        ensures
            self.node_map().contains_key(self.nodes@[i].id),
            self.node_map()[self.nodes@[i].id] == self.nodes@[i],
            self.edge_map()[self.nodes@[i].id] == Seq::new(
                self.out@[i].edges@.len(),
                |k: int| self.out@[i].edges@[k]@,
            ),
    {
        let id = self.nodes@[i].id;
        assert(has_node(self.nodes@, id));
        let j = choose|j: int| 0 <= j < self.nodes@.len() && (#[trigger] self.nodes@[j]).id == id;
        assert(j == i);
    }

    pub fn new(name: &str) -> (r: Self)
        ensures
            r.wf(),
            r.name@ == name@,
            r.node_map() == Map::<NodeId, Node>::empty(),
            r.edge_total() == 0,
            r.entries@.len() == 0,
    {
        let r = Graph {
            id: GraphId::new(),
            name: String::from_str(name),
            nodes: Vec::new(),
            out: Vec::new(),
            n_edges: 0,
            entries: Vec::new(),
        };
        assert(r.node_map() =~= Map::<NodeId, Node>::empty());
        r
    }

    /// The position of the node with this id.
    fn find(&self, id: NodeId) -> (r: Option<usize>)
        requires
            self.wf(),
        ensures
            r is None <==> !self.node_map().contains_key(id),
            r matches Some(i) ==> i < self.nodes@.len() && self.nodes@[i as int].id == id,
    {
        let mut i: usize = 0;
        while i < self.nodes.len()
            invariant
                i <= self.nodes@.len(),
                forall|k: int| 0 <= k < i ==> (#[trigger] self.nodes@[k]).id != id,
            decreases self.nodes.len() - i,
        {
            if self.nodes[i].id == id {
                return Some(i);
            }
            i = i + 1;
        }
        None
    }

    /// Add a node (replacing one with the same id). The first node added to
    /// an empty graph without entries becomes the entry.
    pub fn add_node(&mut self, node: Node) -> (r: NodeId)
        requires
            old(self).wf(),
        ensures
            final(self).wf(),
            r == node.id,
            final(self).node_map() == old(self).node_map().insert(node.id, node),
            old(self).node_map().contains_key(node.id) ==> final(self).edge_map() == old(self).edge_map(),
            !old(self).node_map().contains_key(node.id) ==> final(self).edge_map() == old(self).edge_map().insert(
                node.id,
                Seq::empty(),
            ),
            final(self).edge_total() == old(self).edge_total(),
            final(self).entries@ == if old(self).node_map().len() == 0 && old(self).entries@.len() == 0 {
                seq![node.id]
            } else {
                old(self).entries@
            },
            final(self).id == old(self).id,
            final(self).name == old(self).name,
    {
        let id = node.id;
        let ghost old_self = *self;
        proof {
            self.lemma_node_count();
        }
        if self.nodes.len() == 0 && self.entries.len() == 0 {
            self.entries.push(id);
            proof {
                assert(self.entries@ =~= seq![id]);
            }
        }
        match self.find(id) {
            Some(i) => {
                self.nodes.set(i, node);
                proof {
                    assert forall|a: int, b: int|
                        0 <= a < self.nodes@.len() && 0 <= b < self.nodes@.len() && a != b implies (#[trigger] self.nodes@[a]).id
                        != (#[trigger] self.nodes@[b]).id by {
                        assert(old_self.nodes@[a].id != old_self.nodes@[b].id);
                    }
                    assert forall|j: int| 0 <= j < self.nodes@.len() implies (#[trigger] self.out@[j]).node
                        == self.nodes@[j].id by {
                        assert(old_self.out@[j].node == old_self.nodes@[j].id);
                    }
                    assert(self.wf());
                    assert forall|k: NodeId| #[trigger] has_node(self.nodes@, k) == has_node(old_self.nodes@, k) by {
                        if has_node(old_self.nodes@, k) {
                            let j = choose|j: int| 0 <= j < old_self.nodes@.len() && (#[trigger] old_self.nodes@[j]).id == k;
                            assert(self.nodes@[j].id == k);
                        }
                        if has_node(self.nodes@, k) {
                            let j = choose|j: int| 0 <= j < self.nodes@.len() && (#[trigger] self.nodes@[j]).id == k;
                            assert(old_self.nodes@[j].id == k);
                        }
                    }
                    assert forall|k: NodeId| has_node(self.nodes@, k) implies #[trigger] self.node_map()[k]
                        == old_self.node_map().insert(id, node)[k] && self.edge_map()[k] == old_self.edge_map()[k] by {
                        let j = choose|j: int| 0 <= j < old_self.nodes@.len() && (#[trigger] old_self.nodes@[j]).id == k;
                        old_self.lemma_index(j);
                        self.lemma_index(j);
                    }
                    assert(self.node_map() =~= old_self.node_map().insert(id, node));
                    assert(self.edge_map() =~= old_self.edge_map());
                }
            },
            None => {
                let ghost before = *self;
                self.nodes.push(node);
                self.out.push(OutEdges { node: id, edges: Vec::new() });
                proof {
                    let n = before.nodes@.len() as int;
                    lemma_edge_total_push(before.out@, self.out@[n], n);
                    assert(self.out@ == before.out@.push(self.out@[n]));
                    assert forall|a: int, b: int|
                        0 <= a < self.nodes@.len() && 0 <= b < self.nodes@.len() && a != b implies (#[trigger] self.nodes@[a]).id
                        != (#[trigger] self.nodes@[b]).id by {
                        if a < n && b < n {
                            assert(before.nodes@[a].id != before.nodes@[b].id);
                        } else if a == n {
                            assert(!has_node(before.nodes@, id));
                            assert(before.nodes@[b].id != id);
                        } else {
                            assert(!has_node(before.nodes@, id));
                            assert(before.nodes@[a].id != id);
                        }
                    }
                    assert forall|j: int| 0 <= j < self.nodes@.len() implies (#[trigger] self.out@[j]).node
                        == self.nodes@[j].id by {
                        if j < n {
                            assert(before.out@[j].node == before.nodes@[j].id);
                        }
                    }
                    assert forall|a: int, k: int|
                        0 <= a < self.out@.len() && 0 <= k < self.out@[a].edges@.len() implies (#[trigger] self.out@[a].edges@[k]).from
                        == self.out@[a].node by {
                        if a < n {
                            assert(self.out@[a] == before.out@[a]);
                        }
                    }
                    assert(self.wf());
                    assert forall|k: NodeId| #[trigger] has_node(self.nodes@, k) == (has_node(before.nodes@, k) || k == id) by {
                        if has_node(before.nodes@, k) {
                            let j = choose|j: int| 0 <= j < before.nodes@.len() && (#[trigger] before.nodes@[j]).id == k;
                            assert(self.nodes@[j].id == k);
                        }
                        if k == id {
                            assert(self.nodes@[n].id == k);
                        }
                        if has_node(self.nodes@, k) {
                            let j = choose|j: int| 0 <= j < self.nodes@.len() && (#[trigger] self.nodes@[j]).id == k;
                            if j < n {
                                assert(before.nodes@[j].id == k);
                            }
                        }
                    }
                    assert forall|k: NodeId| has_node(self.nodes@, k) implies #[trigger] self.edge_map()[k]
                        == old_self.edge_map().insert(id, Seq::empty())[k] by {
                        if k == id {
                            self.lemma_index(n);
                            assert(self.out@[n].edges@.len() == 0);
                            assert(Seq::new(self.out@[n].edges@.len(), |q: int| self.out@[n].edges@[q]@)
                                =~= Seq::<EdgeView>::empty());
                        } else {
                            let j = choose|j: int| 0 <= j < before.nodes@.len() && (#[trigger] before.nodes@[j]).id == k;
                            before.lemma_index(j);
                            self.lemma_index(j);
                            assert(self.out@[j] == before.out@[j]);
                        }
                    }
                    assert forall|k: NodeId| has_node(self.nodes@, k) implies #[trigger] self.node_map()[k]
                        == old_self.node_map().insert(id, node)[k] by {
                        if k == id {
                            self.lemma_index(n);
                            assert(self.out@[n].edges@.len() == 0);
                            assert(Seq::new(self.out@[n].edges@.len(), |q: int| self.out@[n].edges@[q]@)
                                =~= Seq::<EdgeView>::empty());
                        } else {
                            let j = choose|j: int| 0 <= j < before.nodes@.len() && (#[trigger] before.nodes@[j]).id == k;
                            before.lemma_index(j);
                            self.lemma_index(j);
                            assert(self.out@[j] == before.out@[j]);
                        }
                    }
                    assert(self.node_map() =~= old_self.node_map().insert(id, node));
                    assert(self.edge_map() =~= old_self.edge_map().insert(id, Seq::empty()));
                }
            },
        }
        id
    }

    /// Add an edge out of `edge.from`. Both ends must be nodes of the graph.
    pub fn add_edge(&mut self, edge: Edge) -> (r: AgentResult<EdgeId>)
        requires
            old(self).wf(),
            old(self).edge_total() < usize::MAX,
        ensures
            final(self).wf(),
            final(self).node_map() == old(self).node_map(),
            final(self).entries == old(self).entries,
            final(self).id == old(self).id,
            final(self).name == old(self).name,
            r is Ok <==> old(self).node_map().contains_key(edge.from) && old(self).node_map().contains_key(edge.to),
            r matches Ok(id) ==> id == edge.id && final(self).edge_total() == old(self).edge_total() + 1
                && final(self).edge_map() == old(self).edge_map().insert(
                edge.from,
                old(self).edge_map()[edge.from].push(edge@),
            ),
            r matches Err(e) ==> final(self).edge_map() == old(self).edge_map() && final(self).edge_total()
                == old(self).edge_total() && unknown_end_error(e, old(self).node_map().contains_key(edge.from), edge.from, edge.to),
    {
        let from_index = self.find(edge.from);
        if from_index.is_none() {
            let mut m = String::from_str("edge from unknown node NodeId(");
            let t = uuid_text(edge.from.0);
            m.append(t.as_str());
            m.append(")");
            return Err(AgentError::Graph(m));
        }
        if self.find(edge.to).is_none() {
            let mut m = String::from_str("edge to unknown node NodeId(");
            let t = uuid_text(edge.to.0);
            m.append(t.as_str());
            m.append(")");
            return Err(AgentError::Graph(m));
        }
        let i = from_index.unwrap();
        let id = edge.id;
        let ghost ev = edge@;
        let ghost before = *self;
        let mut list = OutEdges { node: edge.from, edges: Vec::new() };
        std::mem::swap(&mut list, &mut self.out[i]);
        proof {
            assert(list == before.out@[i as int]);
            lemma_edge_total_bound(before.out@, before.out@.len() as int, i as int);
        }
        list.edges.push(edge);
        let ghost newlist = list;
        std::mem::swap(&mut list, &mut self.out[i]);
        self.n_edges = self.n_edges + 1;
        proof {
            assert(self.out@ == before.out@.update(i as int, newlist));
            lemma_edge_total_update(before.out@, i as int, newlist, before.out@.len() as int);
            assert forall|a: int, k: int|
                0 <= a < self.out@.len() && 0 <= k < self.out@[a].edges@.len() implies (#[trigger] self.out@[a].edges@[k]).from
                == self.out@[a].node by {
                if a != i {
                    assert(self.out@[a] == before.out@[a]);
                } else if k < before.out@[a].edges@.len() {
                    assert(self.out@[a].edges@[k] == before.out@[a].edges@[k]);
                }
            }
            assert(self.wf());
            assert forall|k: NodeId| has_node(self.nodes@, k) implies #[trigger] self.edge_map()[k]
                == before.edge_map().insert(ev.from, before.edge_map()[ev.from].push(ev))[k] by {
                let j = choose|j: int| 0 <= j < self.nodes@.len() && (#[trigger] self.nodes@[j]).id == k;
                before.lemma_index(j);
                self.lemma_index(j);
                before.lemma_index(i as int);
                if j == i {
                    assert(Seq::new(self.out@[j].edges@.len(), |q: int| self.out@[j].edges@[q]@)
                        =~= Seq::new(before.out@[j].edges@.len(), |q: int| before.out@[j].edges@[q]@).push(ev));
                } else {
                    assert(self.out@[j] == before.out@[j]);
                }
            }
            assert(self.node_map() =~= before.node_map());
            assert(self.edge_map() =~= before.edge_map().insert(ev.from, before.edge_map()[ev.from].push(ev)));
        }
        Ok(id)
    }

    /// Make `id` the only entry.
    pub fn set_entry(&mut self, id: NodeId)
        ensures
            final(self).entries@ == seq![id],
            final(self).id == old(self).id,
            final(self).name == old(self).name,
            final(self).wf() == old(self).wf(),
            final(self).node_map() == old(self).node_map(),
            final(self).edge_map() == old(self).edge_map(),
            final(self).edge_total() == old(self).edge_total(),
    {
        let mut v: Vec<NodeId> = Vec::new();
        v.push(id);
        self.entries = v;
        assert(self.entries@ =~= seq![id]);
    }

    /// Add `id` as an entry unless it already is one.
    pub fn add_entry(&mut self, id: NodeId)
        ensures
            final(self).entries@ == if old(self).entries@.contains(id) {
                old(self).entries@
            } else {
                old(self).entries@.push(id)
            },
            final(self).id == old(self).id,
            final(self).name == old(self).name,
            final(self).wf() == old(self).wf(),
            final(self).node_map() == old(self).node_map(),
            final(self).edge_map() == old(self).edge_map(),
            final(self).edge_total() == old(self).edge_total(),
    {
        let mut i: usize = 0;
        while i < self.entries.len()
            invariant
                i <= self.entries@.len(),
                forall|k: int| 0 <= k < i ==> self.entries@[k] != id,
            decreases self.entries.len() - i,
        {
            if self.entries[i] == id {
                assert(self.entries@.contains(id)) by {
                    assert(self.entries@[i as int] == id);
                }
                return;
            }
            i = i + 1;
        }
        self.entries.push(id);
    }

    /// The node with this id.
    pub fn node(&self, id: NodeId) -> (r: Option<&Node>)
        requires
            self.wf(),
        ensures
            r is None <==> !self.node_map().contains_key(id),
            r matches Some(n) ==> *n == self.node_map()[id],
    {
        match self.find(id) {
            Some(i) => {
                proof {
                    self.lemma_index(i as int);
                }
                Some(&self.nodes[i])
            },
            None => None,
        }
    }

    /// The edges leaving `id`, in the order they were added (none for an
    /// unknown node).
    pub fn out_edges(&self, id: NodeId) -> (r: &[Edge])
        requires
            self.wf(),
        ensures
            self.node_map().contains_key(id) ==> Seq::new(r@.len(), |k: int| r@[k]@) == self.edge_map()[id],
            !self.node_map().contains_key(id) ==> r@.len() == 0,
    {
        match self.find(id) {
            Some(i) => {
                proof {
                    self.lemma_index(i as int);
                    assert(Seq::new(self.out@[i as int].edges@.len(), |k: int| self.out@[i as int].edges@[k]@)
                        =~= self.edge_map()[id]);
                }
                self.out[i].edges.as_slice()
            },
            None => {
                let e: &[Edge] = &[];
                e
            },
        }
    }

    /// The nodes, in the order they were added.
    pub fn nodes(&self) -> (r: &[Node])
        requires
            self.wf(),
        ensures
            r@ == self.node_seq(),
            forall|i: int| 0 <= i < r@.len() ==> self.node_map().contains_key(#[trigger] r@[i].id)
                && self.node_map()[r@[i].id] == r@[i],
            forall|id: NodeId| #[trigger] self.node_map().contains_key(id) ==> exists|i: int|
                0 <= i < r@.len() && r@[i].id == id,
    {
        proof {
            assert forall|i: int| 0 <= i < self.nodes@.len() implies self.node_map().contains_key(
                #[trigger] self.nodes@[i].id,
            ) && self.node_map()[self.nodes@[i].id] == self.nodes@[i] by {
                self.lemma_index(i);
            }
        }
        self.nodes.as_slice()
    }

    /// The number of nodes.
    pub fn node_count(&self) -> (r: usize)
        requires
            self.wf(),
        ensures
            r == self.node_map().dom().len(),
    {
        proof {
            self.lemma_node_count();
        }
        self.nodes.len()
    }

    proof fn lemma_node_count(&self)
        requires
            self.wf(),
        ensures
            self.node_map().dom().len() == self.nodes@.len(),
            self.node_map().dom().finite(),
    {
        let ids = Seq::new(self.nodes@.len(), |i: int| self.nodes@[i].id);
        assert(ids.no_duplicates()) by {
            assert forall|i: int, j: int| 0 <= i < ids.len() && 0 <= j < ids.len() && i != j implies ids[i]
                != ids[j] by {
                assert(self.nodes@[i].id != self.nodes@[j].id);
            }
        }
        assert(self.node_map().dom() =~= ids.to_set()) by {
            assert forall|k: NodeId| self.node_map().dom().contains(k) implies ids.to_set().contains(k) by {
                let i = choose|i: int| 0 <= i < self.nodes@.len() && (#[trigger] self.nodes@[i]).id == k;
                assert(ids[i] == k);
            }
            assert forall|k: NodeId| ids.to_set().contains(k) implies self.node_map().dom().contains(k) by {
                let i = choose|i: int| 0 <= i < ids.len() && ids[i] == k;
                assert(self.nodes@[i].id == k);
            }
        }
        ids.unique_seq_to_set();
    }

    /// The number of edges.
    pub fn edge_count(&self) -> (r: usize)
        requires
            self.wf(),
        ensures
            r == self.edge_total(),
    {
        self.n_edges
    }

}

impl Default for Graph {
    fn default() -> (r: Self)
        ensures
            r.wf(),
            r.name@ == Seq::<char>::empty(),
            r.node_map() == Map::<NodeId, Node>::empty(),
            r.edge_total() == 0,
            r.entries@.len() == 0,
    {
        proof {
            reveal_strlit("");
        }
        Graph::new("")
    }
}

} // verus!
