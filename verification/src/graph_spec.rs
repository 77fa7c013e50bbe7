//! Graphs described by a plain specification.
//!
//! A `GraphSpec` names its nodes by label, gives each an agent label, an
//! optional output slot and an optional loop, and lists edges between labels.
//! `build_graph` turns it into a `Graph`, or says what is wrong with it.

use crate::graph::{Edge, EdgeKind, Graph, Node, NodeKind};
use crate::id::NodeId;
use crate::loop_spec::{at_least_one, LoopKind, LoopSpec};
use crate::str_map::StrMap;
use crate::value::{Value, ValueView};
use vstd::prelude::*;
use vstd::string::StringExecFns;

verus! {

broadcast use vstd::std_specs::vec::group_vec_axioms;

/// One node of a specification.
#[derive(Debug)]
pub struct NodeSpec {
    pub label: String,
    pub agent: String,
    pub output_slot: Option<String>,
    /// `repeat`, `while`, `until` or `foreach`.
    pub loop_kind: Option<String>,
    pub loop_count: Option<u32>,
    pub loop_slot: Option<String>,
    pub loop_target: Option<Value>,
}

/// One edge of a specification, between node labels.
#[derive(Debug)]
pub struct EdgeSpec {
    pub from: String,
    pub to: String,
    /// `normal` (the default) or `error`.
    pub kind: Option<String>,
}

/// A graph specification.
#[derive(Debug)]
pub struct GraphSpec {
    pub name: String,
    pub nodes: Vec<NodeSpec>,
    pub edges: Vec<EdgeSpec>,
    /// The label of the entry node, if not the first node.
    pub entry: Option<String>,
}

/// A loop kind the specification format knows.
pub open spec fn known_loop(k: Seq<char>) -> bool {
    k == "repeat"@ || k == "while"@ || k == "until"@ || k == "foreach"@
}

/// The first unknown loop kind among the first `n` nodes.
pub open spec fn first_bad_loop(nodes: Seq<NodeSpec>, n: int) -> Option<Seq<char>>
    decreases n,
{
    if n <= 0 || n > nodes.len() {
        None
    } else {
        match first_bad_loop(nodes, n - 1) {
            Some(k) => Some(k),
            None => match nodes[n - 1].loop_kind {
                Some(k) => if known_loop(k@) {
                    None
                } else {
                    Some(k@)
                },
                None => None,
            },
        }
    }
}

/// The labels of the nodes.
pub open spec fn spec_labels(nodes: Seq<NodeSpec>) -> Set<Seq<char>> {
    Set::new(|l: Seq<char>| exists|i: int| 0 <= i < nodes.len() && (#[trigger] nodes[i]).label@ == l)
}

/// The kind text of an edge, `normal` when absent.
pub open spec fn edge_kind_text(e: EdgeSpec) -> Seq<char> {
    match e.kind {
        Some(k) => k@,
        None => "normal"@,
    }
}

/// What is wrong with an edge, given the node labels.
pub open spec fn edge_problem(e: EdgeSpec, labels: Set<Seq<char>>) -> Option<Seq<char>> {
    if !labels.contains(e.from@) {
        Some("unknown node: "@ + e.from@)
    } else if !labels.contains(e.to@) {
        Some("unknown node: "@ + e.to@)
    } else if edge_kind_text(e) != "normal"@ && edge_kind_text(e) != "error"@ {
        Some("unsupported edge kind in CLI: "@ + edge_kind_text(e))
    } else {
        None
    }
}

/// The first problem among the first `n` edges.
pub open spec fn first_bad_edge(edges: Seq<EdgeSpec>, labels: Set<Seq<char>>, n: int) -> Option<Seq<char>>
    decreases n,
{
    if n <= 0 || n > edges.len() {
        None
    } else {
        match first_bad_edge(edges, labels, n - 1) {
            Some(m) => Some(m),
            None => edge_problem(edges[n - 1], labels),
        }
    }
}

/// Why a specification cannot be built, if it cannot: an unknown loop kind
/// comes first, then the first bad edge.
pub open spec fn spec_problem(s: GraphSpec) -> Option<Seq<char>> {
    match first_bad_loop(s.nodes@, s.nodes@.len() as int) {
        Some(k) => Some("unknown loop_kind: "@ + k),
        None => first_bad_edge(s.edges@, spec_labels(s.nodes@), s.edges@.len() as int),
    }
}

/// The count a node asks for, or `d` when it names none.
pub open spec fn count_or(c: Option<u32>, d: u32) -> u32 {
    match c {
        Some(x) => x,
        None => d,
    }
}

/// An optional text, empty when absent.
pub open spec fn text_of(s: Option<String>) -> Seq<char> {
    match s {
        Some(t) => t@,
        None => Seq::empty(),
    }
}

/// An optional target value, `Null` when absent.
pub open spec fn target_of(t: Option<Value>) -> ValueView {
    match t {
        Some(v) => v@,
        None => ValueView::Null,
    }
}

/// The loop `l` is the one a node with loop kind `k` asks for: `repeat`
/// counts (1 by default), the others watch the node's loop slot and stop
/// after the count (100 by default).
pub open spec fn loop_matches(n: NodeSpec, k: Seq<char>, l: LoopSpec) -> bool {
    if k == "repeat"@ {
        l.kind == (LoopKind::Repeat { count: count_or(n.loop_count, 1) }) && l.max_iters == at_least_one(
            count_or(n.loop_count, 1),
        )
    } else if k == "while"@ {
        &&& l.kind matches LoopKind::While { slot, target } && slot@ == text_of(n.loop_slot) && target@ == target_of(
            n.loop_target,
        )
        &&& l.max_iters == at_least_one(count_or(n.loop_count, 100))
    } else if k == "until"@ {
        &&& l.kind matches LoopKind::Until { slot, target } && slot@ == text_of(n.loop_slot) && target@ == target_of(
            n.loop_target,
        )
        &&& l.max_iters == at_least_one(count_or(n.loop_count, 100))
    } else if k == "foreach"@ {
        &&& l.kind matches LoopKind::Foreach { slot } && slot@ == text_of(n.loop_slot)
        &&& l.max_iters == at_least_one(count_or(n.loop_count, 100))
    } else {
        false
    }
}

/// `node` is the graph node built from the spec node `n`: an agent node with
/// its label, agent, output slot and loop.
pub open spec fn built_node(n: NodeSpec, node: Node) -> bool {
    &&& node.label@ == n.label@
    &&& (node.kind matches NodeKind::Agent(a) && a@ == n.agent@)
    &&& match n.output_slot {
        Some(s) => (node.output_slot matches Some(t) && t@ == s@),
        None => node.output_slot is None,
    }
    &&& match n.loop_kind {
        Some(k) => (node.loop_spec matches Some(l) && loop_matches(n, k@, l)),
        None => node.loop_spec is None,
    }
    &&& node.priority == 0
}

/// The position of the last of the first `n` nodes labelled `l`, or -1.
pub open spec fn last_labelled(nodes: Seq<NodeSpec>, l: Seq<char>, n: int) -> int
    decreases n,
{
    if n <= 0 {
        -1
    } else if nodes[n - 1].label@ == l {
        n - 1
    } else {
        last_labelled(nodes, l, n - 1)
    }
}

/// The id of the node a label names: that of the last node with the label.
pub open spec fn label_id(nodes: Seq<NodeSpec>, ids: Seq<NodeId>, l: Seq<char>) -> NodeId {
    ids[last_labelled(nodes, l, nodes.len() as int)]
}

/// The kind of edge a spec edge asks for.
pub open spec fn spec_edge_kind(e: EdgeSpec) -> EdgeKind {
    if edge_kind_text(e) == "error"@ {
        EdgeKind::OnError
    } else {
        EdgeKind::Normal
    }
}

/// The graph has an unconditional edge of this kind from `from` to `to`.
pub open spec fn has_edge(g: Graph, from: NodeId, to: NodeId, kind: EdgeKind) -> bool {
    &&& g.edge_map().contains_key(from)
    &&& exists|k: int|
        0 <= k < g.edge_map()[from].len() && (#[trigger] g.edge_map()[from][k]).to == to && g.edge_map()[from][k].kind
            == kind && !g.edge_map()[from][k].conditional
}

/// `g` is the graph built from `spec`, its nodes having the ids `ids` in
/// spec order: exactly those ids are nodes; each node not replaced by a
/// later one with the same id is built from its spec node; each spec edge
/// joins the nodes its labels name, with its kind; and a named entry that is
/// a known label is the only entry.
pub open spec fn built_graph(spec: GraphSpec, g: Graph, ids: Seq<NodeId>) -> bool {
    let nodes = spec.nodes@;
    &&& ids.len() == nodes.len()
    &&& forall|id: NodeId| #[trigger] g.node_map().contains_key(id) <==> ids.contains(id)
    &&& forall|k: int|
        0 <= k < nodes.len() && (forall|m: int| k < m < nodes.len() ==> ids[m] != ids[k]) ==> built_node(
            nodes[k],
            #[trigger] g.node_map()[ids[k]],
        )
    &&& forall|j: int|
        0 <= j < spec.edges@.len() ==> has_edge(
            g,
            label_id(nodes, ids, (#[trigger] spec.edges@[j]).from@),
            label_id(nodes, ids, spec.edges@[j].to@),
            spec_edge_kind(spec.edges@[j]),
        )
    &&& match spec.entry {
        Some(e) => spec_labels(nodes).contains(e@) ==> g.entries@ == seq![label_id(nodes, ids, e@)],
        None => true,
    }
}

/// Are the texts equal?
fn same_text(a: &str, b: &str) -> (r: bool)
    ensures
        r == (a@ == b@),
{
    let x = String::from_str(a);
    let y = String::from_str(b);
    x == y
}

fn text_or_empty(s: &Option<String>) -> (r: String)
    ensures
        r@ == match s {
            Some(t) => t@,
            None => Seq::<char>::empty(),
        },
{
    match s {
        Some(t) => t.clone(),
        None => String::new(),
    }
}

fn target_or_null(t: &Option<Value>) -> (r: Value)
    ensures
        r@ == match t {
            Some(v) => v@,
            None => crate::value::ValueView::Null,
        },
{
    match t {
        Some(v) => v.clone(),
        None => Value::Null,
    }
}

/// The loop a node asks for, or the unknown kind's text.
fn loop_of(n: &NodeSpec, kind: &String) -> (r: Result<LoopSpec, String>)
    ensures
        r is Ok <==> known_loop(kind@),
        r matches Err(k) ==> k@ == kind@,
        r matches Ok(l) ==> loop_matches(*n, kind@, l),
{
    let count = n.loop_count;
    if same_text(kind.as_str(), "repeat") {
        Ok(LoopSpec::repeat(match count { Some(c) => c, None => 1 }))
    } else if same_text(kind.as_str(), "while") {
        let slot = text_or_empty(&n.loop_slot);
        Ok(LoopSpec::while_eq(slot.as_str(), target_or_null(&n.loop_target), match count { Some(c) => c, None => 100 }))
    } else if same_text(kind.as_str(), "until") {
        let slot = text_or_empty(&n.loop_slot);
        Ok(LoopSpec::until_eq(slot.as_str(), target_or_null(&n.loop_target), match count { Some(c) => c, None => 100 }))
    } else if same_text(kind.as_str(), "foreach") {
        let slot = text_or_empty(&n.loop_slot);
        Ok(LoopSpec::foreach(slot.as_str(), match count { Some(c) => c, None => 100 }))
    } else {
        Err(kind.clone())
    }
}

proof fn lemma_first_bad_loop_stays(nodes: Seq<NodeSpec>, a: int, b: int)
    requires
        0 < a <= b <= nodes.len(),
        first_bad_loop(nodes, a) is Some,
    ensures
        first_bad_loop(nodes, b) == first_bad_loop(nodes, a),
    decreases b - a,
{
    if a < b {
        lemma_first_bad_loop_stays(nodes, a, b - 1);
    }
}

proof fn lemma_first_bad_edge_stays(edges: Seq<EdgeSpec>, labels: Set<Seq<char>>, a: int, b: int)
    requires
        0 < a <= b <= edges.len(),
        first_bad_edge(edges, labels, a) is Some,
    ensures
        first_bad_edge(edges, labels, b) == first_bad_edge(edges, labels, a),
    decreases b - a,
{
    if a < b {
        lemma_first_bad_edge_stays(edges, labels, a, b - 1);
    }
}

/// Build the graph a specification describes: a node per spec node (agent
/// nodes with their output slot and loop), an edge per spec edge (`error`
/// edges are error edges), and the named entry if it is a known label.
pub fn build_graph(spec: &GraphSpec) -> (r: Result<Graph, String>)
    ensures
        match spec_problem(*spec) {
            Some(m) => r matches Err(e) && e@ == m,
            None => r is Ok,
        },
        r matches Ok(g) ==> {
            &&& g.wf()
            &&& g.name@ == spec.name@
            &&& g.edge_total() == spec.edges@.len()
            &&& (spec.entry matches Some(e) && spec_labels(spec.nodes@).contains(e@)) ==> g.entries@.len() == 1
            &&& exists|ids: Seq<NodeId>| #[trigger] built_graph(*spec, g, ids)
        },
{
    let mut g = Graph::new(spec.name.as_str());
    let mut labels: StrMap<NodeId> = StrMap::new();
    let ghost mut ids: Seq<NodeId> = Seq::empty();
    let mut i: usize = 0;
    while i < spec.nodes.len()
        invariant
            i <= spec.nodes@.len(),
            g.wf(),
            g.name@ == spec.name@,
            g.edge_total() == 0,
            labels.wf(),
            labels.map().dom() == spec_labels(spec.nodes@.take(i as int)),
            forall|l: Seq<char>| #[trigger] labels.map().contains_key(l) ==> g.node_map().contains_key(labels.map()[l]),
            first_bad_loop(spec.nodes@, i as int) is None,
            ids.len() == i,
            forall|id: NodeId| #[trigger] g.node_map().contains_key(id) <==> ids.contains(id),
            forall|k: int|
                0 <= k < i && (forall|m: int| k < m < i ==> ids[m] != ids[k]) ==> built_node(
                    spec.nodes@[k],
                    #[trigger] g.node_map()[ids[k]],
                ),
            forall|l: Seq<char>|
                #[trigger] labels.map().contains_key(l) ==> 0 <= last_labelled(spec.nodes@, l, i as int) < i
                    && labels.map()[l] == ids[last_labelled(spec.nodes@, l, i as int)],
            g.entries@.len() <= 1,
        decreases spec.nodes.len() - i,
    {
        let n = &spec.nodes[i];
        let mut node = Node::agent(n.label.as_str(), n.agent.as_str());
        match &n.output_slot {
            Some(slot) => {
                node = node.with_output_slot(slot.as_str());
            },
            None => {},
        }
        match &n.loop_kind {
            Some(kind) => match loop_of(n, kind) {
                Ok(ls) => {
                    node = node.with_loop(ls);
                },
                Err(k) => {
                    let mut msg = String::from_str("unknown loop_kind: ");
                    msg.append(k.as_str());
                    proof {
                        assert(first_bad_loop(spec.nodes@, i + 1) == Some(k@));
                        lemma_first_bad_loop_stays(spec.nodes@, i + 1, spec.nodes@.len() as int);
                    }
                    return Err(msg);
                },
            },
            None => {},
        }
        assert(built_node(*n, node));
        let ghost g_before = g;
        let id = g.add_node(node);
        labels.insert(n.label.as_str(), id);
        proof {
            let old_ids = ids;
            ids = ids.push(id);
            assert forall|x: NodeId| #[trigger] g.node_map().contains_key(x) <==> ids.contains(x) by {
                if ids.contains(x) && x != id {
                    let w = choose|w: int| 0 <= w < ids.len() && ids[w] == x;
                    assert(old_ids[w] == x);
                }
                if g_before.node_map().contains_key(x) {
                    let w = choose|w: int| 0 <= w < old_ids.len() && old_ids[w] == x;
                    assert(ids[w] == x);
                }
                if x == id {
                    assert(ids[i as int] == x);
                }
            }
            assert forall|k: int|
                0 <= k < i + 1 && (forall|m: int| k < m < i + 1 ==> ids[m] != ids[k]) implies built_node(
                    spec.nodes@[k],
                    #[trigger] g.node_map()[ids[k]],
                ) by {
                if k < i {
                    assert(ids[i as int] != ids[k]);
                    assert(ids[k] == old_ids[k]);
                    assert forall|m: int| k < m < i implies old_ids[m] != old_ids[k] by {
                        assert(ids[m] == old_ids[m]);
                    }
                }
            }
            assert forall|l: Seq<char>|
                #[trigger] labels.map().contains_key(l) implies 0 <= last_labelled(spec.nodes@, l, i + 1) < i + 1
                    && labels.map()[l] == ids[last_labelled(spec.nodes@, l, i + 1)] by {
                if l != n.label@ {
                    assert(last_labelled(spec.nodes@, l, i + 1) == last_labelled(spec.nodes@, l, i as int));
                    assert(ids[last_labelled(spec.nodes@, l, i as int)] == old_ids[last_labelled(spec.nodes@, l, i as int)]);
                }
            }
            let before = spec.nodes@.take(i as int);
            let after = spec.nodes@.take(i + 1);
            assert(after =~= before.push(spec.nodes@[i as int]));
            assert(spec_labels(after) =~= spec_labels(before).insert(n.label@)) by {
                assert forall|l: Seq<char>| spec_labels(after).contains(l) implies #[trigger] spec_labels(before).insert(n.label@).contains(l) by {
                    let w = choose|w: int| 0 <= w < after.len() && (#[trigger] after[w]).label@ == l;
                    if w < i {
                        assert(before[w].label@ == l);
                    }
                }
                assert forall|l: Seq<char>| spec_labels(before).insert(n.label@).contains(l) implies #[trigger] spec_labels(after).contains(l) by {
                    if l == n.label@ {
                        assert(after[i as int].label@ == l);
                    } else {
                        let w = choose|w: int| 0 <= w < before.len() && (#[trigger] before[w]).label@ == l;
                        assert(after[w].label@ == l);
                    }
                }
            }
            assert(labels.map().dom() =~= spec_labels(after));
        }
        i = i + 1;
    }
    proof {
        assert(spec.nodes@.take(spec.nodes@.len() as int) =~= spec.nodes@);
    }
    let ghost all_labels = spec_labels(spec.nodes@);
    let ghost nodes_done = g;
    let mut j: usize = 0;
    while j < spec.edges.len()
        invariant
            j <= spec.edges@.len(),
            g.wf(),
            g.name@ == spec.name@,
            g.edge_total() == j,
            labels.wf(),
            labels.map().dom() == all_labels,
            all_labels == spec_labels(spec.nodes@),
            forall|l: Seq<char>| #[trigger] labels.map().contains_key(l) ==> g.node_map().contains_key(labels.map()[l]),
            first_bad_loop(spec.nodes@, spec.nodes@.len() as int) is None,
            first_bad_edge(spec.edges@, all_labels, j as int) is None,
            ids.len() == spec.nodes@.len(),
            g.node_map() == nodes_done.node_map(),
            g.entries == nodes_done.entries,
            forall|l: Seq<char>|
                #[trigger] labels.map().contains_key(l) ==> labels.map()[l] == label_id(spec.nodes@, ids, l),
            forall|k: int|
                0 <= k < j ==> has_edge(
                    g,
                    label_id(spec.nodes@, ids, (#[trigger] spec.edges@[k]).from@),
                    label_id(spec.nodes@, ids, spec.edges@[k].to@),
                    spec_edge_kind(spec.edges@[k]),
                ),
        decreases spec.edges.len() - j,
    {
        let e = &spec.edges[j];
        let from = match labels.get(e.from.as_str()) {
            Some(id) => *id,
            None => {
                let mut msg = String::from_str("unknown node: ");
                msg.append(e.from.as_str());
                proof {
                    assert(first_bad_edge(spec.edges@, all_labels, j + 1) == Some(msg@));
                    lemma_first_bad_edge_stays(spec.edges@, all_labels, j + 1, spec.edges@.len() as int);
                }
                return Err(msg);
            },
        };
        let to = match labels.get(e.to.as_str()) {
            Some(id) => *id,
            None => {
                let mut msg = String::from_str("unknown node: ");
                msg.append(e.to.as_str());
                proof {
                    assert(first_bad_edge(spec.edges@, all_labels, j + 1) == Some(msg@));
                    lemma_first_bad_edge_stays(spec.edges@, all_labels, j + 1, spec.edges@.len() as int);
                }
                return Err(msg);
            },
        };
        let kind = match &e.kind {
            Some(k) => k.clone(),
            None => String::from_str("normal"),
        };
        let edge = if same_text(kind.as_str(), "normal") {
            Edge::normal(from, to)
        } else if same_text(kind.as_str(), "error") {
            Edge::on_error(from, to)
        } else {
            let mut msg = String::from_str("unsupported edge kind in CLI: ");
            msg.append(kind.as_str());
            proof {
                assert(first_bad_edge(spec.edges@, all_labels, j + 1) == Some(msg@));
                lemma_first_bad_edge_stays(spec.edges@, all_labels, j + 1, spec.edges@.len() as int);
            }
            return Err(msg);
        };
        proof {
            assert(first_bad_edge(spec.edges@, all_labels, j + 1) is None);
        }
        let ghost ev = edge@;
        let ghost g_before = g;
        proof {
            reveal_strlit("normal");
            reveal_strlit("error");
            assert(kind@ == edge_kind_text(*e));
        }
        assert(ev.to == label_id(spec.nodes@, ids, e.to@) && ev.from == label_id(spec.nodes@, ids, e.from@));
        assert("normal"@.len() != "error"@.len());
        assert(ev.kind == spec_edge_kind(*e) && !ev.conditional);
        match g.add_edge(edge) {
            Ok(_) => {},
            Err(err) => {
                proof {
                    assert(false);
                }
                return Err(err.to_string());
            },
        }
        proof {
            let f = ev.from;
            assert(g.edge_map()[f] == g_before.edge_map()[f].push(ev));
            assert(g.edge_map()[f][g_before.edge_map()[f].len() as int] == ev);
            assert forall|k: int|
                0 <= k < j + 1 implies has_edge(
                    g,
                    label_id(spec.nodes@, ids, (#[trigger] spec.edges@[k]).from@),
                    label_id(spec.nodes@, ids, spec.edges@[k].to@),
                    spec_edge_kind(spec.edges@[k]),
                ) by {
                if k < j {
                    let a = label_id(spec.nodes@, ids, spec.edges@[k].from@);
                    let w = choose|w: int|
                        0 <= w < g_before.edge_map()[a].len() && (#[trigger] g_before.edge_map()[a][w]).to
                            == label_id(spec.nodes@, ids, spec.edges@[k].to@) && g_before.edge_map()[a][w].kind
                            == spec_edge_kind(spec.edges@[k]) && !g_before.edge_map()[a][w].conditional;
                    if a == f {
                        assert(g.edge_map()[a][w] == g_before.edge_map()[a][w]);
                    } else {
                        assert(g.edge_map()[a] == g_before.edge_map()[a]);
                    }
                } else {
                    assert(spec.edges@[k] == *e);
                }
            }
        }
        j = j + 1;
    }
    let ghost edges_done = g;
    match &spec.entry {
        Some(entry) => match labels.get(entry.as_str()) {
            Some(id) => {
                g.set_entry(*id);
            },
            None => {},
        },
        None => {},
    }
    proof {
        assert forall|j: int|
            0 <= j < spec.edges@.len() implies has_edge(
                g,
                label_id(spec.nodes@, ids, (#[trigger] spec.edges@[j]).from@),
                label_id(spec.nodes@, ids, spec.edges@[j].to@),
                spec_edge_kind(spec.edges@[j]),
            ) by {
            assert(has_edge(
                edges_done,
                label_id(spec.nodes@, ids, spec.edges@[j].from@),
                label_id(spec.nodes@, ids, spec.edges@[j].to@),
                spec_edge_kind(spec.edges@[j]),
            ));
        }
        assert(built_graph(*spec, g, ids));
    }
    Ok(g)
}

} // verus!
