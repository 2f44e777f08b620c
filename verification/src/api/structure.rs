//! Extraction of the graph structure around given incidences: a
//! depth-limited walk that reports each reached incidence once, with an
//! edge for each of its arguments.

use vstd::prelude::*;
use std::collections::HashSet;
use crate::model::incidence::{IId, IncidenceModel};
use crate::model::world_graph::{GraphModel, WorldGraph};
use crate::api::schema::{ValueType, ValueTypeModel, decimal_string, parse_id, parsed_id, value_type_of};
use crate::api::query::Query;
use crate::text::{decimal, lemma_decimal_injective};

verus! {

broadcast use vstd::std_specs::hash::group_hash_axioms;

/// A node of an extracted structure.
#[derive(Clone, Debug, PartialEq)]
pub struct GraphNode {
    pub id: String,
    pub level: i32,
    pub type_id: Option<String>,
    pub value: Option<ValueType>,
}

/// An edge of an extracted structure: from an incidence to one of its
/// arguments, with the role at the same position (`0` where there is none).
#[derive(Clone, Debug, PartialEq)]
pub struct GraphEdge {
    pub from: String,
    pub to: String,
    pub role: i32,
}

/// An extracted structure.
#[derive(Clone, Debug, PartialEq)]
pub struct GraphStructure {
    pub nodes: Vec<GraphNode>,
    pub edges: Vec<GraphEdge>,
}

/// The abstract [`GraphNode`].
pub struct GraphNodeModel {
    pub id: Seq<char>,
    pub level: i32,
    pub type_id: Option<Seq<char>>,
    pub value: Option<ValueTypeModel>,
}

/// The abstract [`GraphEdge`].
pub struct GraphEdgeModel {
    pub from: Seq<char>,
    pub to: Seq<char>,
    pub role: i32,
}

impl GraphNode {
    /// The abstract node.
    pub open spec fn model(&self) -> GraphNodeModel {
        GraphNodeModel {
            id: self.id@,
            level: self.level,
            type_id: match self.type_id { Some(s) => Some(s@), None => None },
            value: match self.value { Some(v) => Some(v.model()), None => None },
        }
    }
}

impl GraphEdge {
    /// The abstract edge.
    pub open spec fn model(&self) -> GraphEdgeModel {
        GraphEdgeModel { from: self.from@, to: self.to@, role: self.role }
    }
}

/// The node reported for incidence `m` reached under identifier `id`.
pub open spec fn node_of(id: u64, m: IncidenceModel) -> GraphNodeModel {
    GraphNodeModel {
        id: decimal(id as nat),
        level: m.level.0 as i32,
        type_id: match m.ty { Some(t) => Some(decimal(t.0 as nat)), None => None },
        value: match m.val { Some(v) => Some(value_type_of(v)), None => None },
    }
}

/// The role reported for argument `i` of `m`.
pub open spec fn role_at(m: IncidenceModel, i: int) -> i32 {
    if 0 <= i < m.roles.len() { m.roles[i].0 as i32 } else { 0 }
}

/// The edges from `id` to the arguments of `m`, in order.
pub open spec fn arg_edges(id: u64, m: IncidenceModel) -> Seq<GraphEdgeModel> {
    Seq::new(
        m.args.len(),
        |i: int| GraphEdgeModel { from: decimal(id as nat), to: decimal(m.args[i].0 as nat), role: role_at(m, i) },
    )
}

/// The work items for the arguments of `m`, one level deeper than `d`.
pub open spec fn arg_items(m: IncidenceModel, d: nat) -> Seq<(u64, nat)> {
    Seq::new(m.args.len(), |i: int| (m.args[i].0, d + 1))
}

/// The state of the walk: pending `(identifier, depth)` items, taken from
/// the end; the identifiers seen; the nodes and edges reported so far.
pub struct WalkState {
    pub pending: Seq<(u64, nat)>,
    pub visited: Set<u64>,
    pub nodes: Seq<GraphNodeModel>,
    pub edges: Seq<GraphEdgeModel>,
}

/// One step of the walk: takes the last pending item; an identifier seen
/// before, or one beyond `max_depth`, is dropped; otherwise it is marked
/// seen and, if it names an incidence, reported with an edge per argument,
/// the arguments becoming pending items while the item lies above `max_depth`.
pub open spec fn walk_step(g: GraphModel, st: WalkState, max_depth: nat) -> WalkState {
    let (cur, d) = st.pending.last();
    let rest = st.pending.drop_last();
    if st.visited.contains(cur) || d > max_depth {
        WalkState { pending: rest, ..st }
    } else {
        let seen = st.visited.insert(cur);
        match g.lookup(IId(cur)) {
            Some(m) => WalkState {
                pending: if d < max_depth { rest + arg_items(m, d) } else { rest },
                visited: seen,
                nodes: st.nodes.push(node_of(cur, m)),
                edges: st.edges + arg_edges(cur, m),
            },
            None => WalkState { pending: rest, visited: seen, ..st },
        }
    }
}

/// The state after at most `fuel` steps, stopping when nothing is pending.
pub open spec fn walk(g: GraphModel, st: WalkState, max_depth: nat, fuel: nat) -> WalkState
    decreases fuel,
{
    if fuel == 0 || st.pending.len() == 0 {
        st
    } else {
        walk(g, walk_step(g, st, max_depth), max_depth, (fuel - 1) as nat)
    }
}

/// The initial items: each identifier of `ids` that parses, at depth `0`, in order.
pub open spec fn start_items(ids: Seq<Seq<char>>) -> Seq<(u64, nat)>
    decreases ids.len(),
{
    if ids.len() == 0 {
        Seq::empty()
    } else {
        let rest = start_items(ids.drop_last());
        match parsed_id(ids.last()) {
            Some(v) => rest.push((v, 0nat)),
            None => rest,
        }
    }
}

/// The texts of `ids`.
pub open spec fn texts(ids: Seq<String>) -> Seq<Seq<char>> {
    ids.map_values(|s: String| s@)
}

/// The walk from the identifiers `ids` before its first step.
pub open spec fn start_state(ids: Seq<Seq<char>>) -> WalkState {
    WalkState { pending: start_items(ids), visited: Set::empty(), nodes: Seq::empty(), edges: Seq::empty() }
}

proof fn lemma_walk_extend(g: GraphModel, st: WalkState, max_depth: nat, n: nat)
    requires
        walk(g, st, max_depth, n).pending.len() > 0,
    ensures
        walk(g, st, max_depth, n + 1) == walk_step(g, walk(g, st, max_depth, n), max_depth),
    decreases n,
{
    assert(st.pending.len() > 0);
    if n > 0 {
        lemma_walk_extend(g, walk_step(g, st, max_depth), max_depth, (n - 1) as nat);
    } else {
        assert(walk(g, walk_step(g, st, max_depth), max_depth, 0) == walk_step(g, st, max_depth));
    }
}

proof fn lemma_walk_stays(g: GraphModel, st: WalkState, max_depth: nat, n: nat)
    requires
        walk(g, st, max_depth, n).pending.len() == 0,
    ensures
        walk(g, st, max_depth, n + 1) == walk(g, st, max_depth, n),
    decreases n,
{
    if n > 0 && st.pending.len() > 0 {
        lemma_walk_stays(g, walk_step(g, st, max_depth), max_depth, (n - 1) as nat);
    }
}

/// The edge from `id` to argument `i` of `m`.
fn edge_for(id: u64, m: &crate::model::incidence::Incidence, i: usize) -> (r: GraphEdge)
    requires
        i < m.args@.len(),
    ensures
        r.model() == arg_edges(id, m.model())[i as int],
{
    let role: i32 = if i < m.roles.len() { m.roles[i].0 as i32 } else { 0 };
    GraphEdge { from: decimal_string(id), to: decimal_string(m.args[i].0), role }
}

impl Query {
    /// The structure around the incidences that `ids` name: a walk that
    /// takes the most recently added work item first, starting from each
    /// identifier that parses at depth `0`; see [`walk_step`]. Identifiers
    /// that do not parse are ignored. The walk ends when no item is pending.
    pub fn graph_structure(&self, graph: &WorldGraph, ids: &Vec<String>, depth: i32) -> (r: GraphStructure)
        requires
            graph.wf(),
        ensures
            exists|n: nat| {
                let fin = #[trigger] walk(
                    graph@,
                    start_state(texts(ids@)),
                    depth as usize as nat,
                    n,
                );
                &&& fin.pending.len() == 0
                &&& r.nodes@.map_values(|x: GraphNode| x.model()) == fin.nodes
                &&& r.edges@.map_values(|x: GraphEdge| x.model()) == fin.edges
            },
    {
        let max_depth = depth as usize;
        let ghost g = graph@;
        let ghost md = max_depth as nat;
        let ghost id_seqs = texts(ids@);
        let mut stack: Vec<(u64, usize)> = Vec::new();
        let mut k: usize = 0;
        while k < ids.len()
            invariant
                k <= ids@.len(),
                id_seqs == texts(ids@),
                stack@.map_values(|p: (u64, usize)| (p.0, p.1 as nat)) == start_items(id_seqs.subrange(0, k as int)),
            decreases ids@.len() - k,
        {
            proof {
                let sub = id_seqs.subrange(0, k + 1);
                assert(sub.drop_last() =~= id_seqs.subrange(0, k as int));
                assert(sub.last() == ids@[k as int]@);
            }
            match parse_id(ids[k].as_str()) {
                Some(v) => {
                    let ghost before = stack@;
                    stack.push((v, 0));
                    assert(stack@.map_values(|p: (u64, usize)| (p.0, p.1 as nat))
                        =~= before.map_values(|p: (u64, usize)| (p.0, p.1 as nat)).push((v, 0nat)));
                },
                None => {},
            }
            k = k + 1;
        }
        assert(id_seqs.subrange(0, ids@.len() as int) =~= id_seqs);
        let ghost init = start_state(id_seqs);
        let mut visited: HashSet<u64> = HashSet::new();
        let mut nodes: Vec<GraphNode> = Vec::new();
        let mut edges: Vec<GraphEdge> = Vec::new();
        let ghost mut n: nat = 0;
        proof {
            graph.lemma_index_finite();
            assert(visited@ =~= Set::<u64>::empty());
            assert(nodes@.map_values(|x: GraphNode| x.model()) =~= Seq::<GraphNodeModel>::empty());
            assert(edges@.map_values(|x: GraphEdge| x.model()) =~= Seq::<GraphEdgeModel>::empty());
        }
        while stack.len() > 0
            invariant
                graph.wf(),
                g == graph@,
                g.index.dom().finite(),
                md == max_depth as nat,
                walk(g, init, md, n) == (WalkState {
                    pending: stack@.map_values(|p: (u64, usize)| (p.0, p.1 as nat)),
                    visited: visited@,
                    nodes: nodes@.map_values(|x: GraphNode| x.model()),
                    edges: edges@.map_values(|x: GraphEdge| x.model()),
                }),
            decreases g.index.dom().difference(visited@).len(), stack@.len(),
        {
            let ghost st = walk(g, init, md, n);
            proof {
                lemma_walk_extend(g, init, md, n);
            }
            let top = stack.pop();
            let (cur, d) = match top {
                Some(item) => item,
                None => {
                    return GraphStructure { nodes, edges };
                },
            };
            assert(st.pending.last() == (cur, d as nat));
            assert(stack@.map_values(|p: (u64, usize)| (p.0, p.1 as nat)) =~= st.pending.drop_last());
            if visited.contains(&cur) || d > max_depth {
                proof {
                    n = n + 1;
                }
            } else {
                let ghost before_diff = g.index.dom().difference(visited@);
                visited.insert(cur);
                match graph.get(IId(cur)) {
                    Some(inc) => {
                        let ghost m = inc.model();
                        let node = GraphNode {
                            id: decimal_string(cur),
                            level: inc.level.0 as i32,
                            type_id: match inc.ty {
                                Some(t) => Some(decimal_string(t.0)),
                                None => None,
                            },
                            value: match &inc.val {
                                Some(v) => Some(ValueType::from_value(v)),
                                None => None,
                            },
                        };
                        let ghost nodes_before = nodes@;
                        nodes.push(node);
                        assert(nodes@.map_values(|x: GraphNode| x.model())
                            =~= nodes_before.map_values(|x: GraphNode| x.model()).push(node_of(cur, m)));
                        let ghost edges0 = edges@.map_values(|x: GraphEdge| x.model());
                        let ghost stack0 = stack@.map_values(|p: (u64, usize)| (p.0, p.1 as nat));
                        let mut j: usize = 0;
                        while j < inc.args.len()
                            invariant
                                m == inc.model(),
                                j <= inc.args@.len(),
                                d <= max_depth,
                                edges@.map_values(|x: GraphEdge| x.model())
                                    == edges0 + arg_edges(cur, m).subrange(0, j as int),
                                stack@.map_values(|p: (u64, usize)| (p.0, p.1 as nat))
                                    == stack0 + (if d < max_depth {
                                        arg_items(m, d as nat).subrange(0, j as int)
                                    } else {
                                        Seq::empty()
                                    }),
                            decreases inc.args@.len() - j,
                        {
                            let e = edge_for(cur, inc, j);
                            let ghost eb = edges@;
                            edges.push(e);
                            assert(edges@.map_values(|x: GraphEdge| x.model())
                                =~= edges0 + arg_edges(cur, m).subrange(0, j + 1)) by {
                                assert(edges@ == eb.push(e));
                                assert(edges@.map_values(|x: GraphEdge| x.model())
                                    =~= eb.map_values(|x: GraphEdge| x.model()).push(e.model()));
                            }
                            if d < max_depth {
                                let ghost sb = stack@;
                                stack.push((inc.args[j].0, d + 1));
                                assert(stack@.map_values(|p: (u64, usize)| (p.0, p.1 as nat))
                                    =~= stack0 + arg_items(m, d as nat).subrange(0, j + 1)) by {
                                    assert(stack@ == sb.push((inc.args@[j as int].0, (d + 1) as usize)));
                                    assert(stack@.map_values(|p: (u64, usize)| (p.0, p.1 as nat))
                                        =~= sb.map_values(|p: (u64, usize)| (p.0, p.1 as nat)).push((inc.args@[j as int].0, (d + 1) as nat)));
                                }
                            }
                            j = j + 1;
                        }
                        proof {
                            assert(arg_edges(cur, m).subrange(0, m.args.len() as int) =~= arg_edges(cur, m));
                            assert(arg_items(m, d as nat).subrange(0, m.args.len() as int) =~= arg_items(m, d as nat));
                            assert(g.index.contains_key(cur));
                            assert(before_diff.contains(cur));
                            assert(g.index.dom().difference(visited@) =~= before_diff.remove(cur));
                            n = n + 1;
                        }
                    },
                    None => {
                        proof {
                            assert(!g.index.contains_key(cur));
                            assert(g.index.dom().difference(visited@) =~= before_diff);
                            n = n + 1;
                        }
                    },
                }
            }
        }
        proof {
            assert(stack@.map_values(|p: (u64, usize)| (p.0, p.1 as nat)).len() == 0);
        }
        GraphStructure { nodes, edges }
    }
}


/// No two reported nodes carry the same identifier.
pub open spec fn nodes_distinct(nodes: Seq<GraphNodeModel>) -> bool {
    forall|i: int, j: int| 0 <= i < j < nodes.len() ==> nodes[i].id != nodes[j].id
}

/// `id` is the numeral of a seen identifier.
spec fn seen_id(visited: Set<u64>, id: Seq<char>) -> bool {
    exists|x: u64| visited.contains(x) && id == decimal(x as nat)
}

/// Every reported node carries the identifier of a seen incidence, and no two the same.
spec fn walk_inv(st: WalkState) -> bool {
    &&& nodes_distinct(st.nodes)
    &&& forall|i: int| 0 <= i < st.nodes.len() ==> seen_id(st.visited, #[trigger] st.nodes[i].id)
}

proof fn lemma_walk_step_inv(g: GraphModel, st: WalkState, max_depth: nat)
    requires
        walk_inv(st),
        st.pending.len() > 0,
    ensures
        walk_inv(walk_step(g, st, max_depth)),
{
    let (cur, d) = st.pending.last();
    if !(st.visited.contains(cur) || d > max_depth) {
        let seen = st.visited.insert(cur);
        match g.lookup(IId(cur)) {
            Some(m) => {
                let nodes = st.nodes.push(node_of(cur, m));
                assert forall|i: int, j: int| 0 <= i < j < nodes.len() implies nodes[i].id != nodes[j].id by {
                    if j == st.nodes.len() {
                        assert(seen_id(st.visited, st.nodes[i].id));
                        let x = choose|x: u64| st.visited.contains(x) && st.nodes[i].id == decimal(x as nat);
                        if nodes[i].id == nodes[j].id {
                            lemma_decimal_injective(x as nat, cur as nat);
                        }
                    }
                }
                assert forall|i: int| 0 <= i < nodes.len() implies seen_id(seen, #[trigger] nodes[i].id) by {
                    if i < st.nodes.len() {
                        assert(seen_id(st.visited, st.nodes[i].id));
                        let x = choose|x: u64| st.visited.contains(x) && st.nodes[i].id == decimal(x as nat);
                        assert(seen.contains(x));
                    } else {
                        assert(seen.contains(cur));
                        assert(nodes[i].id == decimal(cur as nat));
                    }
                }
            },
            None => {
                assert forall|i: int| 0 <= i < st.nodes.len() implies seen_id(seen, #[trigger] st.nodes[i].id) by {
                    assert(seen_id(st.visited, st.nodes[i].id));
                    let x = choose|x: u64| st.visited.contains(x) && st.nodes[i].id == decimal(x as nat);
                    assert(seen.contains(x));
                }
            },
        }
    }
}

proof fn lemma_walk_inv(g: GraphModel, st: WalkState, max_depth: nat, fuel: nat)
    requires
        walk_inv(st),
    ensures
        walk_inv(walk(g, st, max_depth, fuel)),
    decreases fuel,
{
    if fuel > 0 && st.pending.len() > 0 {
        lemma_walk_step_inv(g, st, max_depth);
        lemma_walk_inv(g, walk_step(g, st, max_depth), max_depth, (fuel - 1) as nat);
    }
}

/// The structure walk reports an incidence at most once: no two nodes of
/// its result carry the same identifier, however far it has run.
pub proof fn lemma_walk_reports_once(g: GraphModel, ids: Seq<Seq<char>>, max_depth: nat, fuel: nat)
    ensures
        nodes_distinct(walk(g, start_state(ids), max_depth, fuel).nodes),
{
    lemma_walk_inv(g, start_state(ids), max_depth, fuel);
}

} // verus!
