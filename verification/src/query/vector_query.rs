//! Vector queries (SIMILAR, DIST) and hybrid structure + vector queries.

use vstd::prelude::*;
use crate::model::incidence::{IId, IncidenceModel, RoleId};
use crate::model::world_graph::{GraphModel, WorldGraph};

verus! {

/// Vector query errors.
#[derive(Debug)]
pub enum VectorQueryError {
    /// The query is malformed.
    Query(String),
}

/// A k-nearest-neighbour query. Components are `f32` bit patterns.
pub struct VectorQuery {
    /// The query vector.
    pub query_vector: Vec<u32>,
    /// How many neighbours to return.
    pub k: usize,
}

impl VectorQuery {
    /// A new query.
    pub fn new(query_vector: Vec<u32>, k: usize) -> (r: VectorQuery)
        ensures
            r.query_vector@ == query_vector@,
            r.k == k,
    {
        VectorQuery { query_vector, k }
    }
}

/// A structural filter on query results.
pub struct StructureFilter {
    /// Keep only incidences of this type.
    pub type_filter: Option<IId>,
    /// Keep only incidences carrying this role.
    pub role_filter: Option<RoleId>,
}

/// Whether an incidence passes the filter.
pub open spec fn passes_filter(inc: IncidenceModel, type_filter: Option<IId>, role_filter: Option<RoleId>) -> bool {
    &&& (type_filter matches Some(t) ==> inc.ty == Some(t))
    &&& (role_filter matches Some(r) ==> inc.roles.contains(r))
}

/// The results, in order, whose identifiers refer to incidences passing the filter.
pub open spec fn filter_results(
    g: GraphModel,
    results: Seq<(IId, u32)>,
    type_filter: Option<IId>,
    role_filter: Option<RoleId>,
) -> Seq<(IId, u32)>
    decreases results.len(),
{
    if results.len() == 0 {
        Seq::empty()
    } else {
        let rest = filter_results(g, results.drop_last(), type_filter, role_filter);
        match g.lookup(results.last().0) {
            Some(inc) => if passes_filter(inc, type_filter, role_filter) { rest.push(results.last()) } else { rest },
            None => rest,
        }
    }
}

/// The structural filter keeps exactly the results whose incidence exists,
/// has the filtered type (if one is given) and carries the filtered role
/// (if one is given), in their original order.
pub proof fn lemma_filter_results_exact(
    g: GraphModel,
    results: Seq<(IId, u32)>,
    type_filter: Option<IId>,
    role_filter: Option<RoleId>,
)
    ensures
        forall|x: (IId, u32)| #[trigger] filter_results(g, results, type_filter, role_filter).contains(x) ==> {
            &&& results.contains(x)
            &&& g.lookup(x.0) is Some
            &&& (type_filter matches Some(t) ==> g.lookup(x.0)->0.ty == Some(t))
            &&& (role_filter matches Some(r) ==> g.lookup(x.0)->0.roles.contains(r))
        },
        forall|q: int| 0 <= q < results.len() && (g.lookup(#[trigger] results[q].0) matches Some(m) && (
            type_filter matches Some(t) ==> m.ty == Some(t)) && (role_filter matches Some(r) ==> m.roles.contains(r)))
            ==> filter_results(g, results, type_filter, role_filter).contains(results[q]),
        filter_results(g, results, type_filter, role_filter).len() <= results.len(),
    decreases results.len(),
{
    if results.len() > 0 {
        let init = results.drop_last();
        lemma_filter_results_exact(g, init, type_filter, role_filter);
        let rest = filter_results(g, init, type_filter, role_filter);
        let out = filter_results(g, results, type_filter, role_filter);
        assert forall|x: (IId, u32)| #[trigger] out.contains(x) implies {
            &&& results.contains(x)
            &&& g.lookup(x.0) is Some
            &&& (type_filter matches Some(t) ==> g.lookup(x.0)->0.ty == Some(t))
            &&& (role_filter matches Some(r) ==> g.lookup(x.0)->0.roles.contains(r))
        } by {
            let w = choose|w: int| 0 <= w < out.len() && out[w] == x;
            if w < rest.len() {
                assert(out[w] == rest[w]);
                assert(rest.contains(x));
                let v = choose|v: int| 0 <= v < init.len() && init[v] == x;
                assert(results[v] == x);
            } else {
                assert(x == results.last());
                assert(results[results.len() - 1] == x);
            }
        }
        assert forall|q: int| 0 <= q < results.len() && (g.lookup(#[trigger] results[q].0) matches Some(m) && (
            type_filter matches Some(t) ==> m.ty == Some(t)) && (role_filter matches Some(r) ==> m.roles.contains(r)))
            implies out.contains(results[q]) by {
            if q < results.len() - 1 {
                assert(init[q] == results[q]);
                assert(rest.contains(results[q]));
                let w = choose|w: int| 0 <= w < rest.len() && rest[w] == results[q];
                assert(out[w] == rest[w]);
            } else {
                assert(out[out.len() - 1] == results.last());
            }
        }
    }
}

/// A hybrid query: vector search, then a structural filter.
pub struct HybridQuery {
    /// The vector query.
    pub vector_query: VectorQuery,
    /// The structural filter (optional).
    pub structure_filter: Option<StructureFilter>,
}

fn roles_hold(roles: &[RoleId], role: RoleId) -> (r: bool)
    ensures
        r == roles@.contains(role),
{
    let mut k: usize = 0;
    while k < roles.len()
        invariant
            k <= roles@.len(),
            forall|q: int| 0 <= q < k ==> roles@[q] != role,
        decreases roles@.len() - k,
    {
        if roles[k] == role {
            assert(roles@[k as int] == role);
            return true;
        }
        k = k + 1;
    }
    false
}

impl HybridQuery {
    /// A hybrid query with no structural filter.
    pub fn new(vector_query: VectorQuery) -> (r: HybridQuery)
        ensures
            r.vector_query == vector_query,
            r.structure_filter is None,
    {
        HybridQuery { vector_query, structure_filter: None }
    }

    /// Adds a structural filter.
    pub fn with_structure_filter(self, filter: StructureFilter) -> (r: HybridQuery)
        ensures
            r.vector_query == self.vector_query,
            r.structure_filter == Some(filter),
    {
        HybridQuery { vector_query: self.vector_query, structure_filter: Some(filter) }
    }

    /// Applies the structural filter to the results of the vector search
    /// (identifier and `f32` score bits): without a filter all results are
    /// kept; with one, those whose incidence exists and passes it.
    pub fn apply_structure_filter(&self, vector_results: Vec<(IId, u32)>, graph: &WorldGraph) -> (r: Vec<(IId, u32)>)
        requires
            graph.wf(),
        ensures
            match self.structure_filter {
                Some(f) => r@ == filter_results(graph@, vector_results@, f.type_filter, f.role_filter),
                None => r@ == vector_results@,
            },
    {
        match &self.structure_filter {
            None => vector_results,
            Some(filter) => {
                let mut out: Vec<(IId, u32)> = Vec::new();
                let mut k: usize = 0;
                while k < vector_results.len()
                    invariant
                        graph.wf(),
                        k <= vector_results@.len(),
                        out@ == filter_results(graph@, vector_results@.subrange(0, k as int), filter.type_filter, filter.role_filter),
                    decreases vector_results@.len() - k,
                {
                    let (id, score) = vector_results[k];
                    proof {
                        let sub = vector_results@.subrange(0, k + 1);
                        assert(sub.drop_last() =~= vector_results@.subrange(0, k as int));
                        assert(sub.last() == (id, score));
                    }
                    match graph.get(id) {
                        Some(inc) => {
                            let type_ok = match filter.type_filter {
                                Some(t) => match inc.ty {
                                    Some(ty) => ty == t,
                                    None => false,
                                },
                                None => true,
                            };
                            let role_ok = match filter.role_filter {
                                Some(role) => roles_hold(inc.roles.as_slice(), role),
                                None => true,
                            };
                            if type_ok && role_ok {
                                out.push((id, score));
                            }
                        },
                        None => {},
                    }
                    k = k + 1;
                }
                assert(vector_results@.subrange(0, vector_results@.len() as int) =~= vector_results@);
                out
            },
        }
    }
}

} // verus!
