//! Choosing the incidence embeddings from which node and relation embeddings
//! are aggregated (averaged).

use vstd::prelude::*;
use crate::model::incidence::{IId, Incidence, IncidenceModel, copy_u32s};
use crate::model::world_graph::WorldGraph;

verus! {

/// The embeddings, in arena order, of the incidences that satisfy `sel`.
pub open spec fn selected_embeddings(incs: Seq<IncidenceModel>, sel: spec_fn(IncidenceModel) -> bool) -> Seq<Seq<u32>>
    decreases incs.len(),
{
    if incs.len() == 0 {
        Seq::empty()
    } else {
        let rest = selected_embeddings(incs.drop_last(), sel);
        let last = incs.last();
        if sel(last) {
            match last.embedding {
                Some(e) => rest.push(e),
                None => rest,
            }
        } else {
            rest
        }
    }
}

/// The embeddings to average over the incidences that satisfy `sel`: none
/// when no incidence satisfies it, when none of those has an embedding, or
/// when the embeddings differ in dimension.
pub open spec fn aggregation_inputs(incs: Seq<IncidenceModel>, sel: spec_fn(IncidenceModel) -> bool) -> Option<Seq<Seq<u32>>> {
    let es = selected_embeddings(incs, sel);
    if !(exists|p: int| 0 <= p < incs.len() && sel(#[trigger] incs[p])) {
        None
    } else if es.len() == 0 {
        None
    } else if exists|q: int| 0 <= q < es.len() && #[trigger] es[q].len() != es[0].len() {
        None
    } else {
        Some(es)
    }
}

/// The incidences that have `node` among their arguments.
pub open spec fn mentions_node(node: IId) -> spec_fn(IncidenceModel) -> bool {
    |m: IncidenceModel| m.args.contains(node)
}

/// The incidences whose type is `relation`.
pub open spec fn has_relation(relation: IId) -> spec_fn(IncidenceModel) -> bool {
    |m: IncidenceModel| m.ty == Some(relation)
}

/// The abstract embeddings of a list of embeddings.
pub open spec fn embeddings_model(v: Seq<Vec<u32>>) -> Seq<Seq<u32>> {
    v.map_values(|e: Vec<u32>| e@)
}

fn args_contain(args: &[IId], id: IId) -> (r: bool)
    ensures
        r == args@.contains(id),
{
    let mut k: usize = 0;
    while k < args.len()
        invariant
            k <= args@.len(),
            forall|q: int| 0 <= q < k ==> args@[q] != id,
        decreases args@.len() - k,
    {
        if args[k] == id {
            assert(args@[k as int] == id);
            return true;
        }
        k = k + 1;
    }
    false
}

/// Selects the embeddings to aggregate; `by_node` chooses incidences that
/// mention `target` as an argument, otherwise those whose type is `target`.
fn collect_inputs(graph: &WorldGraph, target: IId, by_node: bool) -> (r: Option<Vec<Vec<u32>>>)
    requires
        graph.wf(),
    ensures
        ({
            let sel = if by_node { mentions_node(target) } else { has_relation(target) };
            match aggregation_inputs(graph@.incs, sel) {
                Some(es) => r matches Some(v) && embeddings_model(v@) == es,
                None => r is None,
            }
        }),
{
    let ghost sel = if by_node { mentions_node(target) } else { has_relation(target) };
    let incs = graph.iter();
    let ghost ms = incs@.map_values(|i: Incidence| i.model());
    assert(ms == graph@.incs);
    let mut any = false;
    let mut out: Vec<Vec<u32>> = Vec::new();
    let mut k: usize = 0;
    while k < incs.len()
        invariant
            ms == incs@.map_values(|i: Incidence| i.model()),
            sel == (if by_node { mentions_node(target) } else { has_relation(target) }),
            k <= incs@.len(),
            any == exists|p: int| 0 <= p < k && sel(#[trigger] ms[p]),
            embeddings_model(out@) == selected_embeddings(ms.subrange(0, k as int), sel),
        decreases incs@.len() - k,
    {
        let inc = &incs[k];
        assert(ms[k as int] == inc.model());
        let chosen = if by_node { args_contain(inc.args.as_slice(), target) } else {
            match inc.ty {
                Some(t) => t == target,
                None => false,
            }
        };
        assert(chosen == sel(ms[k as int]));
        proof {
            let sub = ms.subrange(0, k + 1);
            assert(sub.drop_last() =~= ms.subrange(0, k as int));
            assert(sub.last() == ms[k as int]);
        }
        if chosen {
            any = true;
            match &inc.embedding {
                Some(e) => {
                    let ghost prev = out@;
                    let c = copy_u32s(e.as_slice());
                    let ghost cm = c@;
                    out.push(c);
                    assert(embeddings_model(out@) =~= embeddings_model(prev).push(cm));
                },
                None => {},
            }
        }
        k = k + 1;
    }
    assert(ms.subrange(0, ms.len() as int) =~= ms);
    if !any {
        return None;
    }
    if out.len() == 0 {
        return None;
    }
    let dim = out[0].len();
    let ghost graph_incs = graph@.incs;
    assert(exists|p: int| 0 <= p < graph_incs.len() && sel(#[trigger] graph_incs[p]));
    let mut q: usize = 0;
    while q < out.len()
        invariant
            sel == (if by_node { mentions_node(target) } else { has_relation(target) }),
            graph_incs == graph@.incs,
            exists|p: int| 0 <= p < graph_incs.len() && sel(#[trigger] graph_incs[p]),
            embeddings_model(out@) == selected_embeddings(graph_incs, sel),
            q <= out@.len(),
            out@.len() > 0,
            dim == out@[0]@.len(),
            forall|j: int| 0 <= j < q ==> #[trigger] out@[j]@.len() == dim,
        decreases out@.len() - q,
    {
        if out[q].len() != dim {
            assert(embeddings_model(out@)[q as int].len() != embeddings_model(out@)[0].len());
            return None;
        }
        q = q + 1;
    }
    assert forall|j: int| 0 <= j < out@.len() implies #[trigger] embeddings_model(out@)[j].len()
        == embeddings_model(out@)[0].len() by {
        assert(out@[j]@.len() == dim);
    }
    Some(out)
}

/// The embeddings from which the embedding of node `node_id` is averaged:
/// those of the incidences that have it as an argument.
pub fn node_embedding_inputs(graph: &WorldGraph, node_id: IId) -> (r: Option<Vec<Vec<u32>>>)
    requires
        graph.wf(),
    ensures
        match aggregation_inputs(graph@.incs, mentions_node(node_id)) {
            Some(es) => r matches Some(v) && embeddings_model(v@) == es,
            None => r is None,
        },
{
    collect_inputs(graph, node_id, true)
}

/// The embeddings from which the embedding of relation `relation_id` is
/// averaged: those of the incidences whose type it is.
pub fn relation_embedding_inputs(graph: &WorldGraph, relation_id: IId) -> (r: Option<Vec<Vec<u32>>>)
    requires
        graph.wf(),
    ensures
        match aggregation_inputs(graph@.incs, has_relation(relation_id)) {
            Some(es) => r matches Some(v) && embeddings_model(v@) == es,
            None => r is None,
        },
{
    collect_inputs(graph, relation_id, false)
}

} // verus!
