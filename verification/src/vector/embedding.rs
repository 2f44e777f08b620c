//! Setting and reading embeddings of incidences.

use vstd::prelude::*;
use crate::model::incidence::{IId, IncidenceModel};
use crate::model::world_graph::{GraphModel, WorldGraph};

verus! {

/// Embedding errors.
#[derive(Debug, PartialEq)]
pub enum EmbeddingError {
    /// The embedding's dimension does not fit.
    DimensionMismatch,
    /// No incidence has this identifier.
    NotFound(IId),
}

/// Embedding management.
pub struct Embedding;

impl Embedding {
    /// Sets the embedding of the incidence that `id` refers to (components as `f32` bits).
    pub fn set_embedding(graph: &mut WorldGraph, id: IId, embedding: Vec<u32>) -> (r: Result<(), EmbeddingError>)
        requires
            old(graph).wf(),
        ensures
            final(graph).wf(),
            match old(graph)@.lookup(id) {
                Some(m) => {
                    &&& r is Ok
                    &&& final(graph)@ == (GraphModel {
                        incs: old(graph)@.incs.update(
                            old(graph)@.index[id.0],
                            IncidenceModel { embedding: Some(embedding@), ..m },
                        ),
                        ..old(graph)@
                    })
                },
                None => r == Err::<(), EmbeddingError>(EmbeddingError::NotFound(id)) && final(graph)@ == old(graph)@,
            },
    {
        match graph.get_mut(id) {
            Some(inc) => {
                inc.embedding = Some(embedding);
                Ok(())
            },
            None => Err(EmbeddingError::NotFound(id)),
        }
    }

    /// The embedding of the incidence that `id` refers to.
    pub fn get_embedding(graph: &WorldGraph, id: IId) -> (r: Option<&Vec<u32>>)
        requires
            graph.wf(),
        ensures
            match graph@.lookup(id) {
                Some(m) => match m.embedding {
                    Some(e) => r matches Some(v) && v@ == e,
                    None => r is None,
                },
                None => r is None,
            },
    {
        match graph.get(id) {
            Some(inc) => inc.embedding.as_ref(),
            None => None,
        }
    }

    /// The dimension of the embedding of the incidence that `id` refers to.
    pub fn dimension(graph: &WorldGraph, id: IId) -> (r: Option<usize>)
        requires
            graph.wf(),
        ensures
            match graph@.lookup(id) {
                Some(m) => match m.embedding {
                    Some(e) => r == Some(e.len() as usize),
                    None => r is None,
                },
                None => r is None,
            },
    {
        match graph.get(id) {
            Some(inc) => match &inc.embedding {
                Some(v) => Some(v.len()),
                None => None,
            },
            None => None,
        }
    }
}

} // verus!
