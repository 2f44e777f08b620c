//! Conversions between JSON-LD, the internal JSON form and the world graph.

use vstd::prelude::*;
use crate::model::incidence::{Incidence, IncidenceModel, copy_opt_u32s};
use crate::model::world_graph::WorldGraph;
use crate::ir::jsonld::{JsonLd, JsonLdContext, JsonLdIncidence, JsonLdIncidenceModel, jsonld_of_incidence};
use crate::ir::internal_json::{IncidenceJson, IncidenceJsonModel, InternalJson, internal_of_incidence};

verus! {

/// The text of an optional string, empty when absent.
pub open spec fn or_empty(s: Option<Seq<char>>) -> Seq<char> {
    match s {
        Some(x) => x,
        None => Seq::empty(),
    }
}

/// The internal form of a JSON-LD incidence: `y` is the relation, `x` the
/// argument (each empty when absent), order 0, no attributes.
pub open spec fn internal_of_jsonld(j: JsonLdIncidenceModel) -> IncidenceJsonModel {
    IncidenceJsonModel {
        id: j.id,
        relation: or_empty(j.y),
        arg: or_empty(j.x),
        role: or_empty(j.role),
        order: Some(0),
        attrs: None,
        vector: j.vector,
    }
}

/// The JSON-LD form of an internal incidence, of type `Incidence`.
pub open spec fn jsonld_of_internal(i: IncidenceJsonModel) -> JsonLdIncidenceModel {
    JsonLdIncidenceModel {
        id: i.id,
        ty: "Incidence"@,
        x: Some(i.arg),
        y: Some(i.relation),
        role: Some(i.role),
        vector: i.vector,
    }
}

/// The abstract incidences of a JSON-LD document.
pub open spec fn jsonld_incidences(v: Seq<JsonLdIncidence>) -> Seq<JsonLdIncidenceModel> {
    v.map_values(|j: JsonLdIncidence| j.model())
}

/// The abstract incidences of an internal form.
pub open spec fn internal_incidences(v: Seq<IncidenceJson>) -> Seq<IncidenceJsonModel> {
    v.map_values(|i: IncidenceJson| i.model())
}

fn copy_string(s: &String) -> (r: String)
    ensures
        r@ == s@,
{
    let c = s.clone();
    assert(c@ == s@);
    c
}

fn string_or_empty(s: &Option<String>) -> (r: String)
    ensures
        r@ == or_empty(match *s { Some(x) => Some(x@), None => None }),
{
    match s {
        Some(x) => copy_string(x),
        None => String::new(),
    }
}

/// Converts JSON-LD to the internal form.
pub struct JsonLdConverter;

impl JsonLdConverter {
    /// The internal form of a JSON-LD document, incidence by incidence.
    pub fn to_internal(jsonld: &JsonLd) -> (r: InternalJson)
        ensures
            r.nodes@.len() == 0,
            internal_incidences(r.incidences@) == jsonld_incidences(jsonld.graph@).map_values(
                |j: JsonLdIncidenceModel| internal_of_jsonld(j),
            ),
    {
        let mut internal = InternalJson::new();
        let mut k: usize = 0;
        while k < jsonld.graph.len()
            invariant
                k <= jsonld.graph@.len(),
                internal.nodes@.len() == 0,
                internal_incidences(internal.incidences@) == jsonld_incidences(jsonld.graph@.subrange(0, k as int)).map_values(
                    |j: JsonLdIncidenceModel| internal_of_jsonld(j),
                ),
            decreases jsonld.graph@.len() - k,
        {
            let inc = &jsonld.graph[k];
            let incidence = IncidenceJson {
                id: copy_string(&inc.id),
                relation: string_or_empty(&inc.y),
                arg: string_or_empty(&inc.x),
                role: string_or_empty(&inc.role),
                order: Some(0),
                attrs: None,
                vector: copy_opt_u32s(&inc.vector),
            };
            let ghost im = incidence.model();
            assert(im == internal_of_jsonld(inc.model()));
            let ghost prev = internal.incidences@;
            internal.add_incidence(incidence);
            k = k + 1;
            assert(internal_incidences(internal.incidences@) =~= internal_incidences(prev).push(im));
            assert(jsonld_incidences(jsonld.graph@.subrange(0, k as int)).map_values(|j: JsonLdIncidenceModel| internal_of_jsonld(j))
                =~= jsonld_incidences(jsonld.graph@.subrange(0, k - 1)).map_values(|j: JsonLdIncidenceModel| internal_of_jsonld(j)).push(im));
        }
        assert(jsonld.graph@.subrange(0, jsonld.graph@.len() as int) =~= jsonld.graph@);
        internal
    }
}

/// Converts the internal form and the world graph to JSON-LD.
pub struct InternalJsonConverter;

impl InternalJsonConverter {
    /// The JSON-LD form of an internal form, with the default context.
    pub fn to_jsonld(internal: &InternalJson) -> (r: JsonLd)
        ensures
            r.context.model() == JsonLdContext::default_spec(),
            jsonld_incidences(r.graph@) == internal_incidences(internal.incidences@).map_values(
                |i: IncidenceJsonModel| jsonld_of_internal(i),
            ),
    {
        let context = JsonLdContext::default();
        let mut jsonld = JsonLd::new(context);
        let mut k: usize = 0;
        while k < internal.incidences.len()
            invariant
                k <= internal.incidences@.len(),
                jsonld.context.model() == JsonLdContext::default_spec(),
                jsonld_incidences(jsonld.graph@) == internal_incidences(internal.incidences@.subrange(0, k as int)).map_values(
                    |i: IncidenceJsonModel| jsonld_of_internal(i),
                ),
            decreases internal.incidences@.len() - k,
        {
            let inc = &internal.incidences[k];
            let j = JsonLdIncidence {
                id: copy_string(&inc.id),
                ty: String::from_str("Incidence"),
                x: Some(copy_string(&inc.arg)),
                y: Some(copy_string(&inc.relation)),
                role: Some(copy_string(&inc.role)),
                vector: copy_opt_u32s(&inc.vector),
            };
            let ghost jm = j.model();
            assert(jm == jsonld_of_internal(inc.model()));
            let ghost prev = jsonld.graph@;
            jsonld.add_incidence(j);
            k = k + 1;
            assert(jsonld_incidences(jsonld.graph@) =~= jsonld_incidences(prev).push(jm));
            assert(internal_incidences(internal.incidences@.subrange(0, k as int)).map_values(|i: IncidenceJsonModel| jsonld_of_internal(i))
                =~= internal_incidences(internal.incidences@.subrange(0, k - 1)).map_values(|i: IncidenceJsonModel| jsonld_of_internal(i)).push(jm));
        }
        assert(internal.incidences@.subrange(0, internal.incidences@.len() as int) =~= internal.incidences@);
        jsonld
    }

    /// The JSON-LD form of a world graph, incidence by incidence in arena order.
    pub fn from_world_graph(graph: &WorldGraph) -> (r: JsonLd)
        ensures
            r.context.model() == JsonLdContext::default_spec(),
            jsonld_incidences(r.graph@) == graph@.incs.map_values(|m: IncidenceModel| jsonld_of_incidence(m)),
    {
        let context = JsonLdContext::default();
        let mut jsonld = JsonLd::new(context);
        let incs = graph.iter();
        let ghost ms = incs@.map_values(|i: Incidence| i.model());
        let mut k: usize = 0;
        while k < incs.len()
            invariant
                ms == incs@.map_values(|i: Incidence| i.model()),
                ms == graph@.incs,
                k <= incs@.len(),
                jsonld.context.model() == JsonLdContext::default_spec(),
                jsonld_incidences(jsonld.graph@) == ms.subrange(0, k as int).map_values(|m: IncidenceModel| jsonld_of_incidence(m)),
            decreases incs@.len() - k,
        {
            let j = JsonLdIncidence::from_incidence(&incs[k]);
            let ghost jm = j.model();
            let ghost prev = jsonld.graph@;
            jsonld.add_incidence(j);
            k = k + 1;
            assert(jsonld_incidences(jsonld.graph@) =~= jsonld_incidences(prev).push(jm));
            assert(ms.subrange(0, k as int).map_values(|m: IncidenceModel| jsonld_of_incidence(m))
                =~= ms.subrange(0, k - 1).map_values(|m: IncidenceModel| jsonld_of_incidence(m)).push(jm));
        }
        assert(ms.subrange(0, ms.len() as int) =~= ms);
        jsonld
    }

    /// The internal form of a world graph, incidence by incidence in arena order.
    pub fn to_internal_from_graph(graph: &WorldGraph) -> (r: InternalJson)
        ensures
            r.nodes@.len() == 0,
            internal_incidences(r.incidences@) == graph@.incs.map_values(|m: IncidenceModel| internal_of_incidence(m)),
    {
        let mut internal = InternalJson::new();
        let incs = graph.iter();
        let ghost ms = incs@.map_values(|i: Incidence| i.model());
        let mut k: usize = 0;
        while k < incs.len()
            invariant
                ms == incs@.map_values(|i: Incidence| i.model()),
                ms == graph@.incs,
                k <= incs@.len(),
                internal.nodes@.len() == 0,
                internal_incidences(internal.incidences@) == ms.subrange(0, k as int).map_values(|m: IncidenceModel| internal_of_incidence(m)),
            decreases incs@.len() - k,
        {
            let i = IncidenceJson::from_incidence(&incs[k]);
            let ghost im = i.model();
            let ghost prev = internal.incidences@;
            internal.add_incidence(i);
            k = k + 1;
            assert(internal_incidences(internal.incidences@) =~= internal_incidences(prev).push(im));
            assert(ms.subrange(0, k as int).map_values(|m: IncidenceModel| internal_of_incidence(m))
                =~= ms.subrange(0, k - 1).map_values(|m: IncidenceModel| internal_of_incidence(m)).push(im));
        }
        assert(ms.subrange(0, ms.len() as int) =~= ms);
        internal
    }
}

/// Internal form → JSON-LD → internal form gives back every incidence whose
/// order is 0 and which carries no attributes.
pub proof fn lemma_internal_round_trip(i: IncidenceJsonModel)
    requires
        i.order == Some(0u8),
        i.attrs is None,
    ensures
        internal_of_jsonld(jsonld_of_internal(i)) == i,
{
}

/// JSON-LD → internal form → JSON-LD keeps identifiers and vectors, sets the
/// type to `Incidence`, and makes absent `x`, `y` and `role` empty strings.
pub proof fn lemma_jsonld_round_trip(j: JsonLdIncidenceModel)
    ensures
        jsonld_of_internal(internal_of_jsonld(j)) == (JsonLdIncidenceModel {
            ty: "Incidence"@,
            x: Some(or_empty(j.x)),
            y: Some(or_empty(j.y)),
            role: Some(or_empty(j.role)),
            ..j
        }),
{
}

/// The two exports of a graph agree: exporting to JSON-LD and converting to
/// the internal form gives the direct internal export without attributes.
pub proof fn lemma_exports_agree(m: IncidenceModel)
    ensures
        internal_of_jsonld(jsonld_of_incidence(m)) == (IncidenceJsonModel { attrs: None, ..internal_of_incidence(m) }),
{
}

} // verus!
