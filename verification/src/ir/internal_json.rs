//! The internal JSON form `{nodes: [], incidences: []}`, tuned for
//! computation, compression and vector processing.

use vstd::prelude::*;
use crate::model::incidence::{Incidence, IncidenceModel, copy_opt_u32s, copy_opt_value, opt_value_model, opt_vec_model};
use crate::model::value::{Value, ValueModel};
use crate::text::{decimal, prefixed_decimal};

verus! {

/// A node (light attributes only).
#[derive(Clone, Debug, PartialEq)]
pub struct NodeJson {
    /// Node identifier.
    pub id: String,
    /// Type.
    pub ty: Option<String>,
    /// Attributes, as JSON text.
    pub attrs: Option<String>,
}

/// An incidence (the main actor). `attrs` holds the incidence's value, which
/// is written out as JSON; `vector` holds `f32` bits.
#[derive(Debug, PartialEq)]
pub struct IncidenceJson {
    /// Incidence identifier.
    pub id: String,
    /// Relation node identifier.
    pub relation: String,
    /// Argument node identifier.
    pub arg: String,
    /// Role.
    pub role: String,
    /// Order.
    pub order: Option<u8>,
    /// Attributes.
    pub attrs: Option<Value>,
    /// Vector embedding.
    pub vector: Option<Vec<u32>>,
}

/// The abstract [`IncidenceJson`].
pub struct IncidenceJsonModel {
    pub id: Seq<char>,
    pub relation: Seq<char>,
    pub arg: Seq<char>,
    pub role: Seq<char>,
    pub order: Option<u8>,
    pub attrs: Option<ValueModel>,
    pub vector: Option<Seq<u32>>,
}

impl IncidenceJson {
    /// The abstract incidence.
    pub open spec fn model(&self) -> IncidenceJsonModel {
        IncidenceJsonModel {
            id: self.id@,
            relation: self.relation@,
            arg: self.arg@,
            role: self.role@,
            order: self.order,
            attrs: opt_value_model(self.attrs),
            vector: opt_vec_model(self.vector),
        }
    }
}

/// The internal form of an incidence: `inc:<id>`, its type as `rel:<id>`,
/// its first argument as `arg:<id>` and its first role as `role:<id>` (empty
/// when absent), order 0, its value as attributes.
pub open spec fn internal_of_incidence(m: IncidenceModel) -> IncidenceJsonModel {
    IncidenceJsonModel {
        id: "inc:"@ + decimal(m.id.0 as nat),
        relation: match m.ty { Some(t) => "rel:"@ + decimal(t.0 as nat), None => Seq::empty() },
        arg: if m.args.len() > 0 { "arg:"@ + decimal(m.args[0].0 as nat) } else { Seq::empty() },
        role: if m.roles.len() > 0 { "role:"@ + decimal(m.roles[0].0 as nat) } else { Seq::empty() },
        order: Some(0),
        attrs: m.val,
        vector: m.embedding,
    }
}

impl IncidenceJson {
    /// The internal form of `inc`.
    pub fn from_incidence(inc: &Incidence) -> (r: IncidenceJson)
        ensures
            r.model() == internal_of_incidence(inc.model()),
    {
        IncidenceJson {
            id: prefixed_decimal("inc:", inc.id.0),
            relation: match inc.ty {
                Some(t) => prefixed_decimal("rel:", t.0),
                None => String::new(),
            },
            arg: if inc.args.len() > 0 { prefixed_decimal("arg:", inc.args[0].0) } else { String::new() },
            role: if inc.roles.len() > 0 { prefixed_decimal("role:", inc.roles[0].0 as u64) } else { String::new() },
            order: Some(0),
            attrs: copy_opt_value(&inc.val),
            vector: copy_opt_u32s(&inc.embedding),
        }
    }
}

/// The internal JSON form.
#[derive(Debug, PartialEq)]
pub struct InternalJson {
    /// Nodes (light attributes only).
    pub nodes: Vec<NodeJson>,
    /// Incidences (the main actors).
    pub incidences: Vec<IncidenceJson>,
}

impl InternalJson {
    /// An empty form.
    pub fn new() -> (r: InternalJson)
        ensures
            r.nodes@ == Seq::<NodeJson>::empty(),
            r.incidences@ == Seq::<IncidenceJson>::empty(),
    {
        InternalJson { nodes: Vec::new(), incidences: Vec::new() }
    }

    /// Appends an incidence.
    pub fn add_incidence(&mut self, inc: IncidenceJson)
        ensures
            final(self).incidences@ == old(self).incidences@.push(inc),
            final(self).nodes@ == old(self).nodes@,
    {
        self.incidences.push(inc);
    }

    /// Appends a node.
    pub fn add_node(&mut self, node: NodeJson)
        ensures
            final(self).nodes@ == old(self).nodes@.push(node),
            final(self).incidences@ == old(self).incidences@,
    {
        self.nodes.push(node);
    }
}

impl Default for InternalJson {
    fn default() -> (r: InternalJson)
        ensures
            r.nodes@ == Seq::<NodeJson>::empty(),
            r.incidences@ == Seq::<IncidenceJson>::empty(),
    {
        InternalJson::new()
    }
}

} // verus!
