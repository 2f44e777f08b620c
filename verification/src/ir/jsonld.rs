//! The JSON-LD form: publication, knowledge sharing and web integration.

use vstd::prelude::*;
use crate::model::incidence::{Incidence, IncidenceModel, copy_opt_u32s, opt_vec_model};
use crate::text::{decimal, prefixed_decimal};

verus! {

/// A term definition of a JSON-LD context: an IRI, or a node with an `@id`
/// and an `@type`.
#[derive(Clone, Debug, PartialEq, Eq)]
pub enum ContextTerm {
    /// The term stands for this IRI.
    Iri(String),
    /// The term is a node: `{"@id": id, "@type": ty}`.
    Node { id: String, ty: String },
}

/// The abstract [`ContextTerm`].
pub enum ContextTermModel {
    Iri(Seq<char>),
    Node(Seq<char>, Seq<char>),
}

impl ContextTerm {
    /// The abstract term.
    pub open spec fn model(&self) -> ContextTermModel {
        match self {
            ContextTerm::Iri(s) => ContextTermModel::Iri(s@),
            ContextTerm::Node { id, ty } => ContextTermModel::Node(id@, ty@),
        }
    }
}

/// The abstract [`JsonLdContext`].
#[verifier::ext_equal]
pub struct JsonLdContextModel {
    pub vocab: Option<Seq<char>>,
    pub definitions: Seq<(Seq<char>, ContextTermModel)>,
}

/// A JSON-LD `@context`.
#[derive(Clone, Debug, PartialEq, Eq)]
pub struct JsonLdContext {
    /// `@vocab`.
    pub vocab: Option<String>,
    /// The other term definitions, by name.
    pub definitions: Vec<(String, ContextTerm)>,
}

/// The base IRI of the incidence vocabulary.
pub open spec fn vocab_base() -> Seq<char> {
    "http://example.org/incidence#"@
}

impl JsonLdContext {
    /// The default context (see [`JsonLdContext::default`]).
    pub open spec fn default_spec() -> JsonLdContextModel {
        JsonLdContextModel {
            vocab: Some(vocab_base()),
            definitions: seq![
                ("inc"@, ContextTermModel::Iri(vocab_base())),
                ("x"@, ContextTermModel::Node("http://example.org/incidence#x"@, "@id"@)),
                ("y"@, ContextTermModel::Node("http://example.org/incidence#y"@, "@id"@)),
                ("role"@, ContextTermModel::Iri("http://example.org/incidence#role"@)),
                ("vector"@, ContextTermModel::Iri("http://example.org/incidence#vector"@)),
            ],
        }
    }

    /// The abstract context.
    pub open spec fn model(&self) -> JsonLdContextModel {
        JsonLdContextModel { vocab: opt_str(self.vocab), definitions: self.definitions_model() }
    }

    /// The abstract definitions.
    pub open spec fn definitions_model(&self) -> Seq<(Seq<char>, ContextTermModel)> {
        self.definitions@.map_values(|d: (String, ContextTerm)| (d.0@, d.1.model()))
    }

    /// The default context: the incidence vocabulary, with `inc`, `role` and
    /// `vector` as IRIs and `x`, `y` as node references.
    pub fn default() -> (r: JsonLdContext)
        ensures
            r.model() == JsonLdContext::default_spec(),
    {
        let mut definitions: Vec<(String, ContextTerm)> = Vec::new();
        definitions.push((String::from_str("inc"), ContextTerm::Iri(String::from_str("http://example.org/incidence#"))));
        definitions.push((
            String::from_str("x"),
            ContextTerm::Node {
                id: String::from_str("http://example.org/incidence#x"),
                ty: String::from_str("@id"),
            },
        ));
        definitions.push((
            String::from_str("y"),
            ContextTerm::Node {
                id: String::from_str("http://example.org/incidence#y"),
                ty: String::from_str("@id"),
            },
        ));
        definitions.push((String::from_str("role"), ContextTerm::Iri(String::from_str("http://example.org/incidence#role"))));
        definitions.push((
            String::from_str("vector"),
            ContextTerm::Iri(String::from_str("http://example.org/incidence#vector")),
        ));
        let r = JsonLdContext { vocab: Some(String::from_str("http://example.org/incidence#")), definitions };
        assert(r.definitions_model() =~= seq![
            ("inc"@, ContextTermModel::Iri(vocab_base())),
            ("x"@, ContextTermModel::Node("http://example.org/incidence#x"@, "@id"@)),
            ("y"@, ContextTermModel::Node("http://example.org/incidence#y"@, "@id"@)),
            ("role"@, ContextTermModel::Iri("http://example.org/incidence#role"@)),
            ("vector"@, ContextTermModel::Iri("http://example.org/incidence#vector"@)),
        ]);
        r
    }
}

/// An incidence in JSON-LD (`@id`, `@type`, `x`, `y`, `role`, `vector`);
/// `vector` holds `f32` bits.
#[derive(Clone, Debug, PartialEq, Eq)]
pub struct JsonLdIncidence {
    /// `@id`.
    pub id: String,
    /// `@type`.
    pub ty: String,
    /// `x`: the argument.
    pub x: Option<String>,
    /// `y`: the relation.
    pub y: Option<String>,
    /// `role`.
    pub role: Option<String>,
    /// `vector`.
    pub vector: Option<Vec<u32>>,
}

/// The abstract [`JsonLdIncidence`].
pub struct JsonLdIncidenceModel {
    pub id: Seq<char>,
    pub ty: Seq<char>,
    pub x: Option<Seq<char>>,
    pub y: Option<Seq<char>>,
    pub role: Option<Seq<char>>,
    pub vector: Option<Seq<u32>>,
}

/// The abstract view of an optional string.
pub open spec fn opt_str(s: Option<String>) -> Option<Seq<char>> {
    match s {
        Some(x) => Some(x@),
        None => None,
    }
}

impl JsonLdIncidence {
    /// The abstract incidence.
    pub open spec fn model(&self) -> JsonLdIncidenceModel {
        JsonLdIncidenceModel {
            id: self.id@,
            ty: self.ty@,
            x: opt_str(self.x),
            y: opt_str(self.y),
            role: opt_str(self.role),
            vector: opt_vec_model(self.vector),
        }
    }
}

/// The JSON-LD form of an incidence: `inc:<id>`, its first argument as
/// `arg:<id>`, its type as `rel:<id>` and its first role as `role:<id>`.
pub open spec fn jsonld_of_incidence(m: IncidenceModel) -> JsonLdIncidenceModel {
    JsonLdIncidenceModel {
        id: "inc:"@ + decimal(m.id.0 as nat),
        ty: "Incidence"@,
        x: if m.args.len() > 0 { Some("arg:"@ + decimal(m.args[0].0 as nat)) } else { None },
        y: match m.ty { Some(t) => Some("rel:"@ + decimal(t.0 as nat)), None => None },
        role: if m.roles.len() > 0 { Some("role:"@ + decimal(m.roles[0].0 as nat)) } else { None },
        vector: m.embedding,
    }
}

impl JsonLdIncidence {
    /// The JSON-LD form of `inc`.
    pub fn from_incidence(inc: &Incidence) -> (r: JsonLdIncidence)
        ensures
            r.model() == jsonld_of_incidence(inc.model()),
    {
        JsonLdIncidence {
            id: prefixed_decimal("inc:", inc.id.0),
            ty: String::from_str("Incidence"),
            x: if inc.args.len() > 0 { Some(prefixed_decimal("arg:", inc.args[0].0)) } else { None },
            y: match inc.ty {
                Some(t) => Some(prefixed_decimal("rel:", t.0)),
                None => None,
            },
            role: if inc.roles.len() > 0 { Some(prefixed_decimal("role:", inc.roles[0].0 as u64)) } else { None },
            vector: copy_opt_u32s(&inc.embedding),
        }
    }
}

/// A JSON-LD document.
#[derive(Clone, Debug, PartialEq, Eq)]
pub struct JsonLd {
    /// `@context`.
    pub context: JsonLdContext,
    /// `@graph`: the incidences.
    pub graph: Vec<JsonLdIncidence>,
}

impl JsonLd {
    /// A document with the given context and no incidences.
    pub fn new(context: JsonLdContext) -> (r: JsonLd)
        ensures
            r.context == context,
            r.graph@ == Seq::<JsonLdIncidence>::empty(),
    {
        JsonLd { context, graph: Vec::new() }
    }

    /// Appends an incidence.
    pub fn add_incidence(&mut self, inc: JsonLdIncidence)
        ensures
            final(self).graph@ == old(self).graph@.push(inc),
            final(self).context == old(self).context,
    {
        self.graph.push(inc);
    }
}

} // verus!
