//! Result shapes of the GraphQL schema and the computations behind its queries.

use vstd::prelude::*;
use crate::model::incidence::{IId, Incidence, IncidenceModel, RoleId, copy_u32s, copy_opt_u32s, opt_vec_model};
use crate::model::value::{Value, ValueModel};
use crate::text::{chars_of, decimal, parse_unsigned, parse_unsigned_chars, prefixed_decimal};

verus! {

/// Why the API refused a request.
#[derive(Clone, Copy, Debug, PartialEq, Eq, Structural)]
pub enum ApiError {
    /// An incidence identifier is not a decimal `u64`.
    InvalidId,
    /// A type identifier is not a decimal `u64`.
    InvalidTypeId,
    /// An argument identifier is not a decimal `u64`.
    InvalidArgId,
    /// An entity identifier is not a decimal `u64`.
    InvalidEntityId,
    /// A benchmark needs a graph with incidences.
    EmptyGraph,
    /// A benchmark needs incidences with embeddings.
    NoVectors,
}

impl ApiError {
    /// The message the API answers with.
    pub open spec fn message_spec(&self) -> Seq<char> {
        match self {
            ApiError::InvalidId => "Invalid ID"@,
            ApiError::InvalidTypeId => "Invalid type ID"@,
            ApiError::InvalidArgId => "Invalid arg ID"@,
            ApiError::InvalidEntityId => "Invalid entity ID"@,
            ApiError::EmptyGraph => "Graph is empty. Please run write benchmark first."@,
            ApiError::NoVectors => "No vectors found. Please run write benchmark with vector_dim > 0 first."@,
        }
    }

    /// The message the API answers with.
    pub fn message(&self) -> (r: String)
        ensures
            r@ == self.message_spec(),
    {
        match self {
            ApiError::InvalidId => String::from_str("Invalid ID"),
            ApiError::InvalidTypeId => String::from_str("Invalid type ID"),
            ApiError::InvalidArgId => String::from_str("Invalid arg ID"),
            ApiError::InvalidEntityId => String::from_str("Invalid entity ID"),
            ApiError::EmptyGraph => String::from_str("Graph is empty. Please run write benchmark first."),
            ApiError::NoVectors => String::from_str(
                "No vectors found. Please run write benchmark with vector_dim > 0 first.",
            ),
        }
    }
}

/// The identifier that `s` spells as a decimal `u64`, as `str::parse` reads it.
pub open spec fn parsed_id(s: Seq<char>) -> Option<u64> {
    match parse_unsigned(s, u64::MAX as nat) {
        Some(v) => Some(v as u64),
        None => None,
    }
}

/// Reads an identifier as `str::parse::<u64>` does.
pub fn parse_id(s: &str) -> (r: Option<u64>)
    ensures
        r == parsed_id(s@),
{
    let cs = chars_of(s);
    parse_unsigned_chars(cs.as_slice(), 0xffff_ffff_ffff_ffff)
}

/// A value as the API shows it: at most one field is set.
/// `float` holds `f64` bits and `vector` `f32` bits.
#[derive(Clone, Debug, PartialEq)]
pub struct ValueType {
    pub str: Option<String>,
    pub int: Option<i64>,
    pub float: Option<u64>,
    pub bool: Option<bool>,
    pub vector: Option<Vec<u32>>,
}

/// The abstract [`ValueType`].
pub struct ValueTypeModel {
    pub str: Option<Seq<char>>,
    pub int: Option<i64>,
    pub float: Option<u64>,
    pub bool: Option<bool>,
    pub vector: Option<Seq<u32>>,
}

impl ValueType {
    /// The abstract value shape.
    pub open spec fn model(&self) -> ValueTypeModel {
        ValueTypeModel {
            str: match self.str { Some(s) => Some(s@), None => None },
            int: self.int,
            float: self.float,
            bool: self.bool,
            vector: opt_vec_model(self.vector),
        }
    }
}

/// The API shape of a value: the field of its kind set; lists and null show no field.
pub open spec fn value_type_of(v: ValueModel) -> ValueTypeModel {
    let none = ValueTypeModel { str: None, int: None, float: None, bool: None, vector: None };
    match v {
        ValueModel::Str(s) => ValueTypeModel { str: Some(s), ..none },
        ValueModel::Int(i) => ValueTypeModel { int: Some(i), ..none },
        ValueModel::Float(f) => ValueTypeModel { float: Some(f), ..none },
        ValueModel::Bool(b) => ValueTypeModel { bool: Some(b), ..none },
        ValueModel::Vector(x) => ValueTypeModel { vector: Some(x), ..none },
        _ => none,
    }
}

impl ValueType {
    /// The API shape of `value`.
    pub fn from_value(value: &Value) -> (r: ValueType)
        ensures
            r.model() == value_type_of(value.model()),
    {
        match value {
            Value::Str(s) => {
                let c = s.clone();
                assert(c@ == s@);
                ValueType { str: Some(c), int: None, float: None, bool: None, vector: None }
            },
            Value::Int(i) => ValueType { str: None, int: Some(*i), float: None, bool: None, vector: None },
            Value::Float(f) => ValueType { str: None, int: None, float: Some(*f), bool: None, vector: None },
            Value::Bool(b) => ValueType { str: None, int: None, float: None, bool: Some(*b), vector: None },
            Value::Vector(v) => ValueType {
                str: None,
                int: None,
                float: None,
                bool: None,
                vector: Some(copy_u32s(v.as_slice())),
            },
            _ => ValueType { str: None, int: None, float: None, bool: None, vector: None },
        }
    }
}

/// An incidence as the API shows it: identifiers as decimal strings.
#[derive(Clone, Debug, PartialEq)]
pub struct IncidenceType {
    pub id: String,
    pub level: i32,
    pub type_id: Option<String>,
    pub args: Vec<String>,
    pub roles: Vec<i32>,
    pub value: Option<ValueType>,
    pub embedding: Option<Vec<u32>>,
}

/// The abstract [`IncidenceType`].
pub struct IncidenceTypeModel {
    pub id: Seq<char>,
    pub level: i32,
    pub type_id: Option<Seq<char>>,
    pub args: Seq<Seq<char>>,
    pub roles: Seq<i32>,
    pub value: Option<ValueTypeModel>,
    pub embedding: Option<Seq<u32>>,
}

impl IncidenceType {
    /// The abstract incidence shape.
    pub open spec fn model(&self) -> IncidenceTypeModel {
        IncidenceTypeModel {
            id: self.id@,
            level: self.level,
            type_id: match self.type_id { Some(s) => Some(s@), None => None },
            args: self.args@.map_values(|s: String| s@),
            roles: self.roles@,
            value: match self.value { Some(v) => Some(v.model()), None => None },
            embedding: opt_vec_model(self.embedding),
        }
    }
}

/// The API shape of an incidence.
pub open spec fn incidence_type_of(m: IncidenceModel) -> IncidenceTypeModel {
    IncidenceTypeModel {
        id: decimal(m.id.0 as nat),
        level: m.level.0 as i32,
        type_id: match m.ty { Some(t) => Some(decimal(t.0 as nat)), None => None },
        args: m.args.map_values(|a: IId| decimal(a.0 as nat)),
        roles: m.roles.map_values(|r: RoleId| r.0 as i32),
        value: match m.val { Some(v) => Some(value_type_of(v)), None => None },
        embedding: m.embedding,
    }
}

/// Decimal strings of identifiers.
pub fn ids_to_strings(ids: &[IId]) -> (r: Vec<String>)
    ensures
        r@.map_values(|s: String| s@) == ids@.map_values(|a: IId| decimal(a.0 as nat)),
{
    let mut out: Vec<String> = Vec::new();
    let mut k: usize = 0;
    while k < ids.len()
        invariant
            k <= ids@.len(),
            out@.map_values(|s: String| s@) == ids@.subrange(0, k as int).map_values(|a: IId| decimal(a.0 as nat)),
        decreases ids@.len() - k,
    {
        let s = decimal_string(ids[k].0);
        let ghost sm = s@;
        let ghost prev = out@;
        out.push(s);
        assert(out@ == prev.push(s));
        k = k + 1;
        assert(out@.map_values(|s: String| s@) =~= prev.map_values(|s: String| s@).push(sm));
        assert(ids@.subrange(0, k as int).map_values(|a: IId| decimal(a.0 as nat))
            =~= ids@.subrange(0, k - 1).map_values(|a: IId| decimal(a.0 as nat)).push(sm));
    }
    assert(ids@.subrange(0, ids@.len() as int) =~= ids@);
    out
}

/// The decimal string of `n`.
pub fn decimal_string(n: u64) -> (r: String)
    ensures
        r@ == decimal(n as nat),
{
    let s = prefixed_decimal("", n);
    proof {
        reveal_strlit("");
        assert(""@ + decimal(n as nat) =~= decimal(n as nat));
    }
    s
}

impl IncidenceType {
    /// The API shape of `inc`.
    pub fn from_incidence(inc: &Incidence) -> (r: IncidenceType)
        ensures
            r.model() == incidence_type_of(inc.model()),
    {
        let type_id = match inc.ty {
            Some(t) => Some(decimal_string(t.0)),
            None => None,
        };
        let mut roles: Vec<i32> = Vec::new();
        let mut k: usize = 0;
        while k < inc.roles.len()
            invariant
                k <= inc.roles@.len(),
                roles@ == inc.roles@.subrange(0, k as int).map_values(|r: RoleId| r.0 as i32),
            decreases inc.roles@.len() - k,
        {
            roles.push(inc.roles[k].0 as i32);
            k = k + 1;
            assert(roles@ =~= inc.roles@.subrange(0, k as int).map_values(|r: RoleId| r.0 as i32));
        }
        assert(inc.roles@.subrange(0, inc.roles@.len() as int) =~= inc.roles@);
        let value = match &inc.val {
            Some(v) => Some(ValueType::from_value(v)),
            None => None,
        };
        let r = IncidenceType {
            id: decimal_string(inc.id.0),
            level: inc.level.0 as i32,
            type_id,
            args: ids_to_strings(inc.args.as_slice()),
            roles,
            value,
            embedding: copy_opt_u32s(&inc.embedding),
        };
        assert(r.model().roles =~= incidence_type_of(inc.model()).roles);
        r
    }
}

} // verus!
