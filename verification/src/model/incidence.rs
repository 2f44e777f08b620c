use vstd::prelude::*;
use crate::model::value::{Value, ValueModel};

verus! {

/// Incidence identifier. The identifier `0` means "not assigned yet".
#[derive(Clone, Copy, Debug, PartialEq, Eq, Hash, Structural)]
pub struct IId(pub u64);

/// Universe level: `U0`, `U1`, `U2`, ...
#[derive(Clone, Copy, Debug, PartialEq, Eq, Hash, PartialOrd, Ord, Structural)]
pub struct Level(pub u8);

impl Level {
    /// Level 0.
    pub fn zero() -> (r: Level)
        ensures
            r.0 == 0,
    {
        Level(0)
    }

    /// The next level up.
    pub fn next(self) -> (r: Level)
        requires
            self.0 < u8::MAX,
        ensures
            r.0 == self.0 + 1,
    {
        Level(self.0 + 1)
    }

    /// Whether this level is at most `other`.
    pub fn le(self, other: Level) -> (r: bool)
        ensures
            r == (self.0 <= other.0),
    {
        self.0 <= other.0
    }
}

/// Role identifier.
#[derive(Clone, Copy, Debug, PartialEq, Eq, Hash, Structural)]
pub struct RoleId(pub u32);

/// The mathematical meaning of an [`Incidence`].
#[verifier::ext_equal]
pub struct IncidenceModel {
    pub id: IId,
    pub level: Level,
    pub ty: Option<IId>,
    pub args: Seq<IId>,
    pub roles: Seq<RoleId>,
    pub val: Option<ValueModel>,
    pub embedding: Option<Seq<u32>>,
}

/// An incidence: the only primitive entity of the database.
///
/// `embedding` holds the bit patterns of `f32` components.
#[derive(Debug, PartialEq)]
pub struct Incidence {
    /// Identifier.
    pub id: IId,
    /// Universe level.
    pub level: Level,
    /// Type (optional).
    pub ty: Option<IId>,
    /// Arguments (may refer back to this incidence).
    pub args: Vec<IId>,
    /// Roles, one per argument.
    pub roles: Vec<RoleId>,
    /// Value (optional).
    pub val: Option<Value>,
    /// Vector embedding (optional).
    pub embedding: Option<Vec<u32>>,
}

/// The abstract view of an optional value.
pub open spec fn opt_value_model(v: Option<Value>) -> Option<ValueModel> {
    match v {
        Some(x) => Some(x.model()),
        None => None,
    }
}

/// The abstract view of an optional embedding.
pub open spec fn opt_vec_model(v: Option<Vec<u32>>) -> Option<Seq<u32>> {
    match v {
        Some(x) => Some(x@),
        None => None,
    }
}

/// A copy of an optional value.
pub fn copy_opt_value(v: &Option<Value>) -> (r: Option<Value>)
    ensures
        opt_value_model(r) == opt_value_model(*v),
{
    match v {
        Some(x) => Some(x.deep_copy()),
        None => None,
    }
}

/// A copy of a slice of `u32`.
pub fn copy_u32s(v: &[u32]) -> (r: Vec<u32>)
    ensures
        r@ == v@,
{
    let mut out: Vec<u32> = Vec::new();
    let mut k: usize = 0;
    while k < v.len()
        invariant
            k <= v@.len(),
            out@ == v@.subrange(0, k as int),
        decreases v@.len() - k,
    {
        out.push(v[k]);
        k = k + 1;
        assert(out@ =~= v@.subrange(0, k as int));
    }
    assert(v@.subrange(0, v@.len() as int) =~= v@);
    out
}

/// A copy of a slice of identifiers.
pub fn copy_ids(v: &[IId]) -> (r: Vec<IId>)
    ensures
        r@ == v@,
{
    let mut out: Vec<IId> = Vec::new();
    let mut k: usize = 0;
    while k < v.len()
        invariant
            k <= v@.len(),
            out@ == v@.subrange(0, k as int),
        decreases v@.len() - k,
    {
        out.push(v[k]);
        k = k + 1;
        assert(out@ =~= v@.subrange(0, k as int));
    }
    assert(v@.subrange(0, v@.len() as int) =~= v@);
    out
}

/// A copy of a slice of roles.
pub fn copy_roles(v: &[RoleId]) -> (r: Vec<RoleId>)
    ensures
        r@ == v@,
{
    let mut out: Vec<RoleId> = Vec::new();
    let mut k: usize = 0;
    while k < v.len()
        invariant
            k <= v@.len(),
            out@ == v@.subrange(0, k as int),
        decreases v@.len() - k,
    {
        out.push(v[k]);
        k = k + 1;
        assert(out@ =~= v@.subrange(0, k as int));
    }
    assert(v@.subrange(0, v@.len() as int) =~= v@);
    out
}

/// A copy of an optional embedding.
pub fn copy_opt_u32s(v: &Option<Vec<u32>>) -> (r: Option<Vec<u32>>)
    ensures
        opt_vec_model(r) == opt_vec_model(*v),
{
    match v {
        Some(x) => Some(copy_u32s(x.as_slice())),
        None => None,
    }
}

impl Incidence {
    /// The abstract incidence.
    pub open spec fn model(&self) -> IncidenceModel {
        IncidenceModel {
            id: self.id,
            level: self.level,
            ty: self.ty,
            args: self.args@,
            roles: self.roles@,
            val: opt_value_model(self.val),
            embedding: opt_vec_model(self.embedding),
        }
    }

    /// A new incidence with no type, arguments, value or embedding.
    pub fn new(id: IId, level: Level) -> (r: Incidence)
        ensures
            r.model() == (IncidenceModel {
                id,
                level,
                ty: None,
                args: Seq::empty(),
                roles: Seq::empty(),
                val: None,
                embedding: None,
            }),
    {
        Incidence {
            id,
            level,
            ty: None,
            args: Vec::new(),
            roles: Vec::new(),
            val: None,
            embedding: None,
        }
    }

    /// Sets the type.
    pub fn with_type(self, ty: IId) -> (r: Incidence)
        ensures
            r.model() == (IncidenceModel { ty: Some(ty), ..self.model() }),
    {
        let mut s = self;
        s.ty = Some(ty);
        s
    }

    /// Appends an argument together with its role.
    pub fn add_arg(self, arg: IId, role: RoleId) -> (r: Incidence)
        ensures
            r.model() == (IncidenceModel {
                args: self.model().args.push(arg),
                roles: self.model().roles.push(role),
                ..self.model()
            }),
    {
        let mut s = self;
        s.args.push(arg);
        s.roles.push(role);
        s
    }

    /// Sets the value.
    pub fn with_val(self, val: Value) -> (r: Incidence)
        ensures
            r.model() == (IncidenceModel { val: Some(val.model()), ..self.model() }),
    {
        let mut s = self;
        s.val = Some(val);
        s
    }

    /// Sets the embedding (bit patterns of `f32` components).
    pub fn with_embedding(self, embedding: Vec<u32>) -> (r: Incidence)
        ensures
            r.model() == (IncidenceModel { embedding: Some(embedding@), ..self.model() }),
    {
        let mut s = self;
        s.embedding = Some(embedding);
        s
    }

    /// Whether every argument has exactly one role.
    pub fn is_valid(&self) -> (r: bool)
        ensures
            r == (self.args@.len() == self.roles@.len()),
    {
        self.args.len() == self.roles.len()
    }

    /// A copy with the same meaning.
    pub fn deep_copy(&self) -> (r: Incidence)
        ensures
            r.model() == self.model(),
    {
        Incidence {
            id: self.id,
            level: self.level,
            ty: self.ty,
            args: copy_ids(self.args.as_slice()),
            roles: copy_roles(self.roles.as_slice()),
            val: copy_opt_value(&self.val),
            embedding: copy_opt_u32s(&self.embedding),
        }
    }
}

impl Clone for Incidence {
    fn clone(&self) -> (r: Incidence)
        ensures
            r.model() == self.model(),
    {
        self.deep_copy()
    }
}

} // verus!
