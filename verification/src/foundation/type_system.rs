//! Types as incidence patterns.

use vstd::prelude::*;
use crate::model::incidence::{Incidence, IncidenceModel, Level, RoleId};
use crate::foundation::axioms::{TypeId, TypeSignature};

verus! {

/// A type definition.
#[derive(Debug, PartialEq, Eq)]
pub struct Type {
    /// The type's identifier.
    pub id: TypeId,
    /// The type's signature.
    pub signature: TypeSignature,
    /// The type's name.
    pub name: String,
}

impl Type {
    /// A type with no required roles.
    pub fn new(id: TypeId, name: String, level: Level) -> (r: Type)
        ensures
            r.id == id,
            r.name == name,
            r.signature.level == level,
            r.signature.required_roles@ == Seq::<RoleId>::empty(),
    {
        Type { id, signature: TypeSignature { required_roles: Vec::new(), level }, name }
    }

    /// Adds a required role.
    pub fn with_required_role(self, role: RoleId) -> (r: Type)
        ensures
            r.id == self.id,
            r.name == self.name,
            r.signature.level == self.signature.level,
            r.signature.required_roles@ == self.signature.required_roles@.push(role),
    {
        let mut s = self;
        s.signature.required_roles.push(role);
        s
    }
}

/// Whether `inc` satisfies the signature of `ty`: its level is at most the
/// type's level and it carries every required role.
pub open spec fn satisfies_signature(inc: IncidenceModel, ty: Type) -> bool {
    &&& inc.level.0 <= ty.signature.level.0
    &&& forall|k: int| 0 <= k < ty.signature.required_roles@.len()
        ==> inc.roles.contains(#[trigger] ty.signature.required_roles@[k])
}

/// Checks incidences against type signatures.
pub struct TypeChecker;

/// Whether `roles` holds `role`.
fn roles_contain(roles: &[RoleId], role: RoleId) -> (r: bool)
    ensures
        r == roles@.contains(role),
{
    let mut k: usize = 0;
    while k < roles.len()
        invariant
            k <= roles@.len(),
            forall|q: int| 0 <= q < k ==> roles@[q] != role,
        decreases roles@.len() - k,
    {
        if roles[k] == role {
            assert(roles@[k as int] == role);
            return true;
        }
        k = k + 1;
    }
    false
}

impl TypeChecker {
    /// Whether `incidence` satisfies the signature of `type_def`.
    pub fn check_signature(incidence: &Incidence, type_def: &Type) -> (r: bool)
        ensures
            r == satisfies_signature(incidence.model(), *type_def),
    {
        if !incidence.level.le(type_def.signature.level) {
            return false;
        }
        let required = &type_def.signature.required_roles;
        let mut k: usize = 0;
        while k < required.len()
            invariant
                required@ == type_def.signature.required_roles@,
                k <= required@.len(),
                forall|q: int| 0 <= q < k ==> incidence.roles@.contains(#[trigger] required@[q]),
            decreases required@.len() - k,
        {
            if !roles_contain(incidence.roles.as_slice(), required[k]) {
                return false;
            }
            k = k + 1;
        }
        true
    }
}

} // verus!
