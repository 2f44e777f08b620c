//! Topos-like internal logic: the subobject classifier, predicates and quantifiers.

use vstd::prelude::*;
use crate::model::incidence::IId;

verus! {

/// The subobject classifier Ω: the type of propositions.
pub struct Omega {
    /// The identifier of Ω.
    pub id: IId,
}

impl Omega {
    /// A new Ω.
    pub fn new(id: IId) -> (r: Omega)
        ensures
            r.id == id,
    {
        Omega { id }
    }
}

/// A predicate: an incidence of type `X → Ω`.
pub struct Predicate {
    /// The predicate's identifier.
    pub id: IId,
    /// Domain (X).
    pub domain: IId,
    /// Codomain (Ω).
    pub codomain: IId,
}

impl Predicate {
    /// A new predicate.
    pub fn new(id: IId, domain: IId, codomain: IId) -> (r: Predicate)
        ensures
            r.id == id,
            r.domain == domain,
            r.codomain == codomain,
    {
        Predicate { id, domain, codomain }
    }
}

/// Existential quantification (Σ type).
pub struct Exists {
    /// The identifier of the Σ.
    pub id: IId,
    /// Domain.
    pub domain: IId,
    /// Predicate.
    pub predicate: IId,
}

/// Universal quantification (Π type).
pub struct ForAll {
    /// The identifier of the Π.
    pub id: IId,
    /// Domain.
    pub domain: IId,
    /// Predicate.
    pub predicate: IId,
}

} // verus!
