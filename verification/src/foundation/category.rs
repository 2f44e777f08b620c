//! Categories as incidence patterns.

use vstd::prelude::*;
use crate::model::incidence::IId;

verus! {

/// Category identifier.
pub type CategoryId = IId;

/// An object of a category.
pub struct Object {
    /// The object's identifier.
    pub id: IId,
    /// The category it belongs to.
    pub category: CategoryId,
}

/// A morphism of a category.
pub struct Morphism {
    /// The morphism's identifier.
    pub id: IId,
    /// The category it belongs to.
    pub category: CategoryId,
    /// Domain (source).
    pub dom: IId,
    /// Codomain (target).
    pub cod: IId,
}

impl Morphism {
    /// A new morphism.
    pub fn new(id: IId, category: CategoryId, dom: IId, cod: IId) -> (r: Morphism)
        ensures
            r.id == id,
            r.category == category,
            r.dom == dom,
            r.cod == cod,
    {
        Morphism { id, category, dom, cod }
    }
}

/// The composition of two morphisms.
pub struct Composition {
    /// The composition's identifier.
    pub id: IId,
    /// The first morphism.
    pub f: IId,
    /// The second morphism.
    pub g: IId,
    /// The composed morphism.
    pub composed: IId,
}

impl Composition {
    /// A new composition.
    pub fn new(id: IId, f: IId, g: IId, composed: IId) -> (r: Composition)
        ensures
            r.id == id,
            r.f == f,
            r.g == g,
            r.composed == composed,
    {
        Composition { id, f, g, composed }
    }
}

} // verus!
