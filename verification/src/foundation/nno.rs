//! The natural number object.

use vstd::prelude::*;
use crate::model::incidence::IId;
use crate::foundation::axioms::TypeId;

verus! {

/// The natural number object: `Nat`, `zero` and `succ` as incidences.
#[derive(Clone, Debug, PartialEq, Eq)]
pub struct NatDef {
    /// The type `Nat`.
    pub nat_ty: TypeId,
    /// `zero`.
    pub zero: IId,
    /// `succ`.
    pub succ: IId,
}

impl NatDef {
    /// A new natural number object.
    pub fn new(nat_ty: TypeId, zero: IId, succ: IId) -> (r: NatDef)
        ensures
            r.nat_ty == nat_ty,
            r.zero == zero,
            r.succ == succ,
    {
        NatDef { nat_ty, zero, succ }
    }
}

/// A witness for the natural number object (its initiality).
pub struct NnoWitness {
    /// The natural number object.
    pub nno: NatDef,
}

impl NnoWitness {
    /// A new witness.
    pub fn new(nno: NatDef) -> (r: NnoWitness)
        ensures
            r.nno == nno,
    {
        NnoWitness { nno }
    }
}

} // verus!
