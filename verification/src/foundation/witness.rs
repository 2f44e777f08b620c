//! Witnesses of universal properties.

use vstd::prelude::*;
use crate::foundation::nno::NnoWitness;

verus! {

/// The collection of witnesses.
pub struct Witnesses {
    /// The natural number object's witness, if set.
    pub nno: Option<NnoWitness>,
}

impl Witnesses {
    /// No witnesses.
    pub fn new() -> (r: Witnesses)
        ensures
            r.nno is None,
    {
        Witnesses { nno: None }
    }

    /// Sets the natural number object's witness.
    pub fn set_nno(&mut self, witness: NnoWitness)
        ensures
            final(self).nno == Some(witness),
    {
        self.nno = Some(witness);
    }
}

impl Default for Witnesses {
    fn default() -> (r: Witnesses)
        ensures
            r.nno is None,
    {
        Witnesses::new()
    }
}

} // verus!
