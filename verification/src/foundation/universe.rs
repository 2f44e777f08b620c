//! The hierarchy of type universes `U0 ⊂ U1 ⊂ U2 ⊂ ...`.

use vstd::prelude::*;
use crate::model::incidence::Level;

verus! {

/// The universe hierarchy, which rules out paradoxes of self-referring types.
pub struct UniverseHierarchy {
    max_level: Level,
}

impl UniverseHierarchy {
    /// The current highest level.
    pub closed spec fn current_max(&self) -> Level {
        self.max_level
    }

    /// A hierarchy whose highest level is 0.
    pub fn new() -> (r: UniverseHierarchy)
        ensures
            r.current_max() == Level(0),
    {
        UniverseHierarchy { max_level: Level(0) }
    }

    /// A typed reference `i -> j` is allowed only when `level(i) <= level(j)`.
    pub fn can_reference(&self, from: Level, to: Level) -> (r: bool)
        ensures
            r == (from.0 <= to.0),
    {
        from.le(to)
    }

    /// The level just above the current highest one.
    pub fn next_level(&self) -> (r: Level)
        requires
            self.current_max().0 < u8::MAX,
        ensures
            r.0 == self.current_max().0 + 1,
    {
        self.max_level.next()
    }
}

impl Default for UniverseHierarchy {
    fn default() -> (r: UniverseHierarchy)
        ensures
            r.current_max() == Level(0),
    {
        UniverseHierarchy::new()
    }
}

/// A universe at a fixed level (for type-level constraints).
pub trait Universe {
    /// The level of this universe.
    spec fn level_spec() -> Level;

    /// The level of this universe.
    fn level() -> (r: Level)
        ensures
            r == Self::level_spec(),
    ;
}

} // verus!
