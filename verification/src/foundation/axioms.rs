//! Axioms AF0–AF5 of the incidence foundation, as types.

use vstd::prelude::*;
use crate::model::incidence::{IId, Level, RoleId, copy_ids, copy_opt_value, opt_value_model};
use crate::model::value::{Value, ValueModel};

verus! {

/// The mathematical meaning of a [`Structure`].
pub struct StructureModel {
    pub args: Seq<IId>,
    pub val: Option<ValueModel>,
}

/// AF1: the structure map. Each incidence has finitely many incidences as
/// arguments and an optional value.
#[derive(Debug, PartialEq)]
pub struct Structure {
    /// The incidences this one refers to.
    pub args: Vec<IId>,
    /// The value (optional).
    pub val: Option<Value>,
}

impl Structure {
    /// The abstract structure.
    pub open spec fn model(&self) -> StructureModel {
        StructureModel { args: self.args@, val: opt_value_model(self.val) }
    }

    /// The structure with no arguments and no value.
    pub fn empty() -> (r: Structure)
        ensures
            r.model() == (StructureModel { args: Seq::empty(), val: None }),
    {
        Structure { args: Vec::new(), val: None }
    }

    /// A structure with the given arguments and no value.
    pub fn with_args(args: Vec<IId>) -> (r: Structure)
        ensures
            r.model() == (StructureModel { args: args@, val: None }),
    {
        Structure { args, val: None }
    }

    /// A structure with the given value and no arguments.
    pub fn with_val(val: Value) -> (r: Structure)
        ensures
            r.model() == (StructureModel { args: Seq::empty(), val: Some(val.model()) }),
    {
        Structure { args: Vec::new(), val: Some(val) }
    }

    /// A copy with the same meaning.
    pub fn deep_copy(&self) -> (r: Structure)
        ensures
            r.model() == self.model(),
    {
        Structure { args: copy_ids(self.args.as_slice()), val: copy_opt_value(&self.val) }
    }
}

impl Clone for Structure {
    fn clone(&self) -> (r: Structure)
        ensures
            r.model() == self.model(),
    {
        self.deep_copy()
    }
}

/// The structure of an optional structure.
pub open spec fn opt_structure_model(s: Option<Structure>) -> Option<StructureModel> {
    match s {
        Some(x) => Some(x.model()),
        None => None,
    }
}

/// AF0: the coinductive universe. Incidences form a final coalgebra that
/// may contain self-reference and cycles; each has a structure.
pub trait CoinductiveUniverse {
    /// Whether the universe is in a state where structures can be read.
    spec fn universe_ok(&self) -> bool;

    /// The structure of `id`, if `id` is part of the universe.
    spec fn structure_of(&self, id: IId) -> Option<StructureModel>;

    /// A set of identifiers holding every argument of every structure.
    spec fn mentioned(&self) -> Set<IId>;

    /// Finitely many identifiers are mentioned, among them every argument
    /// of every structure.
    proof fn lemma_mentioned(&self)
        requires
            self.universe_ok(),
        ensures
            self.mentioned().finite(),
            forall|id: IId, k: int|
                #![trigger self.structure_of(id)->0.args[k]]
                self.structure_of(id) is Some && 0 <= k < self.structure_of(id)->0.args.len()
                    ==> self.mentioned().contains(self.structure_of(id)->0.args[k]),
    ;

    /// The structure of `id`, if `id` is part of the universe.
    fn structure(&self, id: IId) -> (r: Option<Structure>)
        requires
            self.universe_ok(),
        ensures
            opt_structure_model(r) == self.structure_of(id),
    ;
}

/// The identifiers among the arguments `args(k)` for the keys `k` of `keys`.
pub open spec fn args_of_keys<K>(keys: Set<K>, args: spec_fn(K) -> Seq<IId>) -> Set<IId> {
    Set::new(|x: IId| exists|k: K| keys.contains(k) && #[trigger] args(k).contains(x))
}

/// Finitely many keys mention finitely many arguments.
pub proof fn lemma_args_of_keys_finite<K>(keys: Set<K>, args: spec_fn(K) -> Seq<IId>)
    requires
        keys.finite(),
    ensures
        args_of_keys(keys, args).finite(),
{
    let sets = keys.map(|k: K| args(k).to_set());
    keys.lemma_map_finite(|k: K| args(k).to_set());
    assert forall|s: Set<IId>| sets.contains(s) implies #[trigger] s.finite() by {
        let k = choose|k: K| keys.contains(k) && args(k).to_set() == s;
        vstd::seq_lib::seq_to_set_is_finite(args(k));
    }
    sets.lemma_flatten_finite();
    assert forall|x: IId| args_of_keys(keys, args).contains(x) implies sets.flatten().contains(x) by {
        let k = choose|k: K| keys.contains(k) && #[trigger] args(k).contains(x);
        assert(sets.contains(args(k).to_set()));
        assert(args(k).to_set().contains(x));
    }
    assert forall|x: IId| sets.flatten().contains(x) implies args_of_keys(keys, args).contains(x) by {
        let s = choose|s: Set<IId>| sets.contains(s) && s.contains(x);
        let k = choose|k: K| keys.contains(k) && args(k).to_set() == s;
        assert(args(k).contains(x));
    }
    assert(args_of_keys(keys, args) =~= sets.flatten());
}

/// AF2: bisimulation equality. Two incidences denote the same entity of the world.
pub trait BisimulationEquality {
    /// Whether the equality can be decided in the current state.
    spec fn equality_ready(&self) -> bool;

    /// Whether `i` and `j` are bisimilar.
    fn are_bisimilar(&self, i: IId, j: IId) -> bool
        requires
            self.equality_ready(),
    ;
}

/// AF3: a type is an incidence pattern.
#[derive(Clone, Debug, PartialEq, Eq, Hash)]
pub struct TypeId(pub IId);

/// The signature of a type: its required roles and its universe level.
#[derive(Debug, PartialEq, Eq)]
pub struct TypeSignature {
    /// Roles an instance must carry.
    pub required_roles: Vec<RoleId>,
    /// Universe level.
    pub level: Level,
}

/// AF4: a set is an extensional class of incidences.
#[derive(Clone, Debug, PartialEq, Eq, Hash)]
pub struct SetId(pub IId);

/// AF5: a category (objects, morphisms, dom, cod, composition) is structured incidence.
#[derive(Clone, Debug, PartialEq, Eq, Hash)]
pub struct CategoryId(pub IId);

} // verus!
