use vstd::prelude::*;
use std::collections::HashMap;
use crate::model::incidence::{IId, Incidence, IncidenceModel, RoleId, copy_ids, copy_opt_value};
use crate::foundation::axioms::{CoinductiveUniverse, Structure, StructureModel, args_of_keys, lemma_args_of_keys_finite};

verus! {

broadcast use vstd::std_specs::hash::group_hash_axioms;

/// The abstract state of a [`WorldGraph`].
#[verifier::ext_equal]
pub struct GraphModel {
    /// The arena, in insertion order.
    pub incs: Seq<IncidenceModel>,
    /// Identifier to arena position.
    pub index: Map<u64, int>,
    /// Type identifier to the identifiers recorded under it, in insertion order.
    pub by_type: Map<u64, Seq<IId>>,
    /// Role identifier to the identifiers recorded under it, in insertion order.
    pub by_role: Map<u32, Seq<IId>>,
    /// The next identifier to hand out.
    pub next_id: u64,
}

/// The identifiers recorded under `k`, empty when there are none.
pub open spec fn ids_under<K>(m: Map<K, Seq<IId>>, k: K) -> Seq<IId> {
    if m.contains_key(k) { m[k] } else { Seq::empty() }
}

/// Records `id` under each role of `roles`, in order.
pub open spec fn roles_added(m: Map<u32, Seq<IId>>, roles: Seq<RoleId>, id: IId) -> Map<u32, Seq<IId>>
    decreases roles.len(),
{
    if roles.len() == 0 {
        m
    } else {
        let m1 = roles_added(m, roles.drop_last(), id);
        let r = roles.last().0;
        m1.insert(r, ids_under(m1, r).push(id))
    }
}

impl GraphModel {
    /// The state of a new graph.
    pub open spec fn empty() -> GraphModel {
        GraphModel {
            incs: Seq::empty(),
            index: Map::empty(),
            by_type: Map::empty(),
            by_role: Map::empty(),
            next_id: 1,
        }
    }

    /// The identifier under which `inc` is stored: its own, or a fresh one when it is `0`.
    pub open spec fn assigned_id(self, inc: IncidenceModel) -> IId {
        if inc.id.0 == 0 { IId(self.next_id) } else { inc.id }
    }

    /// Whether `inc` can be added without the identifier counter overflowing.
    pub open spec fn can_add(self, inc: IncidenceModel) -> bool {
        inc.id.0 == 0 ==> self.next_id < u64::MAX
    }

    /// The state after adding `inc`.
    pub open spec fn added(self, inc: IncidenceModel) -> GraphModel {
        let id = self.assigned_id(inc);
        GraphModel {
            incs: self.incs.push(IncidenceModel { id, ..inc }),
            index: self.index.insert(id.0, self.incs.len() as int),
            by_type: match inc.ty {
                Some(t) => self.by_type.insert(t.0, ids_under(self.by_type, t.0).push(id)),
                None => self.by_type,
            },
            by_role: roles_added(self.by_role, inc.roles, id),
            next_id: if inc.id.0 == 0 { (self.next_id + 1) as u64 } else { self.next_id },
        }
    }

    /// Every indexed position lies inside the arena, no more identifiers are
    /// indexed than incidences are stored, and `0` is never handed out.
    pub open spec fn well_formed(self) -> bool {
        &&& forall|k: u64| #[trigger] self.index.contains_key(k) ==> 0 <= self.index[k] < self.incs.len()
        &&& self.index.dom().finite()
        &&& self.index.dom().len() <= self.incs.len()
        &&& self.next_id >= 1
    }

    /// The incidence that `id` refers to, if any.
    pub open spec fn lookup(self, id: IId) -> Option<IncidenceModel> {
        if self.index.contains_key(id.0) && 0 <= self.index[id.0] < self.incs.len() {
            Some(self.incs[self.index[id.0]])
        } else {
            None
        }
    }

    /// The incidences that the identifiers in `ids` refer to, skipping those that refer to none.
    pub open spec fn resolve(self, ids: Seq<IId>) -> Seq<IncidenceModel>
        decreases ids.len(),
    {
        if ids.len() == 0 {
            Seq::empty()
        } else {
            let rest = self.resolve(ids.drop_last());
            match self.lookup(ids.last()) {
                Some(m) => rest.push(m),
                None => rest,
            }
        }
    }
}

/// The world graph: the only mutable owner of all incidences.
pub struct WorldGraph {
    incidences: Vec<Incidence>,
    id_to_index: HashMap<u64, usize>,
    by_type: HashMap<u64, Vec<IId>>,
    by_role: HashMap<u32, Vec<IId>>,
    next_id: u64,
}

impl View for WorldGraph {
    type V = GraphModel;

    closed spec fn view(&self) -> GraphModel {
        GraphModel {
            incs: self.incidences@.map_values(|i: Incidence| i.model()),
            index: self.id_to_index@.map_values(|p: usize| p as int),
            by_type: self.by_type@.map_values(|v: Vec<IId>| v@),
            by_role: self.by_role@.map_values(|v: Vec<IId>| v@),
            next_id: self.next_id,
        }
    }
}

impl WorldGraph {
    /// Well-formedness: every indexed position lies inside the arena.
    pub open spec fn wf(&self) -> bool {
        self@.well_formed()
    }

    /// Finitely many identifiers are indexed.
    pub proof fn lemma_index_finite(&self)
        ensures
            self@.index.dom().finite(),
    {
        assert(self@.index.dom() =~= self.id_to_index@.dom());
    }

    /// A new, empty graph.
    pub fn new() -> (r: WorldGraph)
        ensures
            r.wf(),
            r@ == GraphModel::empty(),
    {
        let r = WorldGraph {
            incidences: Vec::new(),
            id_to_index: HashMap::new(),
            by_type: HashMap::new(),
            by_role: HashMap::new(),
            next_id: 1,
        };
        assert(r@.incs =~= Seq::<IncidenceModel>::empty());
        assert(r@.index =~= Map::<u64, int>::empty());
        assert(r@.by_type =~= Map::<u64, Seq<IId>>::empty());
        assert(r@.by_role =~= Map::<u32, Seq<IId>>::empty());
        r
    }

    /// The incidence that `id` refers to.
    pub fn get(&self, id: IId) -> (r: Option<&Incidence>)
        requires
            self.wf(),
        ensures
            match r {
                Some(inc) => self@.lookup(id) == Some(inc.model()),
                None => self@.lookup(id) is None,
            },
    {
        match self.id_to_index.get(&id.0) {
            Some(p) => {
                let p: usize = *p;
                assert(self@.index.contains_key(id.0));
                assert(self@.index[id.0] == p as int);
                Some(&self.incidences[p])
            },
            None => None,
        }
    }

    /// Mutable access to the incidence that `id` refers to.
    pub fn get_mut(&mut self, id: IId) -> (r: Option<&mut Incidence>)
        requires
            old(self).wf(),
        ensures
            match r {
                Some(inc) => {
                    &&& old(self)@.lookup(id) == Some(inc.model())
                    &&& final(self).wf()
                    &&& final(self)@.incs == old(self)@.incs.update(old(self)@.index[id.0], final(inc).model())
                    &&& final(self)@.index == old(self)@.index
                    &&& final(self)@.by_type == old(self)@.by_type
                    &&& final(self)@.by_role == old(self)@.by_role
                    &&& final(self)@.next_id == old(self)@.next_id
                },
                None => old(self)@.lookup(id) is None && *final(self) == *old(self),
            },
    {
        match self.id_to_index.get(&id.0) {
            Some(p) => {
                let p: usize = *p;
                assert(self@.index.contains_key(id.0));
                assert(self@.index[id.0] == p as int);
                assert(p < self.incidences@.len());
                let r = &mut self.incidences[p];
                Some(r)
            },
            None => None,
        }
    }

    /// Adds an incidence and returns the identifier it is stored under.
    ///
    /// An incidence whose identifier is `0` receives the next fresh identifier.
    /// The identifier is then indexed, under its type if it has one, and
    /// under each of its roles.
    pub fn add_incidence(&mut self, incidence: Incidence) -> (r: IId)
        requires
            old(self).wf(),
            old(self)@.can_add(incidence.model()),
        ensures
            final(self).wf(),
            final(self)@ == old(self)@.added(incidence.model()),
            r == old(self)@.assigned_id(incidence.model()),
    {
        let ghost m0 = incidence.model();
        let mut incidence = incidence;
        let index = self.incidences.len();
        let id = if incidence.id.0 == 0 {
            let new_id = IId(self.next_id);
            self.next_id = self.next_id + 1;
            incidence.id = new_id;
            new_id
        } else {
            incidence.id
        };
        assert(incidence.model() == (IncidenceModel { id, ..m0 }));
        self.id_to_index.insert(id.0, index);
        match incidence.ty {
            Some(ty) => {
                let mut v = match self.by_type.remove(&ty.0) {
                    Some(v) => v,
                    None => Vec::new(),
                };
                v.push(id);
                self.by_type.insert(ty.0, v);
            },
            None => {},
        }
        let ghost role_map0 = old(self)@.by_role;
        let ghost arena0 = self.incidences@;
        let ghost index0 = self.id_to_index@;
        let ghost types0 = self.by_type@;
        let ghost next0 = self.next_id;
        assert(arena0 == old(self).incidences@);
        let mut k: usize = 0;
        while k < incidence.roles.len()
            invariant
                self.incidences@ == arena0,
                self.id_to_index@ == index0,
                self.by_type@ == types0,
                self.next_id == next0,
                k <= incidence.roles@.len(),
                self.by_role@.map_values(|v: Vec<IId>| v@)
                    == roles_added(role_map0, incidence.roles@.subrange(0, k as int), id),
            decreases incidence.roles@.len() - k,
        {
            let role = incidence.roles[k];
            let ghost before = self.by_role@.map_values(|v: Vec<IId>| v@);
            let mut v = match self.by_role.remove(&role.0) {
                Some(v) => v,
                None => Vec::new(),
            };
            assert(v@ == ids_under(before, role.0));
            v.push(id);
            self.by_role.insert(role.0, v);
            k = k + 1;
            proof {
                let sub = incidence.roles@.subrange(0, k as int);
                assert(sub.drop_last() =~= incidence.roles@.subrange(0, k - 1));
                assert(sub.last() == role);
                assert(self.by_role@.map_values(|v: Vec<IId>| v@) =~= before.insert(role.0, ids_under(before, role.0).push(id)));
            }
        }
        assert(incidence.roles@.subrange(0, incidence.roles@.len() as int) =~= incidence.roles@);
        self.incidences.push(incidence);
        proof {
            let post = old(self)@.added(m0);
            assert(self@.incs =~= post.incs);
            assert(self@.index =~= post.index);
            assert(self@.by_type =~= post.by_type);
        }
        id
    }

    /// Hands out a fresh identifier.
    pub fn new_id(&mut self) -> (r: IId)
        requires
            old(self).wf(),
            old(self)@.next_id < u64::MAX,
        ensures
            final(self).wf(),
            r == IId(old(self)@.next_id),
            final(self)@ == (GraphModel { next_id: (old(self)@.next_id + 1) as u64, ..old(self)@ }),
    {
        let id = IId(self.next_id);
        self.next_id = self.next_id + 1;
        id
    }

    /// The identifier that [`WorldGraph::new_id`] hands out next.
    pub fn peek_next_id(&self) -> (r: u64)
        ensures
            r == self@.next_id,
    {
        self.next_id
    }

    /// All incidences, in insertion order.
    pub fn iter(&self) -> (r: &[Incidence])
        ensures
            r@.map_values(|i: Incidence| i.model()) == self@.incs,
    {
        self.incidences.as_slice()
    }

    /// The number of stored incidences.
    pub fn len(&self) -> (r: usize)
        ensures
            r == self@.incs.len(),
    {
        self.incidences.len()
    }

    /// Whether no incidence is stored.
    pub fn is_empty(&self) -> (r: bool)
        ensures
            r == (self@.incs.len() == 0),
    {
        self.incidences.len() == 0
    }

    /// The incidences that `ids` refer to, in order, skipping dangling ones.
    fn resolve_ids<'a>(&'a self, ids: &[IId]) -> (r: Vec<&'a Incidence>)
        requires
            self.wf(),
        ensures
            r@.map_values(|i: &Incidence| i.model()) == self@.resolve(ids@),
    {
        let mut out: Vec<&'a Incidence> = Vec::new();
        let mut k: usize = 0;
        while k < ids.len()
            invariant
                self.wf(),
                k <= ids@.len(),
                out@.map_values(|i: &Incidence| i.model()) == self@.resolve(ids@.subrange(0, k as int)),
            decreases ids@.len() - k,
        {
            let ghost before = out@;
            let found = self.get(ids[k]);
            proof {
                let sub = ids@.subrange(0, k + 1);
                assert(sub.drop_last() =~= ids@.subrange(0, k as int));
                assert(sub.last() == ids@[k as int]);
            }
            match found {
                Some(inc) => {
                    out.push(inc);
                    assert(out@.map_values(|i: &Incidence| i.model())
                        =~= before.map_values(|i: &Incidence| i.model()).push(inc.model()));
                },
                None => {},
            }
            k = k + 1;
        }
        assert(ids@.subrange(0, ids@.len() as int) =~= ids@);
        out
    }

    /// The incidences recorded under type `ty`, in insertion order.
    pub fn find_by_type(&self, ty: IId) -> (r: Vec<&Incidence>)
        requires
            self.wf(),
        ensures
            r@.map_values(|i: &Incidence| i.model()) == self@.resolve(ids_under(self@.by_type, ty.0)),
    {
        match self.by_type.get(&ty.0) {
            Some(ids) => self.resolve_ids(ids.as_slice()),
            None => {
                let r: Vec<&Incidence> = Vec::new();
                assert(r@.map_values(|i: &Incidence| i.model()) =~= Seq::<IncidenceModel>::empty());
                r
            },
        }
    }

    /// The incidences recorded under role `role`, in insertion order.
    pub fn find_by_role(&self, role: RoleId) -> (r: Vec<&Incidence>)
        requires
            self.wf(),
        ensures
            r@.map_values(|i: &Incidence| i.model()) == self@.resolve(ids_under(self@.by_role, role.0)),
    {
        match self.by_role.get(&role.0) {
            Some(ids) => self.resolve_ids(ids.as_slice()),
            None => {
                let r: Vec<&Incidence> = Vec::new();
                assert(r@.map_values(|i: &Incidence| i.model()) =~= Seq::<IncidenceModel>::empty());
                r
            },
        }
    }
}

/// The structure of an incidence: its arguments and its value.
pub open spec fn structure_of_model(m: IncidenceModel) -> StructureModel {
    StructureModel { args: m.args, val: m.val }
}

impl CoinductiveUniverse for WorldGraph {
    open spec fn universe_ok(&self) -> bool {
        self.wf()
    }

    open spec fn structure_of(&self, id: IId) -> Option<StructureModel> {
        match self@.lookup(id) {
            Some(m) => Some(structure_of_model(m)),
            None => None,
        }
    }

    open spec fn mentioned(&self) -> Set<IId> {
        args_of_keys(self@.index.dom(), |k: u64| self@.incs[self@.index[k]].args)
    }

    proof fn lemma_mentioned(&self) {
        self.lemma_index_finite();
        lemma_args_of_keys_finite(self@.index.dom(), |k: u64| self@.incs[self@.index[k]].args);
        assert forall|id: IId, k: int|
            #![trigger self.structure_of(id)->0.args[k]]
            self.structure_of(id) is Some && 0 <= k < self.structure_of(id)->0.args.len()
                implies self.mentioned().contains(self.structure_of(id)->0.args[k]) by {
            let args = self@.incs[self@.index[id.0]].args;
            assert(args.contains(args[k]));
            let g = |kk: u64| self@.incs[self@.index[kk]].args;
            assert(g(id.0) == args);
            assert(self@.index.dom().contains(id.0) && g(id.0).contains(args[k]));
        }
    }

    fn structure(&self, id: IId) -> (r: Option<Structure>) {
        match self.get(id) {
            Some(inc) => Some(Structure { args: copy_ids(inc.args.as_slice()), val: copy_opt_value(&inc.val) }),
            None => None,
        }
    }
}

} // verus!
