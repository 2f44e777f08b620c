use vstd::prelude::*;
use crate::model::incidence::{IId, IncidenceModel, RoleId};
use crate::model::world_graph::{GraphModel, ids_under, roles_added};

verus! {

/// The identifiers, in arena order, of the incidences whose type is `t`.
pub open spec fn type_ids(incs: Seq<IncidenceModel>, t: u64) -> Seq<IId>
    decreases incs.len(),
{
    if incs.len() == 0 {
        Seq::empty()
    } else {
        let rest = type_ids(incs.drop_last(), t);
        if incs.last().ty == Some(IId(t)) { rest.push(incs.last().id) } else { rest }
    }
}

/// How often `r` occurs in `roles`.
pub open spec fn role_count(roles: Seq<RoleId>, r: u32) -> nat
    decreases roles.len(),
{
    if roles.len() == 0 {
        0
    } else {
        role_count(roles.drop_last(), r) + if roles.last().0 == r { 1nat } else { 0nat }
    }
}

/// The identifiers, in arena order, of the incidences that carry role `r`,
/// each repeated once per occurrence of `r` among its roles.
pub open spec fn role_ids(incs: Seq<IncidenceModel>, r: u32) -> Seq<IId>
    decreases incs.len(),
{
    if incs.len() == 0 {
        Seq::empty()
    } else {
        let last = incs.last();
        role_ids(incs.drop_last(), r) + Seq::new(role_count(last.roles, r), |_k: int| last.id)
    }
}

impl GraphModel {
    /// The indices agree with the arena: an identifier is indexed exactly when
    /// some stored incidence carries it, and then at the last such position;
    /// the type and role indices list the stored identifiers in arena order.
    pub open spec fn consistent(self) -> bool {
        &&& self.well_formed()
        &&& forall|k: u64| #[trigger] self.index.contains_key(k)
            <==> exists|p: int| 0 <= p < self.incs.len() && self.incs[p].id.0 == k
        &&& forall|k: u64, p: int| #[trigger] self.index.contains_key(k) && self.index[k] < p < self.incs.len()
            ==> #[trigger] self.incs[p].id.0 != k
        &&& forall|k: u64| #[trigger] self.index.contains_key(k) ==> self.incs[self.index[k]].id.0 == k
        &&& forall|t: u64| #[trigger] ids_under(self.by_type, t) == type_ids(self.incs, t)
        &&& forall|r: u32| #[trigger] ids_under(self.by_role, r) == role_ids(self.incs, r)
    }
}

/// Adding `id` under each role of `roles` appends it to the list of `r` once per occurrence of `r`.
pub proof fn lemma_roles_added(m: Map<u32, Seq<IId>>, roles: Seq<RoleId>, id: IId, r: u32)
    ensures
        ids_under(roles_added(m, roles, id), r) == ids_under(m, r) + Seq::new(role_count(roles, r), |_k: int| id),
    decreases roles.len(),
{
    if roles.len() == 0 {
        assert(ids_under(m, r) + Seq::new(0, |_k: int| id) =~= ids_under(m, r));
    } else {
        lemma_roles_added(m, roles.drop_last(), id, r);
        let m1 = roles_added(m, roles.drop_last(), id);
        if roles.last().0 == r {
            assert(ids_under(m1, r).push(id) =~= ids_under(m, r) + Seq::new(role_count(roles, r), |_k: int| id));
        } else {
            assert(ids_under(roles_added(m, roles, id), r) == ids_under(m1, r));
        }
    }
}

/// What a read gives back of a write: after adding `inc`, looking up the
/// identifier it was stored under yields `inc` with that identifier.
pub proof fn lemma_read_after_add(g: GraphModel, inc: IncidenceModel)
    ensures
        g.added(inc).lookup(g.assigned_id(inc)) == Some(IncidenceModel { id: g.assigned_id(inc), ..inc }),
{
}

/// Adding an incidence leaves the lookup of every other identifier unchanged.
pub proof fn lemma_add_frames_other_ids(g: GraphModel, inc: IncidenceModel, other: IId)
    requires
        g.well_formed(),
        other.0 != g.assigned_id(inc).0,
    ensures
        g.added(inc).lookup(other) == g.lookup(other),
{
}

/// Adding keeps the graph well-formed.
pub proof fn lemma_add_well_formed(g: GraphModel, inc: IncidenceModel)
    requires
        g.well_formed(),
        g.can_add(inc),
    ensures
        g.added(inc).well_formed(),
{
}

/// A new graph's indices agree with its arena.
pub proof fn lemma_empty_consistent()
    ensures
        GraphModel::empty().consistent(),
{
    let g = GraphModel::empty();
    assert forall|t: u64| #[trigger] ids_under(g.by_type, t) == type_ids(g.incs, t) by {
        assert(ids_under(g.by_type, t) =~= type_ids(g.incs, t));
    }
    assert forall|r: u32| #[trigger] ids_under(g.by_role, r) == role_ids(g.incs, r) by {
        assert(ids_under(g.by_role, r) =~= role_ids(g.incs, r));
    }
}

/// Adding an incidence keeps the indices in agreement with the arena.
pub proof fn lemma_add_consistent(g: GraphModel, inc: IncidenceModel)
    requires
        g.consistent(),
        g.can_add(inc),
    ensures
        g.added(inc).consistent(),
{
    let h = g.added(inc);
    let id = g.assigned_id(inc);
    let n = g.incs.len() as int;
    assert(h.incs.drop_last() =~= g.incs);
    assert(h.incs.last().id == id);
    assert forall|k: u64| #[trigger] h.index.contains_key(k)
        <==> exists|p: int| 0 <= p < h.incs.len() && h.incs[p].id.0 == k by {
        if k == id.0 {
            assert(h.incs[n].id.0 == k);
        } else if h.index.contains_key(k) {
            assert(g.index.contains_key(k));
            let p = choose|p: int| 0 <= p < g.incs.len() && g.incs[p].id.0 == k;
            assert(h.incs[p].id.0 == k);
        } else {
            assert(!g.index.contains_key(k));
            assert forall|p: int| 0 <= p < h.incs.len() implies h.incs[p].id.0 != k by {
                if p < n {
                    assert(h.incs[p] == g.incs[p]);
                }
            }
        }
    }
    assert forall|k: u64, p: int| #[trigger] h.index.contains_key(k) && h.index[k] < p < h.incs.len()
        implies #[trigger] h.incs[p].id.0 != k by {
        if k != id.0 {
            assert(g.index.contains_key(k));
            if p < n {
                assert(h.incs[p] == g.incs[p]);
            }
        }
    }
    assert forall|k: u64| #[trigger] h.index.contains_key(k) implies h.incs[h.index[k]].id.0 == k by {
        if k != id.0 {
            assert(g.index.contains_key(k));
            assert(h.incs[h.index[k]] == g.incs[g.index[k]]);
        }
    }
    assert forall|t: u64| #[trigger] ids_under(h.by_type, t) == type_ids(h.incs, t) by {
        assert(ids_under(g.by_type, t) == type_ids(g.incs, t));
    }
    assert forall|r: u32| #[trigger] ids_under(h.by_role, r) == role_ids(h.incs, r) by {
        assert(ids_under(g.by_role, r) == role_ids(g.incs, r));
        lemma_roles_added(g.by_role, inc.roles, id, r);
        assert(h.incs.last().roles == inc.roles);
    }
}

/// In a graph whose indices agree with its arena, looking up an identifier
/// yields the most recently added incidence that carries it.
pub proof fn lemma_consistent_lookup_is_latest(g: GraphModel, p: int)
    requires
        g.consistent(),
        0 <= p < g.incs.len(),
        forall|q: int| p < q < g.incs.len() ==> g.incs[q].id != g.incs[p].id,
    ensures
        g.lookup(g.incs[p].id) == Some(g.incs[p]),
{
    let k = g.incs[p].id.0;
    assert(g.index.contains_key(k));
    let i = g.index[k];
    if i < p {
        assert(g.incs[p].id.0 != k);
    } else if i > p {
        assert(g.incs[i].id.0 == k);
        assert(g.incs[i].id == g.incs[p].id);
    }
}

} // verus!
