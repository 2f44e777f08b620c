//! Computing bisimulation between incidences.

use vstd::prelude::*;
use crate::model::incidence::IId;
use crate::foundation::axioms::{BisimulationEquality, CoinductiveUniverse, StructureModel};
use crate::model::value::{lemma_opt_value_eq_laws, opt_value_eq};

verus! {

/// The local condition on two structures: both absent, or both present
/// with equal values and the same number of arguments.
pub open spec fn locally_matches(sa: Option<StructureModel>, sb: Option<StructureModel>) -> bool {
    match sa {
        Some(x) => match sb {
            Some(y) => opt_value_eq(x.val, y.val) && x.args.len() == y.args.len(),
            None => false,
        },
        None => sb is None,
    }
}

/// Whether the structures of the pair `p` meet the local condition in `u`.
pub open spec fn pair_locally_matches<U: CoinductiveUniverse>(u: &U, p: (IId, IId)) -> bool {
    locally_matches(u.structure_of(p.0), u.structure_of(p.1))
}

/// Whether the pair `p` has matching structures in `u` given `rel`: the
/// local condition holds, and corresponding arguments are related by `rel`.
pub open spec fn pair_matches<U: CoinductiveUniverse>(u: &U, p: (IId, IId), rel: Set<(IId, IId)>) -> bool {
    &&& pair_locally_matches(u, p)
    &&& u.structure_of(p.0) is Some ==> forall|k: int|
        0 <= k < u.structure_of(p.0)->0.args.len() ==> #[trigger] rel.contains(
            (u.structure_of(p.0)->0.args[k], u.structure_of(p.1)->0.args[k]),
        )
}

/// Whether `rel` is a bisimulation of `u`: every pair in it matches given it.
pub open spec fn is_bisimulation<U: CoinductiveUniverse>(u: &U, rel: Set<(IId, IId)>) -> bool {
    forall|p: (IId, IId)| #[trigger] rel.contains(p) ==> pair_matches(u, p, rel)
}

/// Bisimilarity: some bisimulation relates `i` and `j`.
pub open spec fn bisimilar<U: CoinductiveUniverse>(u: &U, i: IId, j: IId) -> bool {
    exists|rel: Set<(IId, IId)>| #[trigger] rel.contains((i, j)) && is_bisimulation(u, rel)
}

/// The pair of `k`-th arguments of the pair `q`, when both structures are
/// present with the same number of arguments and `k` is one of them.
pub open spec fn arg_pair<U: CoinductiveUniverse>(u: &U, q: (IId, IId), k: int) -> Option<(IId, IId)> {
    match u.structure_of(q.0) {
        Some(x) => match u.structure_of(q.1) {
            Some(y) => if x.args.len() == y.args.len() && 0 <= k < x.args.len() {
                Some((x.args[k], y.args[k]))
            } else {
                None
            },
            None => None,
        },
        None => None,
    }
}

/// The pair reached from `p` by following the argument positions of `path`.
pub open spec fn follow<U: CoinductiveUniverse>(u: &U, p: (IId, IId), path: Seq<int>) -> Option<(IId, IId)>
    decreases path.len(),
{
    if path.len() == 0 {
        Some(p)
    } else {
        match follow(u, p, path.drop_last()) {
            Some(q) => arg_pair(u, q, path.last()),
            None => None,
        }
    }
}

/// The pairs reachable from `(i, j)` through corresponding arguments.
pub open spec fn reachable<U: CoinductiveUniverse>(u: &U, i: IId, j: IId) -> Set<(IId, IId)> {
    Set::new(|q: (IId, IId)| exists|path: Seq<int>| #[trigger] follow(u, (i, j), path) == Some(q))
}

/// Whether `rel` holds, with every pair, all its argument pairs.
pub open spec fn closed_under_args<U: CoinductiveUniverse>(u: &U, rel: Set<(IId, IId)>) -> bool {
    forall|q: (IId, IId), k: int|
        rel.contains(q) && #[trigger] arg_pair(u, q, k) is Some ==> rel.contains(arg_pair(u, q, k)->0)
}

/// Following one more position extends the path.
proof fn lemma_follow_push<U: CoinductiveUniverse>(u: &U, p: (IId, IId), path: Seq<int>, k: int)
    ensures
        follow(u, p, path.push(k)) == match follow(u, p, path) {
            Some(q) => arg_pair(u, q, k),
            None => None,
        },
{
    assert(path.push(k).drop_last() =~= path);
}

/// A set that holds `(i, j)` and is closed under argument pairs holds
/// every pair reachable from `(i, j)`.
proof fn lemma_closed_holds_reachable<U: CoinductiveUniverse>(
    u: &U,
    i: IId,
    j: IId,
    rel: Set<(IId, IId)>,
    path: Seq<int>,
)
    requires
        rel.contains((i, j)),
        closed_under_args(u, rel),
    ensures
        follow(u, (i, j), path) matches Some(q) ==> rel.contains(q),
    decreases path.len(),
{
    if path.len() > 0 {
        lemma_closed_holds_reachable(u, i, j, rel, path.drop_last());
        if let Some(q0) = follow(u, (i, j), path.drop_last()) {
            let k = path.last();
            if arg_pair(u, q0, k) is Some {
                assert(rel.contains(arg_pair(u, q0, k)->0));
            }
        }
    }
}

/// A bisimulation is closed under argument pairs.
proof fn lemma_bisimulation_closed<U: CoinductiveUniverse>(u: &U, rel: Set<(IId, IId)>)
    requires
        is_bisimulation(u, rel),
    ensures
        closed_under_args(u, rel),
{
    assert forall|q: (IId, IId), k: int| rel.contains(q) && #[trigger] arg_pair(u, q, k) is Some implies rel.contains(
        arg_pair(u, q, k)->0,
    ) by {
        assert(pair_matches(u, q, rel));
        let x = u.structure_of(q.0)->0;
        let y = u.structure_of(q.1)->0;
        assert(rel.contains((x.args[k], y.args[k])));
    }
}

/// Bisimilarity is decided by the reachable pairs: `i` and `j` are
/// bisimilar exactly when every pair reachable from `(i, j)` through
/// corresponding arguments meets the local condition.
pub proof fn lemma_bisimilar_iff_reachable_match<U: CoinductiveUniverse>(u: &U, i: IId, j: IId)
    ensures
        bisimilar(u, i, j) == forall|q: (IId, IId)| #[trigger] reachable(u, i, j).contains(q) ==> pair_locally_matches(u, q),
{
    let reach = reachable(u, i, j);
    if bisimilar(u, i, j) {
        let rel = choose|rel: Set<(IId, IId)>| #[trigger] rel.contains((i, j)) && is_bisimulation(u, rel);
        lemma_bisimulation_closed(u, rel);
        assert forall|q: (IId, IId)| #[trigger] reach.contains(q) implies pair_locally_matches(u, q) by {
            let path = choose|path: Seq<int>| #[trigger] follow(u, (i, j), path) == Some(q);
            lemma_closed_holds_reachable(u, i, j, rel, path);
            assert(pair_matches(u, q, rel));
        }
    }
    if forall|q: (IId, IId)| #[trigger] reach.contains(q) ==> pair_locally_matches(u, q) {
        assert(follow(u, (i, j), Seq::<int>::empty()) == Some((i, j)));
        assert(reach.contains((i, j)));
        assert forall|p: (IId, IId)| #[trigger] reach.contains(p) implies pair_matches(u, p, reach) by {
            let path = choose|path: Seq<int>| #[trigger] follow(u, (i, j), path) == Some(p);
            if u.structure_of(p.0) is Some {
                assert forall|k: int| 0 <= k < u.structure_of(p.0)->0.args.len() implies #[trigger] reach.contains(
                    (u.structure_of(p.0)->0.args[k], u.structure_of(p.1)->0.args[k]),
                ) by {
                    lemma_follow_push(u, (i, j), path, k);
                    assert(follow(u, (i, j), path.push(k)) == Some(
                        (u.structure_of(p.0)->0.args[k], u.structure_of(p.1)->0.args[k]),
                    ));
                }
            }
        }
        assert(is_bisimulation(u, reach));
    }
}

/// Bisimilarity is symmetric.
pub proof fn lemma_bisimilarity_symmetric<U: CoinductiveUniverse>(u: &U, i: IId, j: IId)
    ensures
        bisimilar(u, i, j) ==> bisimilar(u, j, i),
{
    if bisimilar(u, i, j) {
        let rel = choose|rel: Set<(IId, IId)>| #[trigger] rel.contains((i, j)) && is_bisimulation(u, rel);
        let inv = Set::new(|p: (IId, IId)| rel.contains((p.1, p.0)));
        assert forall|p: (IId, IId)| #[trigger] inv.contains(p) implies pair_matches(u, p, inv) by {
            assert(pair_matches(u, (p.1, p.0), rel));
            let sa = u.structure_of(p.1);
            let sb = u.structure_of(p.0);
            if let Some(x) = sa {
                if let Some(y) = sb {
                    lemma_opt_value_eq_laws(x.val, y.val, y.val);
                    assert forall|k: int| 0 <= k < y.args.len() implies #[trigger] inv.contains((y.args[k], x.args[k])) by {
                        assert(rel.contains((x.args[k], y.args[k])));
                    }
                }
            }
        }
        assert(inv.contains((j, i)));
    }
}

/// Bisimilarity is transitive.
pub proof fn lemma_bisimilarity_transitive<U: CoinductiveUniverse>(u: &U, i: IId, j: IId, k: IId)
    requires
        bisimilar(u, i, j),
        bisimilar(u, j, k),
    ensures
        bisimilar(u, i, k),
{
    let r1 = choose|rel: Set<(IId, IId)>| #[trigger] rel.contains((i, j)) && is_bisimulation(u, rel);
    let r2 = choose|rel: Set<(IId, IId)>| #[trigger] rel.contains((j, k)) && is_bisimulation(u, rel);
    let comp = Set::new(|p: (IId, IId)| exists|m: IId| #[trigger] r1.contains((p.0, m)) && r2.contains((m, p.1)));
    assert forall|p: (IId, IId)| #[trigger] comp.contains(p) implies pair_matches(u, p, comp) by {
        let m = choose|m: IId| #[trigger] r1.contains((p.0, m)) && r2.contains((m, p.1));
        assert(pair_matches(u, (p.0, m), r1));
        assert(pair_matches(u, (m, p.1), r2));
        if let Some(x) = u.structure_of(p.0) {
            let y = u.structure_of(m)->0;
            let z = u.structure_of(p.1)->0;
            lemma_opt_value_eq_laws(x.val, y.val, z.val);
            assert forall|q: int| 0 <= q < x.args.len() implies #[trigger] comp.contains((x.args[q], z.args[q])) by {
                let w = y.args[q];
                assert(r1.contains((x.args[q], w)));
                assert(r2.contains((w, z.args[q])));
                let pq = (x.args[q], z.args[q]);
                assert(r1.contains((pq.0, w)) && r2.contains((w, pq.1)));
                assert(exists|mm: IId| #[trigger] r1.contains((pq.0, mm)) && r2.contains((mm, pq.1)));
            }
        }
    }
    let ik = (i, k);
    assert(r1.contains((ik.0, j)) && r2.contains((j, ik.1)));
    assert(exists|mm: IId| #[trigger] r1.contains((ik.0, mm)) && r2.contains((mm, ik.1)));
    assert(comp.contains((i, k)));
}

/// Every pair reachable from `(i, i)` is of the form `(x, x)`.
proof fn lemma_reachable_diagonal<U: CoinductiveUniverse>(u: &U, i: IId, path: Seq<int>)
    ensures
        follow(u, (i, i), path) matches Some(q) ==> q.0 == q.1,
    decreases path.len(),
{
    if path.len() > 0 {
        lemma_reachable_diagonal(u, i, path.drop_last());
    }
}

/// Bisimilarity relates an incidence to itself unless a value that equals
/// nothing (a NaN) is reachable from it.
pub proof fn lemma_bisimilarity_reflexive<U: CoinductiveUniverse>(u: &U, i: IId)
    requires
        forall|q: (IId, IId)| #[trigger] reachable(u, i, i).contains(q) ==> (u.structure_of(q.0) matches Some(s)
            ==> opt_value_eq(s.val, s.val)),
    ensures
        bisimilar(u, i, i),
{
    lemma_bisimilar_iff_reachable_match(u, i, i);
    assert forall|q: (IId, IId)| #[trigger] reachable(u, i, i).contains(q) implies pair_locally_matches(u, q) by {
        let path = choose|path: Seq<int>| #[trigger] follow(u, (i, i), path) == Some(q);
        lemma_reachable_diagonal(u, i, path);
    }
}

/// The result of a bisimulation computation.
#[derive(Clone, Debug)]
pub struct BisimulationResult {
    /// Whether the two incidences are bisimilar.
    pub are_bisimilar: bool,
    /// The computed relation, as pairs without repetition.
    pub relation: Vec<(IId, IId)>,
}

/// Computes bisimilarity of pairs of incidences.
pub struct BisimulationComputer<'a, U: CoinductiveUniverse> {
    universe: &'a U,
}

/// Whether `rel` holds the pair `(a, b)`.
fn relation_contains(rel: &[(IId, IId)], a: IId, b: IId) -> (r: bool)
    ensures
        r == rel@.contains((a, b)),
{
    let mut k: usize = 0;
    while k < rel.len()
        invariant
            k <= rel@.len(),
            forall|q: int| 0 <= q < k ==> rel@[q] != (a, b),
        decreases rel@.len() - k,
    {
        if rel[k].0 == a && rel[k].1 == b {
            assert(rel@[k as int] == (a, b));
            return true;
        }
        k = k + 1;
    }
    false
}

/// The pairs of elements of `ids`.
pub open spec fn pairs_of(ids: Set<IId>) -> Set<(IId, IId)> {
    Set::new(|p: (IId, IId)| ids.contains(p.0) && ids.contains(p.1))
}

/// Finitely many identifiers form finitely many pairs.
proof fn lemma_pairs_finite(ids: Set<IId>)
    requires
        ids.finite(),
    ensures
        pairs_of(ids).finite(),
{
    let row = |x: IId| ids.map(|y: IId| (x, y));
    let rows = ids.map(row);
    ids.lemma_map_finite(row);
    assert forall|r: Set<(IId, IId)>| rows.contains(r) implies #[trigger] r.finite() by {
        let x = choose|x: IId| ids.contains(x) && row(x) == r;
        ids.lemma_map_finite(|y: IId| (x, y));
    }
    rows.lemma_flatten_finite();
    assert forall|p: (IId, IId)| pairs_of(ids).contains(p) implies rows.flatten().contains(p) by {
        assert(rows.contains(row(p.0)));
        assert(row(p.0).contains((p.0, p.1)));
    }
    vstd::set_lib::lemma_set_subset_finite(rows.flatten(), pairs_of(ids));
}

/// A sequence without repetition inside a finite set is no longer than the set.
proof fn lemma_distinct_within(s: Seq<(IId, IId)>, bound: Set<(IId, IId)>)
    requires
        s.no_duplicates(),
        bound.finite(),
        forall|x: int| 0 <= x < s.len() ==> bound.contains(#[trigger] s[x]),
    ensures
        s.len() <= bound.len(),
{
    s.unique_seq_to_set();
    assert(s.to_set().subset_of(bound));
    vstd::set_lib::lemma_len_subset(s.to_set(), bound);
}

/// Every reachable pair is made of `i`, `j` and mentioned identifiers.
proof fn lemma_follow_within<U: CoinductiveUniverse>(u: &U, i: IId, j: IId, path: Seq<int>)
    requires
        u.universe_ok(),
    ensures
        follow(u, (i, j), path) matches Some(q) ==> pairs_of(u.mentioned().insert(i).insert(j)).contains(q),
    decreases path.len(),
{
    u.lemma_mentioned();
    if path.len() > 0 {
        lemma_follow_within(u, i, j, path.drop_last());
        if let Some(q0) = follow(u, (i, j), path.drop_last()) {
            let k = path.last();
            if let Some(x) = u.structure_of(q0.0) {
                if let Some(y) = u.structure_of(q0.1) {
                    if x.args.len() == y.args.len() && 0 <= k < x.args.len() {
                        assert(u.structure_of(q0.0)->0.args[k] == x.args[k]);
                        assert(u.structure_of(q0.1)->0.args[k] == y.args[k]);
                    }
                }
            }
        }
    }
}

impl<'a, U: CoinductiveUniverse> BisimulationComputer<'a, U> {
    /// The universe the computation runs over.
    pub closed spec fn universe(&self) -> &'a U {
        self.universe
    }

    /// A computer over `universe`.
    pub fn new(universe: &'a U) -> (r: Self)
        ensures
            r.universe() == universe,
    {
        BisimulationComputer { universe }
    }

    /// Computes whether `i` and `j` are bisimilar: the pairs reachable from
    /// `(i, j)` through corresponding arguments are collected, and each must
    /// have both structures absent, or both present with equal values and
    /// the same number of arguments. When they are bisimilar the relation
    /// returned holds exactly the reachable pairs, each once, and is a
    /// bisimulation; otherwise it is empty.
    pub fn compute_bisimulation(&self, i: IId, j: IId) -> (r: BisimulationResult)
        requires
            self.universe().universe_ok(),
        ensures
            r.are_bisimilar == bisimilar(self.universe(), i, j),
            r.are_bisimilar ==> r.relation@.no_duplicates() && r.relation@.to_set() == reachable(self.universe(), i, j),
            !r.are_bisimilar ==> r.relation@.len() == 0,
    {
        let ghost u = self.universe;
        proof {
            u.lemma_mentioned();
            lemma_pairs_finite(u.mentioned().insert(i).insert(j));
        }
        let ghost bound = pairs_of(u.mentioned().insert(i).insert(j));
        let mut rel: Vec<(IId, IId)> = Vec::new();
        rel.push((i, j));
        let ghost mut paths: Seq<Seq<int>> = seq![Seq::<int>::empty()];
        proof {
            lemma_follow_within(u, i, j, Seq::<int>::empty());
            assert(rel@[0] == (i, j));
            assert(rel@.no_duplicates());
        }
        let mut k: usize = 0;
        while k < rel.len()
            invariant
                u == self.universe,
                u.universe_ok(),
                bound == pairs_of(u.mentioned().insert(i).insert(j)),
                bound.finite(),
                0 < rel@.len(),
                rel@[0] == (i, j),
                k <= rel@.len(),
                rel@.len() <= bound.len(),
                rel@.no_duplicates(),
                paths.len() == rel@.len(),
                forall|x: int| 0 <= x < rel@.len() ==> follow(u, (i, j), #[trigger] paths[x]) == Some(rel@[x]),
                forall|x: int| 0 <= x < rel@.len() ==> bound.contains(#[trigger] rel@[x]),
                forall|x: int| 0 <= x < k ==> pair_locally_matches(u, #[trigger] rel@[x]),
                forall|x: int, m: int|
                    0 <= x < k && #[trigger] arg_pair(u, rel@[x], m) is Some ==> rel@.contains(arg_pair(u, rel@[x], m)->0),
            decreases bound.len() - k,
        {
            let (a, b) = rel[k];
            let sa = self.universe.structure(a);
            let sb = self.universe.structure(b);
            let ghost pk = paths[k as int];
            match (sa, sb) {
                (Some(x), Some(y)) => {
                    let same = match (&x.val, &y.val) {
                        (Some(v), Some(w)) => v.same_value(w),
                        (None, None) => true,
                        _ => false,
                    };
                    if !same || x.args.len() != y.args.len() {
                        proof {
                            lemma_bisimilar_iff_reachable_match(u, i, j);
                            assert(reachable(u, i, j).contains(rel@[k as int]));
                        }
                        return BisimulationResult { are_bisimilar: false, relation: Vec::new() };
                    }
                    let mut m: usize = 0;
                    while m < x.args.len()
                        invariant
                            u == self.universe,
                            u.universe_ok(),
                            bound == pairs_of(u.mentioned().insert(i).insert(j)),
                            bound.finite(),
                            0 < rel@.len(),
                            rel@[0] == (i, j),
                            k < rel@.len(),
                            rel@[k as int] == (a, b),
                            pk == paths[k as int],
                            u.structure_of(a) == Some(x.model()),
                            u.structure_of(b) == Some(y.model()),
                            x.args@.len() == y.args@.len(),
                            m <= x.args@.len(),
                            rel@.len() <= bound.len(),
                            rel@.no_duplicates(),
                            paths.len() == rel@.len(),
                            forall|q: int| 0 <= q < rel@.len() ==> follow(u, (i, j), #[trigger] paths[q]) == Some(rel@[q]),
                            forall|q: int| 0 <= q < rel@.len() ==> bound.contains(#[trigger] rel@[q]),
                            forall|q: int| 0 <= q < k ==> pair_locally_matches(u, #[trigger] rel@[q]),
                            forall|q: int, mm: int|
                                0 <= q < k && #[trigger] arg_pair(u, rel@[q], mm) is Some ==> rel@.contains(
                                    arg_pair(u, rel@[q], mm)->0,
                                ),
                            forall|mm: int| 0 <= mm < m ==> rel@.contains(#[trigger] arg_pair(u, (a, b), mm)->0),
                        decreases x.args@.len() - m,
                    {
                        let p = (x.args[m], y.args[m]);
                        proof {
                            assert(arg_pair(u, (a, b), m as int) == Some(p));
                            lemma_follow_push(u, (i, j), pk, m as int);
                            u.lemma_mentioned();
                            assert(u.structure_of(a)->0.args[m as int] == p.0);
                            assert(u.structure_of(b)->0.args[m as int] == p.1);
                        }
                        if !relation_contains(rel.as_slice(), p.0, p.1) {
                            let ghost before = rel@;
                            rel.push(p);
                            proof {
                                paths = paths.push(pk.push(m as int));
                                assert forall|q: int| 0 <= q < rel@.len() implies bound.contains(#[trigger] rel@[q]) by {
                                    if q < before.len() {
                                        assert(rel@[q] == before[q]);
                                    }
                                }
                                assert forall|q1: int, q2: int| 0 <= q1 < rel@.len() && 0 <= q2 < rel@.len() && q1 != q2
                                    implies rel@[q1] != rel@[q2] by {
                                    if q1 < before.len() && q2 < before.len() {
                                        assert(before[q1] != before[q2]);
                                    } else if q1 < before.len() {
                                        assert(before.contains(before[q1]));
                                    } else {
                                        assert(before.contains(before[q2]));
                                    }
                                }
                                assert(rel@.no_duplicates());
                                lemma_distinct_within(rel@, bound);
                                assert forall|q: int| 0 <= q < rel@.len() implies follow(u, (i, j), #[trigger] paths[q])
                                    == Some(rel@[q]) by {
                                    if q < before.len() {
                                        assert(rel@[q] == before[q]);
                                    }
                                }
                                assert forall|q: int, mm: int|
                                    0 <= q < k && #[trigger] arg_pair(u, rel@[q], mm) is Some implies rel@.contains(
                                        arg_pair(u, rel@[q], mm)->0,
                                    ) by {
                                    assert(rel@[q] == before[q]);
                                    let w = choose|w: int| 0 <= w < before.len() && before[w] == arg_pair(u, before[q], mm)->0;
                                    assert(rel@[w] == before[w]);
                                }
                                assert forall|mm: int| 0 <= mm <= m implies rel@.contains(
                                    #[trigger] arg_pair(u, (a, b), mm)->0,
                                ) by {
                                    if mm < m {
                                        let w = choose|w: int| 0 <= w < before.len() && before[w] == arg_pair(u, (a, b), mm)->0;
                                        assert(rel@[w] == before[w]);
                                    } else {
                                        assert(rel@[before.len() as int] == p);
                                    }
                                }
                            }
                        }
                        m = m + 1;
                    }
                    proof {
                        assert forall|mm: int| #[trigger] arg_pair(u, rel@[k as int], mm) is Some implies rel@.contains(
                            arg_pair(u, rel@[k as int], mm)->0,
                        ) by {
                            assert(0 <= mm < x.args@.len());
                        }
                    }
                },
                (None, None) => {},
                _ => {
                    proof {
                        lemma_bisimilar_iff_reachable_match(u, i, j);
                        assert(reachable(u, i, j).contains(rel@[k as int]));
                    }
                    return BisimulationResult { are_bisimilar: false, relation: Vec::new() };
                },
            }
            k = k + 1;
        }
        proof {
            let set = rel@.to_set();
            assert(set.contains((i, j))) by {
                assert(rel@[0] == (i, j));
            }
            assert(closed_under_args(u, set)) by {
                assert forall|q: (IId, IId), mm: int| set.contains(q) && #[trigger] arg_pair(u, q, mm) is Some implies set.contains(
                    arg_pair(u, q, mm)->0,
                ) by {
                    let x = choose|x: int| 0 <= x < rel@.len() && rel@[x] == q;
                    assert(arg_pair(u, rel@[x], mm) is Some);
                }
            }
            assert forall|q: (IId, IId)| #[trigger] reachable(u, i, j).contains(q) implies set.contains(q) by {
                let path = choose|path: Seq<int>| #[trigger] follow(u, (i, j), path) == Some(q);
                lemma_closed_holds_reachable(u, i, j, set, path);
            }
            assert forall|q: (IId, IId)| set.contains(q) implies #[trigger] reachable(u, i, j).contains(q) by {
                let x = choose|x: int| 0 <= x < rel@.len() && rel@[x] == q;
                assert(follow(u, (i, j), paths[x]) == Some(q));
            }
            assert(set =~= reachable(u, i, j));
            lemma_bisimilar_iff_reachable_match(u, i, j);
            assert forall|q: (IId, IId)| #[trigger] reachable(u, i, j).contains(q) implies pair_locally_matches(u, q) by {
                let x = choose|x: int| 0 <= x < rel@.len() && rel@[x] == q;
                assert(pair_locally_matches(u, rel@[x]));
            }
        }
        BisimulationResult { are_bisimilar: true, relation: rel }
    }
}

/// Bisimulation equality over a universe.
pub struct WorldGraphBisimulation<'a, U: CoinductiveUniverse> {
    computer: BisimulationComputer<'a, U>,
}

impl<'a, U: CoinductiveUniverse> WorldGraphBisimulation<'a, U> {
    /// The universe the equality is decided over.
    pub closed spec fn universe(&self) -> &'a U {
        self.computer.universe()
    }

    /// Bisimulation equality over `universe`.
    pub fn new(universe: &'a U) -> (r: Self)
        ensures
            r.universe() == universe,
    {
        WorldGraphBisimulation { computer: BisimulationComputer::new(universe) }
    }
}

impl<'a, U: CoinductiveUniverse> BisimulationEquality for WorldGraphBisimulation<'a, U> {
    open spec fn equality_ready(&self) -> bool {
        self.universe().universe_ok()
    }

    fn are_bisimilar(&self, i: IId, j: IId) -> (r: bool)
        ensures
            r == bisimilar(self.universe(), i, j),
    {
        self.computer.compute_bisimulation(i, j).are_bisimilar
    }
}

} // verus!
