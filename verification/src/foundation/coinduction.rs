//! Final coalgebras and coinductive equality.

use vstd::prelude::*;
use std::collections::{HashMap, HashSet};
use crate::model::incidence::IId;
use crate::model::value::opt_value_eq;
use crate::foundation::bisimulation::{bisimilar, is_bisimulation, pair_matches};
use crate::foundation::axioms::{CoinductiveUniverse, Structure, StructureModel, args_of_keys, lemma_args_of_keys_finite};

verus! {

broadcast use vstd::std_specs::hash::group_hash_axioms;

/// A final coalgebra `I ≅ P_fin(I)`, given by a finite table of structures.
pub struct FinalCoalgebra {
    structures: HashMap<u64, Structure>,
}

impl FinalCoalgebra {
    /// The table of structures, by identifier.
    pub closed spec fn table(&self) -> Map<u64, StructureModel> {
        self.structures@.map_values(|s: Structure| s.model())
    }

    /// An empty coalgebra.
    pub fn new() -> (r: FinalCoalgebra)
        ensures
            r.table() == Map::<u64, StructureModel>::empty(),
    {
        let r = FinalCoalgebra { structures: HashMap::new() };
        assert(r.table() =~= Map::<u64, StructureModel>::empty());
        r
    }

    /// Sets the structure of `id`, replacing any previous one.
    pub fn add_structure(&mut self, id: IId, structure: Structure)
        ensures
            final(self).table() == old(self).table().insert(id.0, structure.model()),
    {
        let ghost m = structure.model();
        self.structures.insert(id.0, structure);
        assert(self.table() =~= old(self).table().insert(id.0, m));
    }

    /// The structure of `id`, if any.
    pub fn get_structure(&self, id: IId) -> (r: Option<&Structure>)
        ensures
            match r {
                Some(s) => self.table().contains_key(id.0) && self.table()[id.0] == s.model(),
                None => !self.table().contains_key(id.0),
            },
    {
        self.structures.get(&id.0)
    }
}

impl CoinductiveUniverse for FinalCoalgebra {
    open spec fn universe_ok(&self) -> bool {
        true
    }

    open spec fn structure_of(&self, id: IId) -> Option<StructureModel> {
        if self.table().contains_key(id.0) { Some(self.table()[id.0]) } else { None }
    }

    open spec fn mentioned(&self) -> Set<IId> {
        args_of_keys(self.table().dom(), |k: u64| self.table()[k].args)
    }

    proof fn lemma_mentioned(&self) {
        assert(self.table().dom() =~= self.structures@.dom());
        lemma_args_of_keys_finite(self.table().dom(), |k: u64| self.table()[k].args);
        assert forall|id: IId, k: int|
            #![trigger self.structure_of(id)->0.args[k]]
            self.structure_of(id) is Some && 0 <= k < self.structure_of(id)->0.args.len()
                implies self.mentioned().contains(self.structure_of(id)->0.args[k]) by {
            let args = self.table()[id.0].args;
            assert(args.contains(args[k]));
            let g = |kk: u64| self.table()[kk].args;
            assert(g(id.0) == args);
            assert(self.table().dom().contains(id.0) && g(id.0).contains(args[k]));
        }
    }

    fn structure(&self, id: IId) -> (r: Option<Structure>) {
        match self.get_structure(id) {
            Some(s) => Some(s.deep_copy()),
            None => None,
        }
    }
}

/// The key under which an ordered pair of identifiers is remembered.
pub open spec fn pair_key(i: IId, j: IId) -> u128 {
    ((i.0 as int) * 0x1_0000_0000_0000_0000int + (j.0 as int)) as u128
}

/// Distinct pairs have distinct keys.
pub proof fn lemma_pair_key_injective(i1: IId, j1: IId, i2: IId, j2: IId)
    ensures
        pair_key(i1, j1) == pair_key(i2, j2) ==> i1 == i2 && j1 == j2,
{
    let a1 = i1.0 as int;
    let a2 = i2.0 as int;
    let b1 = j1.0 as int;
    let b2 = j2.0 as int;
    let w = 0x1_0000_0000_0000_0000int;
    assert(0 <= a1 * w + b1 < w * w) by (nonlinear_arith)
        requires 0 <= a1 < w, 0 <= b1 < w;
    assert(0 <= a2 * w + b2 < w * w) by (nonlinear_arith)
        requires 0 <= a2 < w, 0 <= b2 < w;
    if pair_key(i1, j1) == pair_key(i2, j2) {
        assert(a1 * w + b1 == a2 * w + b2);
        assert(a1 == a2 && b1 == b2) by (nonlinear_arith)
            requires a1 * w + b1 == a2 * w + b2, 0 <= b1 < w, 0 <= b2 < w, w > 0;
    }
}

fn pair_key_exec(i: IId, j: IId) -> (r: u128)
    ensures
        r == pair_key(i, j),
{
    let a = i.0 as u128;
    let b = j.0 as u128;
    assert(a * 0x1_0000_0000_0000_0000u128 + b <= u128::MAX) by (nonlinear_arith)
        requires a <= 0xffff_ffff_ffff_ffffu128, b <= 0xffff_ffff_ffff_ffffu128;
    a * 0x1_0000_0000_0000_0000u128 + b
}

/// The distance left before the depth limit is passed.
pub open spec fn depth_budget(depth: nat, max_depth: nat) -> nat {
    if depth > max_depth { 0 } else { (max_depth + 1 - depth) as nat }
}

/// Depth-limited coinductive equality of `i` and `j`, starting with the
/// pairs in `visited` already assumed equal. Yields the answer and the
/// pairs visited afterwards.
pub open spec fn coinductive_eq<U: CoinductiveUniverse>(
    u: &U,
    visited: Set<u128>,
    i: IId,
    j: IId,
    depth: nat,
    max_depth: nat,
) -> (bool, Set<u128>)
    decreases depth_budget(depth, max_depth), 1nat, 0nat,
{
    if depth > max_depth {
        (false, visited)
    } else if visited.contains(pair_key(i, j)) {
        (true, visited)
    } else {
        let vis1 = visited.insert(pair_key(i, j));
        match u.structure_of(i) {
            Some(si) => match u.structure_of(j) {
                Some(sj) => if si.args.len() != sj.args.len() || !opt_value_eq(si.val, sj.val) {
                    (false, vis1)
                } else {
                    coinductive_eq_args(u, vis1, si.args, sj.args, 0, depth, max_depth)
                },
                None => (false, vis1),
            },
            None => match u.structure_of(j) {
                Some(_) => (false, vis1),
                None => (true, vis1),
            },
        }
    }
}

/// Pairwise coinductive equality of `a[k..]` and `b[k..]` one level below
/// `depth`, stopping at the first pair that is not equal.
pub open spec fn coinductive_eq_args<U: CoinductiveUniverse>(
    u: &U,
    visited: Set<u128>,
    a: Seq<IId>,
    b: Seq<IId>,
    k: nat,
    depth: nat,
    max_depth: nat,
) -> (bool, Set<u128>)
    decreases depth_budget(depth, max_depth), 0nat, a.len() - k,
{
    if k >= a.len() || depth > max_depth {
        (true, visited)
    } else {
        let (r, vis1) = coinductive_eq(u, visited, a[k as int], b[k as int], depth + 1, max_depth);
        if !r {
            (false, vis1)
        } else {
            coinductive_eq_args(u, vis1, a, b, k + 1, depth, max_depth)
        }
    }
}

/// The pairs whose keys are in `vis`.
pub open spec fn pairs_of_keys(vis: Set<u128>) -> Set<(IId, IId)> {
    Set::new(|p: (IId, IId)| vis.contains(pair_key(p.0, p.1)))
}

/// Every pair recorded in `v2` but not in `v1` matches given the pairs of `v2`.
pub open spec fn new_pairs_match<U: CoinductiveUniverse>(u: &U, v1: Set<u128>, v2: Set<u128>) -> bool {
    forall|p: (IId, IId)|
        #[trigger] pairs_of_keys(v2).contains(p) && !pairs_of_keys(v1).contains(p) ==> pair_matches(
            u,
            p,
            pairs_of_keys(v2),
        )
}

/// Matching given a relation stays matching given a larger one.
proof fn lemma_pair_matches_grows<U: CoinductiveUniverse>(
    u: &U,
    p: (IId, IId),
    r1: Set<(IId, IId)>,
    r2: Set<(IId, IId)>,
)
    requires
        r1.subset_of(r2),
        pair_matches(u, p, r1),
    ensures
        pair_matches(u, p, r2),
{
    if let Some(x) = u.structure_of(p.0) {
        let y = u.structure_of(p.1)->0;
        assert forall|k: int| 0 <= k < x.args.len() implies #[trigger] r2.contains((x.args[k], y.args[k])) by {
            assert(r1.contains((x.args[k], y.args[k])));
        }
    }
}

/// New pairs that match accumulate along growing visited sets.
proof fn lemma_new_pairs_trans<U: CoinductiveUniverse>(u: &U, v0: Set<u128>, v1: Set<u128>, v2: Set<u128>)
    requires
        v0.subset_of(v1),
        v1.subset_of(v2),
        new_pairs_match(u, v0, v1),
        new_pairs_match(u, v1, v2),
    ensures
        new_pairs_match(u, v0, v2),
{
    assert forall|p: (IId, IId)|
        #[trigger] pairs_of_keys(v2).contains(p) && !pairs_of_keys(v0).contains(p) implies pair_matches(
            u,
            p,
            pairs_of_keys(v2),
        ) by {
        if pairs_of_keys(v1).contains(p) {
            assert(pair_matches(u, p, pairs_of_keys(v1)));
            lemma_pair_matches_grows(u, p, pairs_of_keys(v1), pairs_of_keys(v2));
        }
    }
}

/// A successful equality check records the pair checked, only adds to the
/// visited pairs, and every pair it adds matches given all pairs recorded.
proof fn lemma_coinductive_eq_records<U: CoinductiveUniverse>(
    u: &U,
    visited: Set<u128>,
    i: IId,
    j: IId,
    depth: nat,
    max_depth: nat,
)
    ensures
        ({
            let (b, v2) = coinductive_eq(u, visited, i, j, depth, max_depth);
            b ==> visited.subset_of(v2) && v2.contains(pair_key(i, j)) && new_pairs_match(u, visited, v2)
        }),
    decreases depth_budget(depth, max_depth), 1nat, 0nat,
{
    if depth > max_depth || visited.contains(pair_key(i, j)) {
    } else {
        let key = pair_key(i, j);
        let vis1 = visited.insert(key);
        assert forall|p: (IId, IId)| #[trigger] pairs_of_keys(vis1).contains(p) && !pairs_of_keys(visited).contains(p)
            implies p == (i, j) by {
            lemma_pair_key_injective(p.0, p.1, i, j);
        }
        match u.structure_of(i) {
            Some(si) => match u.structure_of(j) {
                Some(sj) => if !(si.args.len() != sj.args.len() || !opt_value_eq(si.val, sj.val)) {
                    lemma_coinductive_eq_args_records(u, vis1, si.args, sj.args, 0, depth, max_depth);
                    let (b, v2) = coinductive_eq_args(u, vis1, si.args, sj.args, 0, depth, max_depth);
                    if b {
                        let r2 = pairs_of_keys(v2);
                        assert forall|k: int| 0 <= k < si.args.len() implies #[trigger] r2.contains(
                            (si.args[k], sj.args[k]),
                        ) by {
                            assert(v2.contains(pair_key(si.args[k], sj.args[k])));
                        }
                        assert(pair_matches(u, (i, j), r2));
                        assert forall|p: (IId, IId)|
                            #[trigger] pairs_of_keys(v2).contains(p) && !pairs_of_keys(visited).contains(p)
                            implies pair_matches(u, p, pairs_of_keys(v2)) by {
                            if pairs_of_keys(vis1).contains(p) {
                                assert(p == (i, j));
                            }
                        }
                    }
                },
                None => {},
            },
            None => match u.structure_of(j) {
                Some(_) => {},
                None => {
                    assert(pair_matches(u, (i, j), pairs_of_keys(vis1)));
                },
            },
        }
    }
}

/// A successful check of `a[k..]` against `b[k..]` records every pair of
/// corresponding arguments, only adds to the visited pairs, and every pair
/// it adds matches given all pairs recorded.
proof fn lemma_coinductive_eq_args_records<U: CoinductiveUniverse>(
    u: &U,
    visited: Set<u128>,
    a: Seq<IId>,
    b: Seq<IId>,
    k: nat,
    depth: nat,
    max_depth: nat,
)
    requires
        depth <= max_depth,
    ensures
        ({
            let (r, v2) = coinductive_eq_args(u, visited, a, b, k, depth, max_depth);
            r ==> visited.subset_of(v2) && new_pairs_match(u, visited, v2) && forall|q: int|
                k <= q < a.len() ==> v2.contains(#[trigger] pair_key(a[q], b[q]))
        }),
    decreases depth_budget(depth, max_depth), 0nat, a.len() - k,
{
    if k < a.len() {
        lemma_coinductive_eq_records(u, visited, a[k as int], b[k as int], depth + 1, max_depth);
        let (r1, v1) = coinductive_eq(u, visited, a[k as int], b[k as int], depth + 1, max_depth);
        if r1 {
            lemma_coinductive_eq_args_records(u, v1, a, b, k + 1, depth, max_depth);
            let (r2, v2) = coinductive_eq_args(u, v1, a, b, k + 1, depth, max_depth);
            if r2 {
                lemma_new_pairs_trans(u, visited, v1, v2);
                assert(v2.contains(pair_key(a[k as int], b[k as int])));
            }
        }
    }
}

/// Coinductive equality is sound: when a check that starts with nothing
/// visited finds `i` and `j` equal, they are bisimilar. So two present
/// structures found equal have equal values, as many arguments, and every
/// pair of corresponding arguments (at every position) bisimilar.
pub proof fn lemma_coinductive_equality_sound<U: CoinductiveUniverse>(u: &U, i: IId, j: IId, depth: nat, max_depth: nat)
    ensures
        coinductive_eq(u, Set::<u128>::empty(), i, j, depth, max_depth).0 ==> bisimilar(u, i, j),
{
    lemma_coinductive_eq_records(u, Set::<u128>::empty(), i, j, depth, max_depth);
    let (b, v2) = coinductive_eq(u, Set::<u128>::empty(), i, j, depth, max_depth);
    if b {
        let rel = pairs_of_keys(v2);
        assert(rel.contains((i, j)));
        assert forall|p: (IId, IId)| #[trigger] rel.contains(p) implies pair_matches(u, p, rel) by {
            assert(!pairs_of_keys(Set::<u128>::empty()).contains(p));
        }
        assert(is_bisimulation(u, rel));
    }
}

/// Checks coinductive properties of possibly infinite structures.
pub struct CoinductiveChecker<'a, U: CoinductiveUniverse> {
    universe: &'a U,
    visited: HashSet<u128>,
    max_depth: usize,
}

impl<'a, U: CoinductiveUniverse> CoinductiveChecker<'a, U> {
    /// The universe being checked.
    pub closed spec fn universe(&self) -> &'a U {
        self.universe
    }

    /// The pairs visited so far, by key.
    pub closed spec fn visited(&self) -> Set<u128> {
        self.visited@
    }

    /// The depth limit.
    pub closed spec fn max_depth(&self) -> usize {
        self.max_depth
    }

    /// A checker over `universe` with the given depth limit and nothing visited.
    pub fn new(universe: &'a U, max_depth: usize) -> (r: Self)
        ensures
            r.universe() == universe,
            r.visited() == Set::<u128>::empty(),
            r.max_depth() == max_depth,
    {
        CoinductiveChecker { universe, visited: HashSet::new(), max_depth }
    }

    /// Whether `i` and `j` are coinductively equal, exploring at most down
    /// to the depth limit. A pair met again within the check (a cycle)
    /// counts as equal; a pair beyond the limit counts as unequal. Each check
    /// starts with nothing visited, so the answer does not depend on earlier
    /// checks.
    pub fn check_equality(&mut self, i: IId, j: IId, depth: usize) -> (r: bool)
        requires
            old(self).max_depth() < usize::MAX,
            old(self).universe().universe_ok(),
        ensures
            (r, final(self).visited()) == coinductive_eq(
                old(self).universe(),
                Set::<u128>::empty(),
                i,
                j,
                depth as nat,
                old(self).max_depth() as nat,
            ),
            final(self).universe() == old(self).universe(),
            final(self).max_depth() == old(self).max_depth(),
    {
        self.visited = HashSet::new();
        self.check_from(i, j, depth)
    }

    /// Coinductive equality of `i` and `j`, with the pairs already visited
    /// assumed equal.
    fn check_from(&mut self, i: IId, j: IId, depth: usize) -> (r: bool)
        requires
            old(self).max_depth() < usize::MAX,
            old(self).universe().universe_ok(),
        ensures
            (r, final(self).visited()) == coinductive_eq(
                old(self).universe(),
                old(self).visited(),
                i,
                j,
                depth as nat,
                old(self).max_depth() as nat,
            ),
            final(self).universe() == old(self).universe(),
            final(self).max_depth() == old(self).max_depth(),
        decreases depth_budget(depth as nat, old(self).max_depth() as nat),
    {
        if depth > self.max_depth {
            return false;
        }
        let key = pair_key_exec(i, j);
        if self.visited.contains(&key) {
            return true;
        }
        self.visited.insert(key);
        let struct_i = self.universe.structure(i);
        let struct_j = self.universe.structure(j);
        match struct_i {
            Some(si) => match struct_j {
                Some(sj) => {
                    if si.args.len() != sj.args.len() {
                        return false;
                    }
                    let same = match (&si.val, &sj.val) {
                        (Some(a), Some(b)) => a.same_value(b),
                        (None, None) => true,
                        _ => false,
                    };
                    if !same {
                        return false;
                    }
                    let ghost u = self.universe;
                    let ghost md = self.max_depth as nat;
                    let ghost target = coinductive_eq_args(u, self.visited@, si.args@, sj.args@, 0, depth as nat, md);
                    assert(coinductive_eq(u, old(self).visited@, i, j, depth as nat, md) == target);
                    let mut k: usize = 0;
                    while k < si.args.len()
                        invariant
                            self.universe == u,
                            self.max_depth == old(self).max_depth,
                            u == old(self).universe,
                            md == old(self).max_depth as nat,
                            coinductive_eq(u, old(self).visited@, i, j, depth as nat, md) == target,
                            self.max_depth as nat == md,
                            md < usize::MAX,
                            depth <= md,
                            u.universe_ok(),
                            si.args@.len() == sj.args@.len(),
                            k <= si.args@.len(),
                            coinductive_eq_args(u, self.visited@, si.args@, sj.args@, k as nat, depth as nat, md) == target,
                        decreases si.args@.len() - k,
                    {
                        let sub = self.check_from(si.args[k], sj.args[k], depth + 1);
                        if !sub {
                            return false;
                        }
                        k = k + 1;
                    }
                    true
                },
                None => false,
            },
            None => match struct_j {
                Some(_) => false,
                None => true,
            },
        }
    }
}

} // verus!
