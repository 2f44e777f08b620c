//! Coinductive queries: depth-limited exploration of possibly infinite structures.

use vstd::prelude::*;
use std::collections::HashSet;
use crate::model::incidence::IId;
use crate::model::world_graph::{GraphModel, WorldGraph};
use crate::foundation::bisimulation::{BisimulationComputer, bisimilar};
use crate::foundation::coinduction::depth_budget;

verus! {

broadcast use vstd::std_specs::hash::group_hash_axioms;

/// Depth-first exploration from `current`: yields the visited identifiers
/// and the results after visiting `current` (and, unless it was visited
/// already or lies beyond the depth limit, its arguments recursively).
pub open spec fn explore(
    g: GraphModel,
    visited: Set<u64>,
    results: Seq<IId>,
    current: IId,
    depth: nat,
    max_depth: nat,
) -> (Set<u64>, Seq<IId>)
    decreases depth_budget(depth, max_depth), 1nat, 0nat,
{
    if depth > max_depth {
        (visited, results)
    } else if visited.contains(current.0) {
        (visited, results)
    } else {
        let v1 = visited.insert(current.0);
        let r1 = results.push(current);
        match g.lookup(current) {
            Some(inc) => explore_args(g, v1, r1, inc.args, 0, depth, max_depth),
            None => (v1, r1),
        }
    }
}

/// Explores `args[k..]` one level below `depth`, in order.
pub open spec fn explore_args(
    g: GraphModel,
    visited: Set<u64>,
    results: Seq<IId>,
    args: Seq<IId>,
    k: nat,
    depth: nat,
    max_depth: nat,
) -> (Set<u64>, Seq<IId>)
    decreases depth_budget(depth, max_depth), 0nat, args.len() - k,
{
    if k >= args.len() || depth > max_depth {
        (visited, results)
    } else {
        let (v2, r2) = explore(g, visited, results, args[k as int], depth + 1, max_depth);
        explore_args(g, v2, r2, args, k + 1, depth, max_depth)
    }
}

/// Going from `(v1, r1)` to `(v2, r2)` appends to the results only
/// identifiers not visited before, each once, and marks exactly those visited.
pub open spec fn grows(v1: Set<u64>, r1: Seq<IId>, v2: Set<u64>, r2: Seq<IId>) -> bool {
    &&& r1.len() <= r2.len()
    &&& r2.subrange(0, r1.len() as int) == r1
    &&& forall|a: int, b: int| r1.len() <= a < b < r2.len() ==> #[trigger] r2[a] != #[trigger] r2[b]
    &&& forall|a: int| r1.len() <= a < r2.len() ==> !v1.contains(#[trigger] r2[a].0)
    &&& forall|x: u64| #[trigger] v2.contains(x) <==> (v1.contains(x) || exists|a: int|
        r1.len() <= a < r2.len() && r2[a].0 == x)
}

proof fn lemma_grows_refl(v: Set<u64>, r: Seq<IId>)
    ensures
        grows(v, r, v, r),
{
    assert(r.subrange(0, r.len() as int) =~= r);
}

proof fn lemma_grows_trans(v1: Set<u64>, r1: Seq<IId>, v2: Set<u64>, r2: Seq<IId>, v3: Set<u64>, r3: Seq<IId>)
    requires
        grows(v1, r1, v2, r2),
        grows(v2, r2, v3, r3),
    ensures
        grows(v1, r1, v3, r3),
{
    assert(r3.subrange(0, r1.len() as int) =~= r2.subrange(0, r1.len() as int)) by {
        assert forall|q: int| 0 <= q < r1.len() implies r3[q] == r2[q] by {
            assert(r3.subrange(0, r2.len() as int)[q] == r3[q]);
        }
    }
    assert forall|a: int| r1.len() <= a < r3.len() implies !v1.contains(#[trigger] r3[a].0) by {
        if a >= r2.len() {
            if v1.contains(r3[a].0) {
                assert(v2.contains(r3[a].0));
            }
        } else {
            assert(r3.subrange(0, r2.len() as int)[a] == r3[a]);
        }
    }
    assert forall|a: int, b: int| r1.len() <= a < b < r3.len() implies #[trigger] r3[a] != #[trigger] r3[b] by {
        if b >= r2.len() && a < r2.len() {
            assert(r3[a] == r2[a]) by {
                assert(r3.subrange(0, r2.len() as int)[a] == r3[a]);
            }
            if r3[a] == r3[b] {
                assert(v2.contains(r2[a].0));
            }
        } else if b < r2.len() {
            assert(r3.subrange(0, r2.len() as int)[a] == r3[a]);
            assert(r3.subrange(0, r2.len() as int)[b] == r3[b]);
        }
    }
    assert forall|x: u64| #[trigger] v3.contains(x) <==> (v1.contains(x) || exists|a: int|
        r1.len() <= a < r3.len() && r3[a].0 == x) by {
        if v2.contains(x) && !v1.contains(x) {
            let a = choose|a: int| r1.len() <= a < r2.len() && r2[a].0 == x;
            assert(r3.subrange(0, r2.len() as int)[a] == r3[a]);
        }
        if exists|a: int| r1.len() <= a < r3.len() && r3[a].0 == x {
            let a = choose|a: int| r1.len() <= a < r3.len() && r3[a].0 == x;
            if a < r2.len() {
                assert(r3.subrange(0, r2.len() as int)[a] == r3[a]);
            }
        }
    }
    assert(r1.len() <= r3.len());
    assert(r3.subrange(0, r1.len() as int) == r1);
    assert(forall|a: int| r1.len() <= a < r3.len() ==> !v1.contains(#[trigger] r3[a].0));
}

/// Exploration only appends fresh identifiers, each once.
pub proof fn lemma_explore_grows(
    g: GraphModel,
    visited: Set<u64>,
    results: Seq<IId>,
    current: IId,
    depth: nat,
    max_depth: nat,
)
    ensures
        grows(visited, results, explore(g, visited, results, current, depth, max_depth).0,
            explore(g, visited, results, current, depth, max_depth).1),
    decreases depth_budget(depth, max_depth), 1nat, 0nat,
{
    if depth > max_depth || visited.contains(current.0) {
        lemma_grows_refl(visited, results);
    } else {
        let v1 = visited.insert(current.0);
        let r1 = results.push(current);
        assert(grows(visited, results, v1, r1)) by {
            assert(r1.subrange(0, results.len() as int) =~= results);
            assert forall|x: u64| #[trigger] v1.contains(x) <==> (visited.contains(x) || exists|a: int|
                results.len() <= a < r1.len() && r1[a].0 == x) by {
                if x == current.0 {
                    assert(r1[results.len() as int] == current);
                }
            }
        }
        match g.lookup(current) {
            Some(inc) => {
                lemma_explore_args_grows(g, v1, r1, inc.args, 0, depth, max_depth);
                let e = explore_args(g, v1, r1, inc.args, 0, depth, max_depth);
                lemma_grows_trans(visited, results, v1, r1, e.0, e.1);
            },
            None => {},
        }
    }
}

/// Exploring arguments only appends fresh identifiers, each once.
pub proof fn lemma_explore_args_grows(
    g: GraphModel,
    visited: Set<u64>,
    results: Seq<IId>,
    args: Seq<IId>,
    k: nat,
    depth: nat,
    max_depth: nat,
)
    ensures
        grows(visited, results, explore_args(g, visited, results, args, k, depth, max_depth).0,
            explore_args(g, visited, results, args, k, depth, max_depth).1),
    decreases depth_budget(depth, max_depth), 0nat, args.len() - k,
{
    if k >= args.len() || depth > max_depth {
        lemma_grows_refl(visited, results);
    } else {
        lemma_explore_grows(g, visited, results, args[k as int], depth + 1, max_depth);
        let (v2, r2) = explore(g, visited, results, args[k as int], depth + 1, max_depth);
        lemma_explore_args_grows(g, v2, r2, args, k + 1, depth, max_depth);
        let e = explore_args(g, v2, r2, args, k + 1, depth, max_depth);
        lemma_grows_trans(visited, results, v2, r2, e.0, e.1);
    }
}

/// A coinductive query reports each incidence at most once, never one it
/// visited in an earlier execution, and afterwards remembers exactly the
/// earlier visited identifiers together with those it reported.
pub proof fn lemma_query_reports_each_once(g: GraphModel, visited: Set<u64>, start: IId, max_depth: nat)
    ensures
        ({
            let (v, r) = explore(g, visited, Seq::empty(), start, 0, max_depth);
            &&& forall|a: int, b: int| 0 <= a < b < r.len() ==> #[trigger] r[a] != #[trigger] r[b]
            &&& forall|a: int| 0 <= a < r.len() ==> !visited.contains(#[trigger] r[a].0)
            &&& forall|x: u64| #[trigger] v.contains(x) <==> (visited.contains(x) || exists|a: int|
                0 <= a < r.len() && r[a].0 == x)
        }),
{
    lemma_explore_grows(g, visited, Seq::empty(), start, 0, max_depth);
}

/// Exploration never forgets a visited identifier.
proof fn lemma_grows_keeps(v1: Set<u64>, r1: Seq<IId>, v2: Set<u64>, r2: Seq<IId>, x: u64)
    requires
        grows(v1, r1, v2, r2),
        v1.contains(x),
    ensures
        v2.contains(x),
{
}

/// Exploring an identifier within the depth limit marks it visited.
proof fn lemma_explore_marks(g: GraphModel, visited: Set<u64>, results: Seq<IId>, current: IId, depth: nat, max_depth: nat)
    requires
        depth <= max_depth,
    ensures
        explore(g, visited, results, current, depth, max_depth).0.contains(current.0),
{
    if !visited.contains(current.0) {
        let v1 = visited.insert(current.0);
        let r1 = results.push(current);
        if let Some(inc) = g.lookup(current) {
            lemma_explore_args_grows(g, v1, r1, inc.args, 0, depth, max_depth);
            let e = explore_args(g, v1, r1, inc.args, 0, depth, max_depth);
            lemma_grows_keeps(v1, r1, e.0, e.1, current.0);
        }
    }
}

/// Exploring arguments strictly above the depth limit marks every one of
/// them visited.
proof fn lemma_explore_args_marks(
    g: GraphModel,
    visited: Set<u64>,
    results: Seq<IId>,
    args: Seq<IId>,
    k: nat,
    depth: nat,
    max_depth: nat,
)
    requires
        depth < max_depth,
    ensures
        forall|q: int| k <= q < args.len() ==> #[trigger] explore_args(g, visited, results, args, k, depth, max_depth).0.contains(
            args[q].0,
        ),
    decreases args.len() - k,
{
    if k < args.len() {
        lemma_explore_marks(g, visited, results, args[k as int], depth + 1, max_depth);
        let (v2, r2) = explore(g, visited, results, args[k as int], depth + 1, max_depth);
        lemma_explore_args_marks(g, v2, r2, args, k + 1, depth, max_depth);
        lemma_explore_args_grows(g, v2, r2, args, k + 1, depth, max_depth);
        let e = explore_args(g, v2, r2, args, k + 1, depth, max_depth);
        lemma_grows_keeps(v2, r2, e.0, e.1, args[k as int].0);
        assert(explore_args(g, visited, results, args, k, depth, max_depth) == e);
    }
}

/// Exploration follows every argument: entering an incidence above the
/// depth limit leaves it and each of its arguments visited.
pub proof fn lemma_explore_visits_arguments(
    g: GraphModel,
    visited: Set<u64>,
    results: Seq<IId>,
    current: IId,
    depth: nat,
    max_depth: nat,
)
    requires
        depth < max_depth,
        !visited.contains(current.0),
        g.lookup(current) is Some,
    ensures
        explore(g, visited, results, current, depth, max_depth).0.contains(current.0),
        forall|k: int| 0 <= k < g.lookup(current)->0.args.len() ==> #[trigger] explore(
            g,
            visited,
            results,
            current,
            depth,
            max_depth,
        ).0.contains(g.lookup(current)->0.args[k].0),
{
    lemma_explore_marks(g, visited, results, current, depth, max_depth);
    let inc = g.lookup(current)->0;
    let v1 = visited.insert(current.0);
    let r1 = results.push(current);
    lemma_explore_args_marks(g, v1, r1, inc.args, 0, depth, max_depth);
    let e = explore_args(g, v1, r1, inc.args, 0, depth, max_depth);
    assert(explore(g, visited, results, current, depth, max_depth) == e);
    assert forall|k: int| 0 <= k < inc.args.len() implies #[trigger] explore(g, visited, results, current, depth, max_depth).0.contains(
        g.lookup(current)->0.args[k].0,
    ) by {
        assert(e.0.contains(inc.args[k].0));
    }
}

/// A fresh query with a depth limit above zero reports its start incidence
/// and every argument of it.
pub proof fn lemma_query_reports_arguments(g: GraphModel, start: IId, max_depth: nat)
    requires
        max_depth > 0,
        g.lookup(start) is Some,
    ensures
        ({
            let r = explore(g, Set::empty(), Seq::empty(), start, 0, max_depth).1;
            &&& r.contains(start)
            &&& forall|k: int| 0 <= k < g.lookup(start)->0.args.len() ==> r.contains(
                #[trigger] g.lookup(start)->0.args[k],
            )
        }),
{
    let (v, r) = explore(g, Set::empty(), Seq::empty(), start, 0, max_depth);
    lemma_explore_visits_arguments(g, Set::empty(), Seq::empty(), start, 0, max_depth);
    lemma_query_reports_each_once(g, Set::empty(), start, max_depth);
    assert(v.contains(start.0));
    let a0 = choose|a: int| 0 <= a < r.len() && r[a].0 == start.0;
    assert(r[a0] == start);
    assert forall|k: int| 0 <= k < g.lookup(start)->0.args.len() implies r.contains(
        #[trigger] g.lookup(start)->0.args[k],
    ) by {
        let x = g.lookup(start)->0.args[k];
        assert(v.contains(x.0));
        let a = choose|a: int| 0 <= a < r.len() && r[a].0 == x.0;
        assert(r[a] == x);
    }
}

/// A coinductive query: depth-limited exploration from a start incidence.
pub struct CoinductiveQuery {
    /// The starting incidence.
    pub start: IId,
    /// The depth limit.
    pub max_depth: usize,
    visited: HashSet<u64>,
}

impl CoinductiveQuery {
    /// The identifiers visited so far (remembered across executions).
    pub closed spec fn visited(&self) -> Set<u64> {
        self.visited@
    }

    /// The starting incidence.
    pub closed spec fn start_id(&self) -> IId {
        self.start
    }

    /// The depth limit.
    pub closed spec fn depth_limit(&self) -> usize {
        self.max_depth
    }

    /// A query from `start` with the given depth limit and nothing visited.
    pub fn new(start: IId, max_depth: usize) -> (r: CoinductiveQuery)
        ensures
            r.start_id() == start,
            r.depth_limit() == max_depth,
            r.visited() == Set::<u64>::empty(),
    {
        CoinductiveQuery { start, max_depth, visited: HashSet::new() }
    }

    /// Explores `graph` depth-first from the start incidence, following
    /// arguments, and returns the incidences reached in visiting order.
    /// Identifiers visited before (in this or an earlier execution) are not
    /// entered again, which cuts cycles.
    pub fn execute(&mut self, graph: &WorldGraph) -> (r: Vec<IId>)
        requires
            old(self).depth_limit() < usize::MAX,
            graph.wf(),
        ensures
            (final(self).visited(), r@) == explore(graph@, old(self).visited(), Seq::empty(), old(self).start_id(), 0,
                old(self).depth_limit() as nat),
            final(self).start_id() == old(self).start_id(),
            final(self).depth_limit() == old(self).depth_limit(),
    {
        let mut results: Vec<IId> = Vec::new();
        let start = self.start;
        self.dfs(graph, start, 0, &mut results);
        results
    }

    fn dfs(&mut self, graph: &WorldGraph, current: IId, depth: usize, results: &mut Vec<IId>)
        requires
            old(self).depth_limit() < usize::MAX,
            graph.wf(),
        ensures
            (final(self).visited(), final(results)@) == explore(graph@, old(self).visited(), old(results)@, current,
                depth as nat, old(self).depth_limit() as nat),
            final(self).start_id() == old(self).start_id(),
            final(self).depth_limit() == old(self).depth_limit(),
        decreases depth_budget(depth as nat, old(self).depth_limit() as nat),
    {
        if depth > self.max_depth {
            return;
        }
        if self.visited.contains(&current.0) {
            return;
        }
        self.visited.insert(current.0);
        results.push(current);
        match graph.get(current) {
            Some(inc) => {
                let ghost md = self.max_depth as nat;
                let ghost target = explore_args(graph@, self.visited@, results@, inc.args@, 0, depth as nat, md);
                let mut k: usize = 0;
                while k < inc.args.len()
                    invariant
                        graph.wf(),
                        self.max_depth == old(self).max_depth,
                        self.start == old(self).start,
                        md == self.max_depth as nat,
                        md < usize::MAX,
                        depth <= md,
                        k <= inc.args@.len(),
                        explore_args(graph@, self.visited@, results@, inc.args@, k as nat, depth as nat, md) == target,
                        explore(graph@, old(self).visited@, old(results)@, current, depth as nat, md) == target,
                    decreases inc.args@.len() - k,
                {
                    self.dfs(graph, inc.args[k], depth + 1, results);
                    k = k + 1;
                }
            },
            None => {},
        }
    }
}

/// A bisimulation query: are two incidences bisimilar?
pub struct BisimulationQuery {
    /// The first incidence.
    pub i: IId,
    /// The second incidence.
    pub j: IId,
}

impl BisimulationQuery {
    /// A new query.
    pub fn new(i: IId, j: IId) -> (r: BisimulationQuery)
        ensures
            r.i == i,
            r.j == j,
    {
        BisimulationQuery { i, j }
    }

    /// Whether the two incidences are bisimilar in `graph`.
    pub fn execute(&self, graph: &WorldGraph) -> (r: bool)
        requires
            graph.wf(),
        ensures
            r == bisimilar(graph, self.i, self.j),
    {
        let computer = BisimulationComputer::new(graph);
        let result = computer.compute_bisimulation(self.i, self.j);
        result.are_bisimilar
    }
}

} // verus!
