//! The multi-hop traversal of the event-sourced schema as a walk that asks
//! for one lookup at a time: the event store is read by the caller, which
//! answers each request with what the store holds under the requested
//! identifier. Answered consistently with a graph, the walk ends with the
//! totals that [`hop_totals`] gives for that graph.

use vstd::prelude::*;
use std::collections::HashSet;
use crate::model::incidence::IId;
use crate::model::world_graph::GraphModel;
use crate::api::benchmark::{
    hop_edges, hop_run, hop_totals, lemma_visit_edges_grows, lemma_visit_level_grows, start_run, visit_edges,
    visit_level,
};

verus! {

broadcast use vstd::std_specs::hash::group_hash_axioms;

/// Where a walk stands.
#[derive(Clone, Copy, Debug, PartialEq, Eq, Structural)]
pub enum WalkStage {
    /// At node `q` of the current level, its arguments not yet known.
    Node,
    /// At edge `e` of the arguments of node `q`.
    Edge,
    /// All starts are done.
    Done,
}

/// A multi-hop traversal driven by lookups that the caller performs.
pub struct HopWalk {
    starts: Vec<IId>,
    si: usize,
    depth: usize,
    avg: usize,
    current: Vec<IId>,
    q: usize,
    edges: Vec<IId>,
    e: usize,
    visited: HashSet<u64>,
    next: Vec<IId>,
    hop: usize,
    total_hops: usize,
    total_nodes: usize,
    stage: WalkStage,
    waiting: bool,
}

/// Whether `found` is what a graph `g` holds under `id`: the arguments of
/// the incidence stored there, or nothing.
pub open spec fn answers(g: GraphModel, id: IId, found: Option<Seq<IId>>) -> bool {
    match g.lookup(id) {
        Some(m) => found == Some(m.args),
        None => found is None,
    }
}

/// The arguments that an answer gives, as a sequence.
pub open spec fn found_args(found: Option<Vec<IId>>) -> Option<Seq<IId>> {
    match found {
        Some(v) => Some(v@),
        None => None,
    }
}

/// The rest of a start from level `current` (its first `q` nodes and, in the
/// edge stage, the first `e` edges of node `q` done): the identifiers seen
/// at its end and the hops still to make.
pub open spec fn start_rest(
    g: GraphModel,
    current: Seq<IId>,
    q: nat,
    in_edges: bool,
    edges: Seq<IId>,
    e: nat,
    seen: Set<u64>,
    next: Seq<IId>,
    hop: nat,
    depth: nat,
    avg: nat,
) -> (Set<u64>, nat) {
    let lvl = if in_edges {
        let (s1, n1) = visit_edges(g, edges, e, seen, next);
        visit_level(g, current, q + 1, s1, n1, avg)
    } else {
        visit_level(g, current, q, seen, next, avg)
    };
    let level_hops = (lvl.1.len() - next.len()) as nat;
    if lvl.1.len() == 0 || hop + 1 >= depth {
        (lvl.0, level_hops)
    } else {
        let (s2, h) = hop_run(g, lvl.1, lvl.0, (depth - hop - 1) as nat, avg);
        (s2, level_hops + h)
    }
}

/// Starting a level afresh is the hop run from it.
proof fn lemma_fresh_level(g: GraphModel, current: Seq<IId>, seen: Set<u64>, hop: nat, depth: nat, avg: nat)
    requires
        hop < depth,
    ensures
        start_rest(g, current, 0, false, Seq::empty(), 0, seen, Seq::empty(), hop, depth, avg)
            == hop_run(g, current, seen, (depth - hop) as nat, avg),
{
    let lvl = visit_level(g, current, 0, seen, Seq::empty(), avg);
    if lvl.1.len() > 0 && hop + 1 >= depth {
        assert(hop_run(g, lvl.1, lvl.0, 0, avg) == (lvl.0, 0nat));
    }
}

impl HopWalk {
    /// The totals that the rest of the walk reaches when its lookups are
    /// answered as `g` holds.
    pub closed spec fn remaining(&self, g: GraphModel) -> (nat, nat) {
        if self.stage == WalkStage::Done {
            (self.total_hops as nat, self.total_nodes as nat)
        } else {
            let (seen, h) = start_rest(
                g,
                self.current@,
                self.q as nat,
                self.stage == WalkStage::Edge,
                self.edges@,
                self.e as nat,
                self.visited@,
                self.next@,
                self.hop as nat,
                self.depth as nat,
                self.avg as nat,
            );
            hop_totals(
                g,
                self.starts@,
                (self.si + 1) as nat,
                (self.total_hops + h) as nat,
                (self.total_nodes + seen.len()) as nat,
                self.depth as nat,
                self.avg as nat,
            )
        }
    }

    /// The identifier whose lookup is awaited, if any.
    pub closed spec fn pending(&self) -> Option<IId> {
        if !self.waiting {
            None
        } else if self.stage == WalkStage::Node {
            Some(self.current@[self.q as int])
        } else {
            Some(self.edges@[self.e as int])
        }
    }

    /// Whether all starts are done.
    pub closed spec fn finished(&self) -> bool {
        self.stage == WalkStage::Done
    }

    /// The hops made so far.
    pub closed spec fn hops(&self) -> nat {
        self.total_hops as nat
    }

    /// The identifiers counted as seen so far.
    pub closed spec fn nodes(&self) -> nat {
        self.total_nodes as nat
    }

    /// The largest number of identifiers that the walk may still count
    /// before its next lookup: those seen in the current start, and one
    /// for each start after it.
    pub closed spec fn countable(&self) -> nat {
        if self.stage == WalkStage::Done {
            0
        } else {
            self.visited@.len() + (self.starts@.len() - self.si - 1) as nat
        }
    }

    /// The walk's internal consistency.
    pub closed spec fn wf(&self) -> bool {
        &&& self.stage != WalkStage::Done ==> {
            &&& self.si < self.starts@.len()
            &&& self.hop < self.depth
            &&& self.q <= self.current@.len()
            &&& self.stage == WalkStage::Edge ==> self.q < self.current@.len() && self.e <= self.edges@.len()
        }
        &&& self.visited@.finite()
        &&& self.waiting ==> self.stage != WalkStage::Done
        &&& self.waiting && self.stage == WalkStage::Node ==> self.q < self.current@.len()
        &&& self.waiting && self.stage == WalkStage::Edge ==> self.e < self.edges@.len() && !self.visited@.contains(
            self.edges@[self.e as int].0,
        )
    }

    /// Begins start `si` (or finishes when there is none), counting each
    /// start that ends at once because `depth` is zero.
    fn begin(&mut self)
        requires
            old(self).si <= old(self).starts@.len(),
            old(self).total_nodes + (old(self).starts@.len() - old(self).si) <= usize::MAX,
            !old(self).waiting,
        ensures
            final(self).wf(),
            !final(self).waiting,
            old(self).si <= final(self).si <= final(self).starts@.len(),
            final(self).starts@ == old(self).starts@,
            final(self).depth == old(self).depth,
            final(self).avg == old(self).avg,
            final(self).total_hops == old(self).total_hops,
            forall|g: GraphModel| #[trigger] final(self).remaining(g) == hop_totals(
                g,
                old(self).starts@,
                old(self).si as nat,
                old(self).total_hops as nat,
                old(self).total_nodes as nat,
                old(self).depth as nat,
                old(self).avg as nat,
            ),
            final(self).total_nodes + final(self).countable() <= old(self).total_nodes + (old(self).starts@.len()
                - old(self).si),
    {
        let ghost si0 = self.si;
        let ghost nodes0 = self.total_nodes;
        while self.si < self.starts.len() && self.depth == 0
            invariant
                self.si <= self.starts@.len(),
                self.starts@ == old(self).starts@,
                self.depth == old(self).depth,
                self.avg == old(self).avg,
                self.total_hops == old(self).total_hops,
                !self.waiting,
                self.total_nodes == nodes0 + (self.si - si0),
                si0 <= self.si,
                si0 == old(self).si,
                nodes0 == old(self).total_nodes,
                nodes0 + (self.starts@.len() - si0) <= usize::MAX,
                forall|g: GraphModel| #[trigger] hop_totals(
                    g,
                    self.starts@,
                    self.si as nat,
                    self.total_hops as nat,
                    self.total_nodes as nat,
                    self.depth as nat,
                    self.avg as nat,
                ) == hop_totals(
                    g,
                    old(self).starts@,
                    si0 as nat,
                    old(self).total_hops as nat,
                    nodes0 as nat,
                    self.depth as nat,
                    self.avg as nat,
                ),
            decreases self.starts@.len() - self.si,
        {
            let ghost si_b = self.si;
            let ghost nodes_b = self.total_nodes;
            let ghost s = self.starts@[self.si as int];
            self.total_nodes = self.total_nodes + 1;
            self.si = self.si + 1;
            proof {
                assert forall|g: GraphModel| #[trigger] hop_totals(
                    g,
                    self.starts@,
                    self.si as nat,
                    self.total_hops as nat,
                    self.total_nodes as nat,
                    self.depth as nat,
                    self.avg as nat,
                ) == hop_totals(
                    g,
                    old(self).starts@,
                    si0 as nat,
                    old(self).total_hops as nat,
                    nodes0 as nat,
                    self.depth as nat,
                    self.avg as nat,
                ) by {
                    assert(start_run(g, s, 0, self.avg as nat) == (Set::<u64>::empty().insert(s.0), 0nat));
                    assert(Set::<u64>::empty().insert(s.0).len() == 1);
                    assert(hop_totals(
                        g,
                        self.starts@,
                        si_b as nat,
                        self.total_hops as nat,
                        nodes_b as nat,
                        self.depth as nat,
                        self.avg as nat,
                    ) == hop_totals(
                        g,
                        self.starts@,
                        self.si as nat,
                        self.total_hops as nat,
                        self.total_nodes as nat,
                        self.depth as nat,
                        self.avg as nat,
                    ));
                }
            }
        }
        let ghost si_end = self.si;
        let ghost nodes_end = self.total_nodes;
        if self.si >= self.starts.len() {
            proof {
                assert forall|g: GraphModel| #[trigger] hop_totals(
                    g,
                    old(self).starts@,
                    old(self).si as nat,
                    old(self).total_hops as nat,
                    old(self).total_nodes as nat,
                    old(self).depth as nat,
                    old(self).avg as nat,
                ) == (self.total_hops as nat, nodes_end as nat) by {
                    assert(hop_totals(
                        g,
                        self.starts@,
                        si_end as nat,
                        self.total_hops as nat,
                        nodes_end as nat,
                        self.depth as nat,
                        self.avg as nat,
                    ) == (self.total_hops as nat, nodes_end as nat));
                }
            }
            self.stage = WalkStage::Done;
            self.visited = HashSet::new();
            assert(self.visited@.finite()) by {
                assert(self.visited@ =~= Set::<u64>::empty());
            }
            assert(forall|g: GraphModel| #[trigger] self.remaining(g) == (self.total_hops as nat, nodes_end as nat));
        } else {
            let s = self.starts[self.si];
            let mut current: Vec<IId> = Vec::new();
            current.push(s);
            let mut visited: HashSet<u64> = HashSet::new();
            visited.insert(s.0);
            self.current = current;
            self.visited = visited;
            self.next = Vec::new();
            self.edges = Vec::new();
            self.q = 0;
            self.e = 0;
            self.hop = 0;
            self.stage = WalkStage::Node;
            proof {
                assert(self.current@ =~= seq![s]);
                assert(self.visited@ =~= Set::<u64>::empty().insert(s.0));
                assert(self.visited@.len() == 1);
                assert forall|g: GraphModel| #[trigger] self.remaining(g) == hop_totals(
                    g,
                    old(self).starts@,
                    old(self).si as nat,
                    old(self).total_hops as nat,
                    old(self).total_nodes as nat,
                    old(self).depth as nat,
                    old(self).avg as nat,
                ) by {
                    lemma_fresh_level(g, self.current@, self.visited@, 0, self.depth as nat, self.avg as nat);
                    assert(self.next@ =~= Seq::<IId>::empty());
                    assert(self.edges@ =~= Seq::<IId>::empty());
                    let run = start_run(g, s, self.depth as nat, self.avg as nat);
                    assert(start_rest(
                        g,
                        self.current@,
                        0,
                        false,
                        self.edges@,
                        0,
                        self.visited@,
                        self.next@,
                        0,
                        self.depth as nat,
                        self.avg as nat,
                    ) == run);
                    assert(self.starts@[si_end as int] == s);
                    assert(hop_totals(
                        g,
                        self.starts@,
                        si_end as nat,
                        self.total_hops as nat,
                        nodes_end as nat,
                        self.depth as nat,
                        self.avg as nat,
                    ) == hop_totals(
                        g,
                        self.starts@,
                        (si_end + 1) as nat,
                        (self.total_hops + run.1) as nat,
                        (nodes_end + run.0.len()) as nat,
                        self.depth as nat,
                        self.avg as nat,
                    ));
                }
            }
        }
    }

    /// A walk from each of `starts` in turn, at most `depth` hops from each,
    /// following the first `avg_edges` arguments of each reached incidence.
    pub fn new(starts: Vec<IId>, depth: usize, avg_edges: usize) -> (w: HopWalk)
        requires
            starts@.len() <= usize::MAX,
        ensures
            w.wf(),
            w.pending() is None,
            w.hops() == 0,
            forall|g: GraphModel| #[trigger] w.remaining(g) == hop_totals(
                g,
                starts@,
                0,
                0,
                0,
                depth as nat,
                avg_edges as nat,
            ),
            w.nodes() + w.countable() <= starts@.len(),
    {
        let mut w = HopWalk {
            starts,
            si: 0,
            depth,
            avg: avg_edges,
            current: Vec::new(),
            q: 0,
            edges: Vec::new(),
            e: 0,
            visited: HashSet::new(),
            next: Vec::new(),
            hop: 0,
            total_hops: 0,
            total_nodes: 0,
            stage: WalkStage::Done,
            waiting: false,
        };
        w.begin();
        w
    }

    /// The hops made so far.
    pub fn total_hops(&self) -> (r: usize)
        ensures
            r == self.hops(),
    {
        self.total_hops
    }

    /// The identifiers counted as seen so far.
    pub fn total_nodes(&self) -> (r: usize)
        ensures
            r == self.nodes(),
    {
        self.total_nodes
    }

    /// How many identifiers the walk may count before its next lookup.
    pub fn pending_count(&self) -> (r: usize)
        requires
            self.wf(),
            self.nodes() + self.countable() <= usize::MAX,
        ensures
            r == self.countable(),
    {
        if self.stage == WalkStage::Done {
            0
        } else {
            self.visited.len() + (self.starts.len() - self.si - 1)
        }
    }

    /// Advances the walk to its next lookup and returns the identifier to
    /// look up, or nothing when all starts are done. Steps that need no
    /// lookup (an argument already seen, the end of a node, a level or a
    /// start) are taken on the way.
    pub fn request(&mut self) -> (r: Option<IId>)
        requires
            old(self).wf(),
            old(self).pending() is None,
            old(self).nodes() + old(self).countable() <= usize::MAX,
        ensures
            final(self).wf(),
            final(self).hops() == old(self).hops(),
            final(self).nodes() + final(self).countable() <= old(self).nodes() + old(self).countable(),
            forall|g: GraphModel| #[trigger] final(self).remaining(g) == old(self).remaining(g),
            match r {
                None => final(self).finished() && final(self).pending() is None,
                Some(id) => final(self).pending() == Some(id),
            },
    {
        loop
            invariant
                self.wf(),
                !self.waiting,
                self.total_hops == old(self).total_hops,
                self.total_nodes + self.countable() <= old(self).nodes() + old(self).countable(),
                old(self).nodes() + old(self).countable() <= usize::MAX,
                forall|g: GraphModel| #[trigger] self.remaining(g) == old(self).remaining(g),
            decreases
                self.starts@.len() - self.si,
                (if self.stage == WalkStage::Done { 0 } else { 1int }),
                self.depth - self.hop,
                self.current@.len() - self.q,
                (if self.stage == WalkStage::Edge { 1int } else { 0 }),
                self.edges@.len() - self.e,
        {
            if self.stage == WalkStage::Done {
                return None;
            }
            if self.stage == WalkStage::Node {
                if self.q < self.current.len() {
                    let ghost before = *self;
                    self.waiting = true;
                    assert(forall|g: GraphModel| #[trigger] self.remaining(g) == before.remaining(g));
                    return Some(self.current[self.q]);
                }
                if self.next.len() == 0 || self.hop + 1 >= self.depth {
                    let ghost before = *self;
                    proof {
                        assert forall|g: GraphModel| #[trigger] before.remaining(g) == hop_totals(
                            g,
                            before.starts@,
                            (before.si + 1) as nat,
                            before.total_hops as nat,
                            (before.total_nodes + before.visited@.len()) as nat,
                            before.depth as nat,
                            before.avg as nat,
                        ) by {
                            assert(visit_level(g, before.current@, before.q as nat, before.visited@, before.next@, before.avg as nat)
                                == (before.visited@, before.next@));
                        }
                    }
                    let n_starts = self.starts.len();
                    assert(self.visited.len() == self.visited@.len());
                    self.total_nodes = self.total_nodes + self.visited.len();
                    self.si = self.si + 1;
                    assert(self.si <= n_starts);
                    self.begin();
                    proof {
                        assert forall|g: GraphModel| #[trigger] self.remaining(g) == before.remaining(g) by {}
                    }
                } else {
                    let ghost before = *self;
                    let mut level: Vec<IId> = Vec::new();
                    std::mem::swap(&mut level, &mut self.next);
                    self.current = level;
                    self.q = 0;
                    self.hop = self.hop + 1;
                    proof {
                        assert(self.next@ =~= Seq::<IId>::empty());
                        assert forall|g: GraphModel| #[trigger] self.remaining(g) == before.remaining(g) by {
                            assert(visit_level(g, before.current@, before.q as nat, before.visited@, before.next@, before.avg as nat)
                                == (before.visited@, before.next@));
                            lemma_fresh_level(g, self.current@, self.visited@, self.hop as nat, self.depth as nat, self.avg as nat);
                            assert(start_rest(
                                g,
                                self.current@,
                                0,
                                false,
                                self.edges@,
                                self.e as nat,
                                self.visited@,
                                self.next@,
                                self.hop as nat,
                                self.depth as nat,
                                self.avg as nat,
                            ) == start_rest(
                                g,
                                self.current@,
                                0,
                                false,
                                Seq::empty(),
                                0,
                                self.visited@,
                                Seq::empty(),
                                self.hop as nat,
                                self.depth as nat,
                                self.avg as nat,
                            ));
                        }
                    }
                }
            } else {
                if self.e >= self.edges.len() {
                    let ghost before = *self;
                    let n = self.current.len();
                    assert(self.q < n);
                    self.stage = WalkStage::Node;
                    self.q = self.q + 1;
                    proof {
                        assert forall|g: GraphModel| #[trigger] self.remaining(g) == before.remaining(g) by {
                            assert(visit_edges(g, before.edges@, before.e as nat, before.visited@, before.next@)
                                == (before.visited@, before.next@));
                        }
                    }
                } else if self.visited.contains(&self.edges[self.e].0) {
                    let ghost before = *self;
                    self.e = self.e + 1;
                    proof {
                        assert forall|g: GraphModel| #[trigger] self.remaining(g) == before.remaining(g) by {
                            assert(visit_edges(g, before.edges@, before.e as nat, before.visited@, before.next@)
                                == visit_edges(g, before.edges@, self.e as nat, before.visited@, before.next@));
                        }
                    }
                } else {
                    let ghost before = *self;
                    self.waiting = true;
                    assert(forall|g: GraphModel| #[trigger] self.remaining(g) == before.remaining(g));
                    return Some(self.edges[self.e]);
                }
            }
        }
    }

    /// Answers the awaited lookup with what the store holds under the
    /// requested identifier: the arguments of the incidence there, or nothing.
    pub fn answer(&mut self, found: Option<Vec<IId>>)
        requires
            old(self).wf(),
            old(self).pending() is Some,
            old(self).hops() < usize::MAX,
        ensures
            final(self).wf(),
            final(self).pending() is None,
            final(self).hops() <= old(self).hops() + 1,
            final(self).nodes() == old(self).nodes(),
            final(self).countable() <= old(self).countable() + 1,
            forall|g: GraphModel|
                answers(g, old(self).pending()->0, found_args(found))
                ==> #[trigger] final(self).remaining(g) == old(self).remaining(g),
    {
        let ghost before = *self;
        let ghost found_m = found_args(found);
        assert(self.waiting);
        assert(self.stage == WalkStage::Node ==> self.q < self.current@.len());
        assert(self.stage == WalkStage::Edge ==> self.e < self.edges@.len());
        self.waiting = false;
        if self.stage == WalkStage::Node {
            match found {
                Some(args) => {
                    let n = if self.avg < args.len() { self.avg } else { args.len() };
                    let mut edges: Vec<IId> = Vec::new();
                    let mut k: usize = 0;
                    while k < n
                        invariant
                            n <= args@.len(),
                            k <= n,
                            edges@ == args@.subrange(0, k as int),
                        decreases n - k,
                    {
                        edges.push(args[k]);
                        k = k + 1;
                        assert(edges@ =~= args@.subrange(0, k as int));
                    }
                    proof {
                        if n == args@.len() {
                            assert(args@.subrange(0, n as int) =~= args@);
                        }
                    }
                    self.edges = edges;
                    self.e = 0;
                    self.stage = WalkStage::Edge;
                    proof {
                        assert forall|g: GraphModel|
                            answers(g, before.pending()->0, found_m) implies #[trigger] self.remaining(g) == before.remaining(g) by {
                            let m = g.lookup(before.current@[before.q as int])->0;
                            assert(self.edges@ == hop_edges(m, self.avg as nat));
                        }
                    }
                },
                None => {
                    let n = self.current.len();
                    assert(self.q < n);
                    self.q = self.q + 1;
                },
            }
        } else {
            let n = self.edges.len();
            let id = self.edges[self.e];
            match found {
                Some(_) => {
                    self.visited.insert(id.0);
                    self.next.push(id);
                    self.total_hops = self.total_hops + 1;
                },
                None => {},
            }
            self.e = self.e + 1;
            proof {
                assert forall|g: GraphModel|
                    answers(g, before.pending()->0, found_m) implies #[trigger] self.remaining(g) == before.remaining(g) by {
                    lemma_visit_edges_grows(g, self.edges@, self.e as nat, self.visited@, self.next@);
                    let ve = visit_edges(g, self.edges@, self.e as nat, self.visited@, self.next@);
                    lemma_visit_level_grows(g, self.current@, (self.q + 1) as nat, ve.0, ve.1, self.avg as nat);
                }
            }
        }
    }

    /// A finished walk's totals are what remains: answered as a graph holds
    /// throughout, a walk ends with the totals of [`hop_totals`] for it.
    pub proof fn lemma_finished_totals(&self, g: GraphModel)
        requires
            self.finished(),
        ensures
            self.remaining(g) == (self.hops(), self.nodes()),
    {
    }
}

} // verus!
