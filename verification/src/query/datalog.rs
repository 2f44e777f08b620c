//! Incidence Datalog: programs of facts and rules, evaluated to a fixed point.

use vstd::prelude::*;
use crate::model::incidence::IId;
use crate::model::value::{Value, ValueModel, value_eq};
use crate::model::world_graph::{GraphModel, WorldGraph};

verus! {

/// Datalog errors.
#[derive(Debug)]
pub enum DatalogError {
    /// The program text could not be parsed.
    Parse(String),
    /// The program could not be evaluated.
    Evaluation(String),
}

/// Equality of atoms: the same form and parts, values compared by
/// [`value_eq`].
pub open spec fn predicate_eq(a: PredicateModel, b: PredicateModel) -> bool {
    match a {
        PredicateModel::Attr(i, k, v) => match b {
            PredicateModel::Attr(i2, k2, v2) => i == i2 && k == k2 && value_eq(v, v2),
            _ => false,
        },
        _ => a == b,
    }
}

/// Whether `res` holds an atom equal to `p` in the sense of [`predicate_eq`].
pub open spec fn has_equal(res: Seq<PredicateModel>, p: PredicateModel) -> bool {
    exists|q: int| 0 <= q < res.len() && #[trigger] predicate_eq(res[q], p)
}

/// The mathematical meaning of a [`Predicate`].
pub enum PredicateModel {
    Inc(IId),
    Type(IId, IId),
    Role(IId, u32, IId),
    Attr(IId, Seq<char>, ValueModel),
}

/// A Datalog atom.
#[derive(Debug, PartialEq)]
pub enum Predicate {
    /// `Inc(i)`: incidence `i` exists.
    Inc(IId),
    /// `Type(i, t)`: incidence `i` has type `t`.
    Type(IId, IId),
    /// `Role(i, k, a)`: the `k`-th argument of incidence `i` is `a` (and it has a `k`-th role).
    Role(IId, u32, IId),
    /// `Attr(i, key, v)`: incidence `i` has value `v` (the key is not consulted).
    Attr(IId, String, Value),
}

impl Predicate {
    /// The abstract atom.
    pub open spec fn model(&self) -> PredicateModel {
        match self {
            Predicate::Inc(i) => PredicateModel::Inc(*i),
            Predicate::Type(i, t) => PredicateModel::Type(*i, *t),
            Predicate::Role(i, k, a) => PredicateModel::Role(*i, *k, *a),
            Predicate::Attr(i, key, v) => PredicateModel::Attr(*i, key@, v.model()),
        }
    }

    /// A copy with the same meaning.
    pub fn deep_copy(&self) -> (r: Predicate)
        ensures
            r.model() == self.model(),
    {
        match self {
            Predicate::Inc(i) => Predicate::Inc(*i),
            Predicate::Type(i, t) => Predicate::Type(*i, *t),
            Predicate::Role(i, k, a) => Predicate::Role(*i, *k, *a),
            Predicate::Attr(i, key, v) => {
                let c = key.clone();
                assert(c@ == key@);
                Predicate::Attr(*i, c, v.deep_copy())
            },
        }
    }

    /// Whether two atoms are equal, values compared as values (floats as
    /// IEEE-754 numbers).
    pub fn same_predicate(&self, other: &Predicate) -> (r: bool)
        ensures
            r == predicate_eq(self.model(), other.model()),
    {
        match (self, other) {
            (Predicate::Inc(a), Predicate::Inc(b)) => *a == *b,
            (Predicate::Type(a1, a2), Predicate::Type(b1, b2)) => *a1 == *b1 && *a2 == *b2,
            (Predicate::Role(a1, a2, a3), Predicate::Role(b1, b2, b3)) => *a1 == *b1 && *a2 == *b2 && *a3 == *b3,
            (Predicate::Attr(a1, a2, a3), Predicate::Attr(b1, b2, b3)) => {
                let keys = a2.eq(b2);
                *a1 == *b1 && keys && a3.same_value(b3)
            },
            _ => false,
        }
    }
}

impl Clone for Predicate {
    fn clone(&self) -> (r: Predicate)
        ensures
            r.model() == self.model(),
    {
        self.deep_copy()
    }
}

/// The mathematical meaning of a [`Rule`].
pub struct RuleModel {
    pub head: PredicateModel,
    pub body: Seq<PredicateModel>,
}

/// A Datalog rule: `head :- body`.
#[derive(Debug)]
pub struct Rule {
    /// The conclusion.
    pub head: Predicate,
    /// The conditions.
    pub body: Vec<Predicate>,
}

/// The abstract atoms of a sequence of atoms.
pub open spec fn predicates_model(ps: Seq<Predicate>) -> Seq<PredicateModel> {
    ps.map_values(|p: Predicate| p.model())
}

impl Rule {
    /// The abstract rule.
    pub open spec fn model(&self) -> RuleModel {
        RuleModel { head: self.head.model(), body: predicates_model(self.body@) }
    }
}

/// Whether atom `p` holds in graph `g`.
pub open spec fn holds(g: GraphModel, p: PredicateModel) -> bool {
    match p {
        PredicateModel::Inc(i) => g.lookup(i) is Some,
        PredicateModel::Type(i, t) => match g.lookup(i) {
            Some(m) => m.ty == Some(t),
            None => false,
        },
        PredicateModel::Role(i, k, a) => match g.lookup(i) {
            Some(m) => k < m.roles.len() && k < m.args.len() && m.args[k as int] == a,
            None => false,
        },
        PredicateModel::Attr(i, _key, v) => match g.lookup(i) {
            Some(m) => match m.val {
                Some(x) => value_eq(x, v),
                None => false,
            },
            None => false,
        },
    }
}

/// Whether every atom of `body` holds in `g`.
pub open spec fn body_holds(g: GraphModel, body: Seq<PredicateModel>) -> bool {
    forall|k: int| 0 <= k < body.len() ==> holds(g, #[trigger] body[k])
}

/// One pass over the first `n` rules in order: the head of each rule whose
/// body holds is appended unless an equal atom is already present.
pub open spec fn pass_upto(g: GraphModel, rules: Seq<RuleModel>, res: Seq<PredicateModel>, n: nat) -> Seq<PredicateModel>
    decreases n,
{
    if n == 0 {
        res
    } else {
        let r0 = pass_upto(g, rules, res, (n - 1) as nat);
        let rule = rules[n - 1];
        if body_holds(g, rule.body) && !has_equal(r0, rule.head) { r0.push(rule.head) } else { r0 }
    }
}

/// One pass over all rules.
pub open spec fn pass(g: GraphModel, rules: Seq<RuleModel>, res: Seq<PredicateModel>) -> Seq<PredicateModel> {
    pass_upto(g, rules, res, rules.len())
}

/// Passes from `res`, at most `fuel` of them, stopping after the first pass
/// that adds nothing.
pub open spec fn passes(g: GraphModel, rules: Seq<RuleModel>, res: Seq<PredicateModel>, fuel: nat) -> Seq<PredicateModel>
    decreases fuel,
{
    let next = pass(g, rules, res);
    if fuel <= 1 || next.len() == res.len() {
        next
    } else {
        passes(g, rules, next, (fuel - 1) as nat)
    }
}

/// The most passes an evaluation makes.
pub open spec fn max_passes() -> nat {
    1000
}

/// What evaluating `rules` from `facts` against `g` gives.
pub open spec fn evaluation(g: GraphModel, rules: Seq<RuleModel>, facts: Seq<PredicateModel>) -> Seq<PredicateModel> {
    passes(g, rules, facts, max_passes())
}

/// The abstract rules of a sequence of rules.
pub open spec fn rules_model(rs: Seq<Rule>) -> Seq<RuleModel> {
    rs.map_values(|r: Rule| r.model())
}

/// A Datalog program.
pub struct DatalogProgram {
    /// The rules.
    pub rules: Vec<Rule>,
    /// The facts.
    pub facts: Vec<Predicate>,
}

/// Whether `results` holds an atom equal to `p`.
fn results_contain(results: &Vec<Predicate>, p: &Predicate) -> (r: bool)
    ensures
        r == has_equal(predicates_model(results@), p.model()),
{
    let mut k: usize = 0;
    while k < results.len()
        invariant
            k <= results@.len(),
            forall|q: int| 0 <= q < k ==> !predicate_eq(#[trigger] predicates_model(results@)[q], p.model()),
        decreases results@.len() - k,
    {
        if results[k].same_predicate(p) {
            assert(predicate_eq(predicates_model(results@)[k as int], p.model()));
            return true;
        }
        k = k + 1;
    }
    false
}

/// A copy of a sequence of atoms.
fn copy_predicates(ps: &Vec<Predicate>) -> (r: Vec<Predicate>)
    ensures
        predicates_model(r@) == predicates_model(ps@),
{
    let mut out: Vec<Predicate> = Vec::new();
    let mut k: usize = 0;
    while k < ps.len()
        invariant
            k <= ps@.len(),
            predicates_model(out@) == predicates_model(ps@.subrange(0, k as int)),
        decreases ps@.len() - k,
    {
        let ghost prev = out@;
        let c = ps[k].deep_copy();
        let ghost cm = c.model();
        out.push(c);
        k = k + 1;
        assert(out@ == prev.push(c));
        assert(predicates_model(out@) =~= predicates_model(prev).push(cm));
        assert(predicates_model(ps@.subrange(0, k as int)) =~= predicates_model(ps@.subrange(0, k - 1)).push(cm));
    }
    assert(ps@.subrange(0, ps@.len() as int) =~= ps@);
    out
}

impl DatalogProgram {
    /// An empty program.
    pub fn new() -> (r: DatalogProgram)
        ensures
            r.rules@ == Seq::<Rule>::empty(),
            r.facts@ == Seq::<Predicate>::empty(),
    {
        DatalogProgram { rules: Vec::new(), facts: Vec::new() }
    }

    /// Adds a rule.
    pub fn add_rule(&mut self, rule: Rule)
        ensures
            final(self).rules@ == old(self).rules@.push(rule),
            final(self).facts@ == old(self).facts@,
    {
        self.rules.push(rule);
    }

    /// Adds a fact.
    pub fn add_fact(&mut self, fact: Predicate)
        ensures
            final(self).facts@ == old(self).facts@.push(fact),
            final(self).rules@ == old(self).rules@,
    {
        self.facts.push(fact);
    }

    /// Evaluates the program against `graph` by fixed-point iteration: the
    /// facts, then passes over the rules in order, each appending the head of
    /// every rule whose body holds in the graph unless an equal atom is
    /// already present, until a pass adds nothing (at most 1000 passes).
    pub fn evaluate(&self, graph: &WorldGraph) -> (r: Result<Vec<Predicate>, DatalogError>)
        requires
            graph.wf(),
        ensures
            match r {
                Ok(v) => predicates_model(v@) == evaluation(graph@, rules_model(self.rules@), predicates_model(self.facts@)),
                Err(_) => false,
            },
    {
        let ghost g = graph@;
        let ghost rules = rules_model(self.rules@);
        let ghost facts = predicates_model(self.facts@);
        let ghost target = evaluation(g, rules, facts);
        let mut results = copy_predicates(&self.facts);
        let mut changed = true;
        let mut iteration: usize = 0;
        while iteration < 1000
            invariant
                graph.wf(),
                g == graph@,
                rules == rules_model(self.rules@),
                facts == predicates_model(self.facts@),
                target == evaluation(g, rules, facts),
                iteration <= 1000,
                changed && iteration < 1000 ==> passes(g, rules, predicates_model(results@), (1000 - iteration) as nat)
                    == target,
                !(changed && iteration < 1000) ==> predicates_model(results@) == target,
            ensures
                predicates_model(results@) == target,
            decreases 1000 - iteration,
        {
            if !changed {
                break;
            }
            let ghost before = predicates_model(results@);
            changed = false;
            let mut k: usize = 0;
            while k < self.rules.len()
                invariant
                    graph.wf(),
                    g == graph@,
                    rules == rules_model(self.rules@),
                    k <= self.rules@.len(),
                    predicates_model(results@) == pass_upto(g, rules, before, k as nat),
                    changed == (predicates_model(results@).len() != before.len()),
                decreases self.rules@.len() - k,
            {
                let rule = &self.rules[k];
                let fires = self.check_body(&rule.body, graph);
                if fires {
                    if !results_contain(&results, &rule.head) {
                        let ghost prev = predicates_model(results@);
                        results.push(rule.head.deep_copy());
                        assert(predicates_model(results@) =~= prev.push(rule.head.model()));
                        proof {
                            lemma_pass_upto_grows(g, rules, before, k as nat);
                        }
                        changed = true;
                    }
                }
                k = k + 1;
            }
            proof {
                lemma_pass_upto_grows(g, rules, before, rules.len());
                let fuel = (1000 - iteration) as nat;
                assert(predicates_model(results@) == pass(g, rules, before));
                assert(passes(g, rules, before, fuel) == if fuel <= 1 || pass(g, rules, before).len() == before.len() {
                    pass(g, rules, before)
                } else {
                    passes(g, rules, pass(g, rules, before), (fuel - 1) as nat)
                });
            }
            iteration = iteration + 1;
        }
        Ok(results)
    }

    /// Whether every atom of `body` holds in `graph`.
    fn check_body(&self, body: &Vec<Predicate>, graph: &WorldGraph) -> (r: bool)
        requires
            graph.wf(),
        ensures
            r == body_holds(graph@, predicates_model(body@)),
    {
        let mut k: usize = 0;
        while k < body.len()
            invariant
                graph.wf(),
                k <= body@.len(),
                forall|q: int| 0 <= q < k ==> holds(graph@, #[trigger] predicates_model(body@)[q]),
            decreases body@.len() - k,
        {
            if !self.check_predicate(&body[k], graph) {
                assert(!holds(graph@, predicates_model(body@)[k as int]));
                return false;
            }
            k = k + 1;
        }
        true
    }

    /// Whether `pred` holds in `graph`.
    fn check_predicate(&self, pred: &Predicate, graph: &WorldGraph) -> (r: bool)
        requires
            graph.wf(),
        ensures
            r == holds(graph@, pred.model()),
    {
        match pred {
            Predicate::Inc(id) => graph.get(*id).is_some(),
            Predicate::Type(inc_id, type_id) => match graph.get(*inc_id) {
                Some(inc) => match inc.ty {
                    Some(ty) => ty == *type_id,
                    None => false,
                },
                None => false,
            },
            Predicate::Role(inc_id, role_idx, arg_id) => match graph.get(*inc_id) {
                Some(inc) => {
                    let idx = *role_idx as usize;
                    if idx < inc.roles.len() && idx < inc.args.len() {
                        inc.args[idx] == *arg_id
                    } else {
                        false
                    }
                },
                None => false,
            },
            Predicate::Attr(inc_id, _key, expected_value) => match graph.get(*inc_id) {
                Some(inc) => match &inc.val {
                    Some(val) => val.same_value(expected_value),
                    None => false,
                },
                None => false,
            },
        }
    }
}

impl Default for DatalogProgram {
    fn default() -> (r: DatalogProgram)
        ensures
            r.rules@ == Seq::<Rule>::empty(),
            r.facts@ == Seq::<Predicate>::empty(),
    {
        DatalogProgram::new()
    }
}

/// A pass only appends: the earlier results stay a prefix, and appending
/// happens only through new heads.
pub proof fn lemma_pass_upto_grows(g: GraphModel, rules: Seq<RuleModel>, res: Seq<PredicateModel>, n: nat)
    ensures
        res.len() <= pass_upto(g, rules, res, n).len(),
        pass_upto(g, rules, res, n).subrange(0, res.len() as int) == res,
    decreases n,
{
    if n > 0 {
        lemma_pass_upto_grows(g, rules, res, (n - 1) as nat);
        let r0 = pass_upto(g, rules, res, (n - 1) as nat);
        let rule = rules[n - 1];
        if body_holds(g, rule.body) && !has_equal(r0, rule.head) {
            assert(r0.push(rule.head).subrange(0, res.len() as int) =~= r0.subrange(0, res.len() as int));
        }
    } else {
        assert(res.subrange(0, res.len() as int) =~= res);
    }
}

/// Whether `p` is in `res`, or an atom equal to it is.
pub open spec fn present(res: Seq<PredicateModel>, p: PredicateModel) -> bool {
    res.contains(p) || has_equal(res, p)
}

/// A pass keeps what it already has.
proof fn lemma_pass_upto_keeps(g: GraphModel, rules: Seq<RuleModel>, res: Seq<PredicateModel>, m: nat, n: nat, p: PredicateModel)
    requires
        m <= n,
        present(pass_upto(g, rules, res, m), p),
    ensures
        present(pass_upto(g, rules, res, n), p),
    decreases n,
{
    if m < n {
        lemma_pass_upto_keeps(g, rules, res, m, (n - 1) as nat, p);
        let r0 = pass_upto(g, rules, res, (n - 1) as nat);
        let rule = rules[n - 1];
        if body_holds(g, rule.body) && !has_equal(r0, rule.head) {
            if r0.contains(p) {
                let q = choose|q: int| 0 <= q < r0.len() && r0[q] == p;
                assert(r0.push(rule.head)[q] == p);
            } else {
                let q = choose|q: int| 0 <= q < r0.len() && #[trigger] predicate_eq(r0[q], p);
                assert(r0.push(rule.head)[q] == r0[q]);
            }
        }
    }
}

/// After a pass over the first `n` rules, the head of every one of them
/// whose body holds is present.
proof fn lemma_pass_upto_fires(g: GraphModel, rules: Seq<RuleModel>, res: Seq<PredicateModel>, n: nat, j: int)
    requires
        0 <= j < n,
        n <= rules.len(),
        body_holds(g, rules[j].body),
    ensures
        present(pass_upto(g, rules, res, n), rules[j].head),
{
    let rj = pass_upto(g, rules, res, j as nat);
    let after = pass_upto(g, rules, res, (j + 1) as nat);
    if has_equal(rj, rules[j].head) {
        assert(after == rj);
    } else {
        assert(after == rj.push(rules[j].head));
        assert(after[rj.len() as int] == rules[j].head);
    }
    lemma_pass_upto_keeps(g, rules, res, (j + 1) as nat, n, rules[j].head);
}

/// A pass leaves alone results that already hold an atom equal to the head
/// of every rule whose body holds.
proof fn lemma_pass_upto_fixed(g: GraphModel, rules: Seq<RuleModel>, res: Seq<PredicateModel>, n: nat)
    requires
        n <= rules.len(),
        forall|j: int| 0 <= j < rules.len() && body_holds(g, #[trigger] rules[j].body) ==> has_equal(res, rules[j].head),
    ensures
        pass_upto(g, rules, res, n) == res,
    decreases n,
{
    if n > 0 {
        lemma_pass_upto_fixed(g, rules, res, (n - 1) as nat);
        assert(body_holds(g, rules[n - 1].body) ==> has_equal(res, rules[n - 1].head));
    }
}

/// Whether every rule's head equals itself (holds no NaN value).
pub open spec fn heads_self_equal(rules: Seq<RuleModel>) -> bool {
    forall|j: int| 0 <= j < rules.len() ==> predicate_eq(#[trigger] rules[j].head, rules[j].head)
}

/// Evaluation gives the result of some pass.
proof fn lemma_passes_is_pass(g: GraphModel, rules: Seq<RuleModel>, res: Seq<PredicateModel>, fuel: nat)
    ensures
        exists|x: Seq<PredicateModel>| #[trigger] pass(g, rules, x) == passes(g, rules, res, fuel),
    decreases fuel,
{
    let next = pass(g, rules, res);
    if fuel <= 1 || next.len() == res.len() {
        assert(pass(g, rules, res) == passes(g, rules, res, fuel));
    } else {
        lemma_passes_is_pass(g, rules, next, (fuel - 1) as nat);
    }
}

/// Datalog closure: after evaluation, the head of every rule whose body
/// holds in the graph is among the results, itself or as an equal atom.
pub proof fn lemma_pass_closed(g: GraphModel, rules: Seq<RuleModel>, facts: Seq<PredicateModel>)
    ensures
        forall|j: int| 0 <= j < rules.len() && body_holds(g, #[trigger] rules[j].body)
            ==> present(evaluation(g, rules, facts), rules[j].head),
{
    lemma_passes_is_pass(g, rules, facts, max_passes());
    let x = choose|x: Seq<PredicateModel>| #[trigger] pass(g, rules, x) == evaluation(g, rules, facts);
    assert forall|j: int| 0 <= j < rules.len() && body_holds(g, #[trigger] rules[j].body)
        implies present(evaluation(g, rules, facts), rules[j].head) by {
        lemma_pass_upto_fires(g, rules, x, rules.len(), j);
    }
}

/// When every rule's head equals itself, the result of evaluation is a
/// fixed point: another pass changes nothing. (A head holding a NaN value
/// equals no atom, so each pass in which its rule fires appends it again.)
pub proof fn lemma_pass_idempotent(g: GraphModel, rules: Seq<RuleModel>, facts: Seq<PredicateModel>)
    requires
        heads_self_equal(rules),
    ensures
        pass(g, rules, evaluation(g, rules, facts)) == evaluation(g, rules, facts),
{
    let e = evaluation(g, rules, facts);
    lemma_pass_closed(g, rules, facts);
    assert forall|j: int| 0 <= j < rules.len() && body_holds(g, #[trigger] rules[j].body) implies has_equal(
        e,
        rules[j].head,
    ) by {
        if e.contains(rules[j].head) {
            let q = choose|q: int| 0 <= q < e.len() && e[q] == rules[j].head;
            assert(predicate_eq(rules[j].head, rules[j].head));
            assert(predicate_eq(e[q], rules[j].head));
        }
    }
    lemma_pass_upto_fixed(g, rules, e, rules.len());
}

/// Passes keep their input, in order, at the front.
proof fn lemma_passes_keep(g: GraphModel, rules: Seq<RuleModel>, res: Seq<PredicateModel>, fuel: nat)
    ensures
        res.len() <= passes(g, rules, res, fuel).len(),
        passes(g, rules, res, fuel).subrange(0, res.len() as int) == res,
    decreases fuel,
{
    let next = pass(g, rules, res);
    lemma_pass_upto_grows(g, rules, res, rules.len());
    if !(fuel <= 1 || next.len() == res.len()) {
        lemma_passes_keep(g, rules, next, (fuel - 1) as nat);
        let out = passes(g, rules, next, (fuel - 1) as nat);
        assert(out.subrange(0, res.len() as int) =~= out.subrange(0, next.len() as int).subrange(0, res.len() as int));
    }
}

/// Evaluation keeps the facts, in order, at the front of the results.
pub proof fn lemma_pass_keeps_facts(g: GraphModel, rules: Seq<RuleModel>, facts: Seq<PredicateModel>)
    ensures
        facts.len() <= evaluation(g, rules, facts).len(),
        evaluation(g, rules, facts).subrange(0, facts.len() as int) == facts,
{
    lemma_passes_keep(g, rules, facts, max_passes());
}

/// A `Type(i, t)` atom holds exactly when incidence `i` exists and its type
/// is `t`.
pub proof fn lemma_type_atom(g: GraphModel, i: IId, t: IId)
    ensures
        holds(g, PredicateModel::Type(i, t)) == (g.lookup(i) matches Some(m) && m.ty == Some(t)),
{
}

/// A rule body with an atom that does not hold does not hold.
pub proof fn lemma_body_needs_every_atom(g: GraphModel, body: Seq<PredicateModel>, k: int)
    requires
        0 <= k < body.len(),
        !holds(g, body[k]),
    ensures
        !body_holds(g, body),
{
}

/// A program without facts and with the single rule `head :- Type(i, t)`
/// (its head holding no NaN value) derives `head` exactly when incidence
/// `i` exists with type `t`, and nothing otherwise.
pub proof fn lemma_single_type_rule(g: GraphModel, head: PredicateModel, i: IId, t: IId)
    requires
        predicate_eq(head, head),
    ensures
        evaluation(g, seq![RuleModel { head, body: seq![PredicateModel::Type(i, t)] }], Seq::empty()) == if g.lookup(
            i,
        ) matches Some(m) && m.ty == Some(t) {
            seq![head]
        } else {
            Seq::<PredicateModel>::empty()
        },
{
    let rules = seq![RuleModel { head, body: seq![PredicateModel::Type(i, t)] }];
    let empty = Seq::<PredicateModel>::empty();
    let fires = g.lookup(i) matches Some(m) && m.ty == Some(t);
    assert(body_holds(g, rules[0].body) == fires) by {
        if !fires {
            assert(!holds(g, rules[0].body[0]));
        }
    }
    assert(!has_equal(empty, head));
    assert(pass_upto(g, rules, empty, 0) == empty);
    let p1 = pass(g, rules, empty);
    if fires {
        assert(p1 == seq![head]);
        assert(predicate_eq(p1[0], head));
        assert(has_equal(p1, head));
        assert(pass_upto(g, rules, p1, 0) == p1);
        assert(pass(g, rules, p1) == p1);
        assert(passes(g, rules, p1, (max_passes() - 1) as nat) == p1);
    } else {
        assert(p1 == empty);
    }
}

} // verus!
