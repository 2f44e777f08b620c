//! Pattern matching queries: MATCH / WHERE / RETURN.

use vstd::prelude::*;
use crate::model::incidence::IId;
use crate::model::value::{Value, ValueModel};
use crate::model::world_graph::{GraphModel, WorldGraph};

verus! {

/// The text that `{:?}` produces for the string `s`: `s` in double quotes,
/// with quotes, backslashes and other characters escaped as
/// `str::escape_debug` does.
pub uninterp spec fn str_debug_text(s: Seq<char>) -> Seq<char>;

/// The text that `{:?}` produces for a pattern variable named `name`, as
/// the derived `Debug` of the tuple struct writes it.
pub open spec fn pattern_var_debug_text(name: Seq<char>) -> Seq<char> {
    "PatternVar("@ + str_debug_text(name) + ")"@
}

/// Pattern-matching errors.
#[derive(Debug)]
pub enum PatternError {
    /// The pattern is malformed.
    Pattern(String),
    /// The pattern could not be evaluated.
    Evaluation(String),
}

/// The mathematical meaning of a [`PatternError`].
pub enum PatternErrorModel {
    Pattern(Seq<char>),
    Evaluation(Seq<char>),
}

impl PatternError {
    /// The abstract error.
    pub open spec fn model(&self) -> PatternErrorModel {
        match self {
            PatternError::Pattern(s) => PatternErrorModel::Pattern(s@),
            PatternError::Evaluation(s) => PatternErrorModel::Evaluation(s@),
        }
    }
}

/// A pattern variable.
#[derive(Debug, PartialEq, Eq, Hash)]
pub struct PatternVar(pub String);

/// `<str as Debug>::fmt` through `format!("{:?}", s)`: `s` quoted and escaped.
#[verifier::external_body]
fn str_debug(s: &str) -> (r: String)
    ensures
        r@ == str_debug_text(s@),
{
    format!("{:?}", s)
}

/// `{:?}` of a pattern variable, as the derived `Debug` writes it.
fn pattern_var_debug(var: &PatternVar) -> (r: String)
    ensures
        r@ == pattern_var_debug_text(var.0@),
{
    let mut out = String::from_str("PatternVar(");
    let shown = str_debug(var.0.as_str());
    out.append(shown.as_str());
    out.append(")");
    proof {
        reveal_strlit("PatternVar(");
        reveal_strlit(")");
    }
    out
}

/// A pattern.
#[derive(Debug)]
pub enum Pattern {
    /// An incidence pattern.
    Incidence {
        var: PatternVar,
        ty: Option<String>,
        args: Vec<PatternArg>,
    },
    /// A condition.
    Condition {
        left: PatternExpr,
        op: PatternOp,
        right: PatternExpr,
    },
}

/// A pattern argument.
#[derive(Debug)]
pub struct PatternArg {
    /// A variable or a value.
    pub value: PatternExpr,
    /// The role.
    pub role: Option<String>,
}

/// A pattern expression.
#[derive(Debug)]
pub enum PatternExpr {
    /// A variable.
    Var(PatternVar),
    /// A value.
    Value(Value),
    /// An attribute access.
    Attr(PatternVar, String),
}

/// A comparison operator.
#[derive(Clone, Copy, Debug, PartialEq, Eq, Structural)]
pub enum PatternOp {
    Eq,
    Ne,
    Gt,
    Lt,
    Ge,
    Le,
}

/// The mathematical meaning of a [`PatternExpr`].
pub enum ExprModel {
    Var(Seq<char>),
    Value(ValueModel),
    Attr(Seq<char>, Seq<char>),
}

impl PatternExpr {
    /// The abstract expression.
    pub open spec fn model(&self) -> ExprModel {
        match self {
            PatternExpr::Var(v) => ExprModel::Var(v.0@),
            PatternExpr::Value(x) => ExprModel::Value(x.model()),
            PatternExpr::Attr(v, k) => ExprModel::Attr(v.0@, k@),
        }
    }
}

/// The mathematical meaning of a [`Pattern`], as far as evaluation reads it.
pub enum PatternModel {
    Incidence(Seq<char>),
    Condition(ExprModel, PatternOp, ExprModel),
}

impl Pattern {
    /// The abstract pattern.
    pub open spec fn model(&self) -> PatternModel {
        match self {
            Pattern::Incidence { var, .. } => PatternModel::Incidence(var.0@),
            Pattern::Condition { left, op, right } => PatternModel::Condition(left.model(), *op, right.model()),
        }
    }
}

/// The abstract patterns of a sequence of patterns.
pub open spec fn patterns_model(ps: Seq<Pattern>) -> Seq<PatternModel> {
    ps.map_values(|p: Pattern| p.model())
}

/// Variable bindings as (name, identifier) pairs, names without repetition.
pub type BindingsModel = Seq<(Seq<char>, IId)>;

/// Binds `name` to `id`: replaces an existing binding of `name`, or appends one.
pub open spec fn bind(bs: BindingsModel, name: Seq<char>, id: IId) -> BindingsModel {
    if exists|q: int| 0 <= q < bs.len() && bs[q].0 == name {
        let q = choose|q: int| 0 <= q < bs.len() && bs[q].0 == name;
        bs.update(q, (name, id))
    } else {
        bs.push((name, id))
    }
}

/// The identifier bound to `name`, if any.
pub open spec fn bound(bs: BindingsModel, name: Seq<char>) -> Option<IId> {
    if exists|q: int| 0 <= q < bs.len() && bs[q].0 == name {
        Some(bs[choose|q: int| 0 <= q < bs.len() && bs[q].0 == name].1)
    } else {
        None
    }
}

/// No name is bound twice.
pub open spec fn names_unique(bs: BindingsModel) -> bool {
    forall|a: int, b: int| 0 <= a < b < bs.len() ==> bs[a].0 != bs[b].0
}

/// The bindings after the MATCH clause `ps[..n]`: each incidence pattern
/// binds its variable to the first incidence of the graph, if there is one.
pub open spec fn match_all(g: GraphModel, ps: Seq<PatternModel>, n: nat) -> BindingsModel
    decreases n,
{
    if n == 0 {
        Seq::empty()
    } else {
        let bs = match_all(g, ps, (n - 1) as nat);
        match ps[n - 1] {
            PatternModel::Incidence(name) => if g.incs.len() > 0 { bind(bs, name, g.incs[0].id) } else { bs },
            PatternModel::Condition(..) => bs,
        }
    }
}

/// The value an expression evaluates to.
pub open spec fn eval_expr_spec(g: GraphModel, e: ExprModel, bs: BindingsModel) -> Result<ValueModel, PatternErrorModel> {
    match e {
        ExprModel::Var(name) => match bound(bs, name) {
            Some(id) => match g.lookup(id) {
                Some(inc) => match inc.val {
                    Some(v) => Ok(v),
                    None => Err(PatternErrorModel::Evaluation("No value"@)),
                },
                None => Err(PatternErrorModel::Evaluation("No value"@)),
            },
            None => Err(PatternErrorModel::Evaluation("Variable not found: "@ + pattern_var_debug_text(name))),
        },
        ExprModel::Value(v) => Ok(v),
        ExprModel::Attr(..) => Err(PatternErrorModel::Evaluation("Attr not implemented"@)),
    }
}

/// How two values compare: only two integers compare, and only by `Eq`, `Gt` and `Lt`.
pub open spec fn compare_spec(left: ValueModel, op: PatternOp, right: ValueModel) -> bool {
    match (left, right) {
        (ValueModel::Int(l), ValueModel::Int(r)) => match op {
            PatternOp::Eq => l == r,
            PatternOp::Gt => l > r,
            PatternOp::Lt => l < r,
            _ => false,
        },
        _ => false,
    }
}

/// Whether a WHERE pattern holds.
pub open spec fn condition_spec(g: GraphModel, p: PatternModel, bs: BindingsModel) -> Result<bool, PatternErrorModel> {
    match p {
        PatternModel::Condition(l, op, r) => match eval_expr_spec(g, l, bs) {
            Ok(lv) => match eval_expr_spec(g, r, bs) {
                Ok(rv) => Ok(compare_spec(lv, op, rv)),
                Err(e) => Err(e),
            },
            Err(e) => Err(e),
        },
        PatternModel::Incidence(_) => Err(PatternErrorModel::Pattern("Invalid condition"@)),
    }
}

/// The WHERE clause `ws[k..]`: `Ok(true)` when every condition holds,
/// `Ok(false)` at the first that does not, the first error otherwise.
pub open spec fn where_spec(g: GraphModel, ws: Seq<PatternModel>, bs: BindingsModel, k: nat) -> Result<bool, PatternErrorModel>
    decreases ws.len() - k,
{
    if k >= ws.len() {
        Ok(true)
    } else {
        match condition_spec(g, ws[k as int], bs) {
            Ok(true) => where_spec(g, ws, bs, k + 1),
            Ok(false) => Ok(false),
            Err(e) => Err(e),
        }
    }
}

/// The outcome of a query: no result when a condition fails, else one
/// result holding the bindings.
pub open spec fn execute_spec(
    g: GraphModel,
    ms: Seq<PatternModel>,
    ws: Seq<PatternModel>,
) -> Result<Seq<BindingsModel>, PatternErrorModel> {
    let bs = match_all(g, ms, ms.len());
    match where_spec(g, ws, bs, 0) {
        Ok(true) => Ok(seq![bs]),
        Ok(false) => Ok(Seq::empty()),
        Err(e) => Err(e),
    }
}

/// Integer comparison in WHERE conditions is the usual order on integers:
/// `a Gt b` exactly when `a > b`, `a Lt b` exactly when `a < b`, `a Eq b`
/// exactly when `a == b`; in particular no integer is greater or less than
/// itself.
pub proof fn lemma_int_comparison(a: i64, b: i64)
    ensures
        compare_spec(ValueModel::Int(a), PatternOp::Gt, ValueModel::Int(b)) == (a > b),
        compare_spec(ValueModel::Int(a), PatternOp::Lt, ValueModel::Int(b)) == (a < b),
        compare_spec(ValueModel::Int(a), PatternOp::Eq, ValueModel::Int(b)) == (a == b),
        !compare_spec(ValueModel::Int(a), PatternOp::Gt, ValueModel::Int(a)),
        !compare_spec(ValueModel::Int(a), PatternOp::Lt, ValueModel::Int(a)),
        compare_spec(ValueModel::Int(a), PatternOp::Gt, ValueModel::Int(b)) == compare_spec(
            ValueModel::Int(b),
            PatternOp::Lt,
            ValueModel::Int(a),
        ),
{
}

/// `MATCH x WHERE x > c` on a graph whose first incidence holds the integer
/// `n`: one result binding `x` to that incidence when `n > c`, none
/// otherwise.
pub proof fn lemma_match_where_greater(g: GraphModel, x: Seq<char>, c: i64, n: i64)
    requires
        g.incs.len() > 0,
        g.lookup(g.incs[0].id) matches Some(m) && m.val == Some(ValueModel::Int(n)),
    ensures
        execute_spec(
            g,
            seq![PatternModel::Incidence(x)],
            seq![PatternModel::Condition(ExprModel::Var(x), PatternOp::Gt, ExprModel::Value(ValueModel::Int(c)))],
        ) == if n > c {
            Ok::<Seq<BindingsModel>, PatternErrorModel>(seq![seq![(x, g.incs[0].id)]])
        } else {
            Ok::<Seq<BindingsModel>, PatternErrorModel>(Seq::empty())
        },
{
    let ms = seq![PatternModel::Incidence(x)];
    let ws = seq![PatternModel::Condition(ExprModel::Var(x), PatternOp::Gt, ExprModel::Value(ValueModel::Int(c)))];
    let id = g.incs[0].id;
    let bs = match_all(g, ms, 1);
    assert(match_all(g, ms, 0) =~= Seq::<(Seq<char>, IId)>::empty());
    assert(bs =~= seq![(x, id)]);
    assert(bs[0].0 == x);
    assert(bound(bs, x) == Some(id));
    assert(eval_expr_spec(g, ExprModel::Var(x), bs) == Ok::<ValueModel, PatternErrorModel>(ValueModel::Int(n)));
    assert(condition_spec(g, ws[0], bs) == Ok::<bool, PatternErrorModel>(n > c));
    assert(where_spec(g, ws, bs, 1) == Ok::<bool, PatternErrorModel>(true));
}

/// The result of a pattern query.
#[derive(Debug)]
pub struct PatternResult {
    /// Variable bindings, each name once.
    pub bindings: Vec<(PatternVar, IId)>,
}

/// The abstract bindings of a binding list.
pub open spec fn bindings_model(bs: Seq<(PatternVar, IId)>) -> BindingsModel {
    bs.map_values(|b: (PatternVar, IId)| (b.0.0@, b.1))
}

impl PatternResult {
    /// The abstract bindings.
    pub open spec fn model(&self) -> BindingsModel {
        bindings_model(self.bindings@)
    }
}

/// A pattern query.
pub struct PatternQuery {
    /// The MATCH clause.
    pub matches: Vec<Pattern>,
    /// The WHERE clause.
    pub where_clause: Vec<Pattern>,
    /// The RETURN clause.
    pub returns: Vec<PatternVar>,
}

fn copy_string(s: &String) -> (r: String)
    ensures
        r@ == s@,
{
    let c = s.clone();
    assert(c@ == s@);
    c
}

/// Binds `name` to `id` in `bindings`.
fn bind_exec(bindings: &mut Vec<(PatternVar, IId)>, name: &String, id: IId)
    requires
        names_unique(bindings_model(old(bindings)@)),
    ensures
        bindings_model(final(bindings)@) == bind(bindings_model(old(bindings)@), name@, id),
        names_unique(bindings_model(final(bindings)@)),
{
    let ghost bm = bindings_model(bindings@);
    let mut k: usize = 0;
    while k < bindings.len()
        invariant
            bindings_model(bindings@) == bm,
            bm == bindings_model(old(bindings)@),
            names_unique(bm),
            k <= bindings@.len(),
            forall|q: int| 0 <= q < k ==> bm[q].0 != name@,
        decreases bindings@.len() - k,
    {
        let same = bindings[k].0.0.eq(name);
        if same {
            assert(bm[k as int].0 == name@);
            let ghost q = choose|q: int| 0 <= q < bm.len() && bm[q].0 == name@;
            assert(q == k as int);
            bindings.set(k, (PatternVar(copy_string(name)), id));
            assert(bindings_model(bindings@) =~= bm.update(k as int, (name@, id)));
            assert(bind(bm, name@, id) == bm.update(k as int, (name@, id)));
            assert(names_unique(bindings_model(bindings@))) by {
                assert forall|a: int, b: int| 0 <= a < b < bindings_model(bindings@).len()
                    implies bindings_model(bindings@)[a].0 != bindings_model(bindings@)[b].0 by {
                    if a != k && b != k {
                        assert(bindings_model(bindings@)[a] == bm[a]);
                        assert(bindings_model(bindings@)[b] == bm[b]);
                    } else if a == k {
                        assert(bm[b].0 != bm[a].0);
                    } else {
                        assert(bm[a].0 != bm[b].0);
                    }
                }
            }
            return;
        }
        k = k + 1;
    }
    bindings.push((PatternVar(copy_string(name)), id));
    assert(bindings_model(bindings@) =~= bm.push((name@, id)));
}

/// The identifier bound to `name`.
fn lookup_binding(bindings: &Vec<(PatternVar, IId)>, name: &String) -> (r: Option<IId>)
    requires
        names_unique(bindings_model(bindings@)),
    ensures
        r == bound(bindings_model(bindings@), name@),
{
    let ghost bm = bindings_model(bindings@);
    let mut k: usize = 0;
    while k < bindings.len()
        invariant
            bindings_model(bindings@) == bm,
            names_unique(bm),
            k <= bindings@.len(),
            forall|q: int| 0 <= q < k ==> bm[q].0 != name@,
        decreases bindings@.len() - k,
    {
        if bindings[k].0.0.eq(name) {
            assert(bm[k as int].0 == name@);
            let ghost q = choose|q: int| 0 <= q < bm.len() && bm[q].0 == name@;
            assert(q == k as int);
            return Some(bindings[k].1);
        }
        k = k + 1;
    }
    None
}

impl PatternQuery {
    /// An empty query.
    pub fn new() -> (r: PatternQuery)
        ensures
            r.matches@ == Seq::<Pattern>::empty(),
            r.where_clause@ == Seq::<Pattern>::empty(),
            r.returns@ == Seq::<PatternVar>::empty(),
    {
        PatternQuery { matches: Vec::new(), where_clause: Vec::new(), returns: Vec::new() }
    }

    /// Runs the query against `graph`.
    pub fn execute(&self, graph: &WorldGraph) -> (r: Result<Vec<PatternResult>, PatternError>)
        requires
            graph.wf(),
        ensures
            match execute_spec(graph@, patterns_model(self.matches@), patterns_model(self.where_clause@)) {
                Ok(rs) => r matches Ok(v) && v@.len() == rs.len() && forall|q: int|
                    0 <= q < rs.len() ==> #[trigger] v@[q].model() == rs[q],
                Err(e) => r matches Err(x) && x.model() == e,
            },
    {
        let ghost g = graph@;
        let ghost ms = patterns_model(self.matches@);
        let ghost ws = patterns_model(self.where_clause@);
        let mut bindings: Vec<(PatternVar, IId)> = Vec::new();
        let mut k: usize = 0;
        while k < self.matches.len()
            invariant
                graph.wf(),
                g == graph@,
                ms == patterns_model(self.matches@),
                k <= self.matches@.len(),
                bindings_model(bindings@) == match_all(g, ms, k as nat),
                names_unique(bindings_model(bindings@)),
            decreases self.matches@.len() - k,
        {
            self.match_pattern(&self.matches[k], graph, &mut bindings);
            k = k + 1;
        }
        let ghost bs = bindings_model(bindings@);
        assert(ms.len() == k);
        assert(bs == match_all(g, ms, ms.len()));
        let mut w: usize = 0;
        while w < self.where_clause.len()
            invariant
                graph.wf(),
                g == graph@,
                ws == patterns_model(self.where_clause@),
                bs == bindings_model(bindings@),
                ms == patterns_model(self.matches@),
                bs == match_all(g, ms, ms.len()),
                names_unique(bs),
                w <= self.where_clause@.len(),
                where_spec(g, ws, bs, w as nat) == where_spec(g, ws, bs, 0),
            decreases self.where_clause@.len() - w,
        {
            assert(ws[w as int] == self.where_clause@[w as int].model());
            match self.check_condition(&self.where_clause[w], &bindings, graph) {
                Ok(true) => {},
                Ok(false) => {
                    let none: Vec<PatternResult> = Vec::new();
                    return Ok(none);
                },
                Err(e) => return Err(e),
            }
            w = w + 1;
        }
        let mut results: Vec<PatternResult> = Vec::new();
        results.push(PatternResult { bindings });
        Ok(results)
    }

    /// Applies one MATCH pattern.
    fn match_pattern(&self, pattern: &Pattern, graph: &WorldGraph, bindings: &mut Vec<(PatternVar, IId)>)
        requires
            graph.wf(),
            names_unique(bindings_model(old(bindings)@)),
        ensures
            names_unique(bindings_model(final(bindings)@)),
            bindings_model(final(bindings)@) == match pattern.model() {
                PatternModel::Incidence(name) => if graph@.incs.len() > 0 {
                    bind(bindings_model(old(bindings)@), name, graph@.incs[0].id)
                } else {
                    bindings_model(old(bindings)@)
                },
                PatternModel::Condition(..) => bindings_model(old(bindings)@),
            },
    {
        match pattern {
            Pattern::Incidence { var, .. } => {
                let all = graph.iter();
                if all.len() > 0 {
                    assert(all@.map_values(|i: crate::model::incidence::Incidence| i.model())[0] == graph@.incs[0]);
                    bind_exec(bindings, &var.0, all[0].id);
                }
            },
            Pattern::Condition { .. } => {},
        }
    }

    /// Evaluates one WHERE pattern.
    fn check_condition(&self, condition: &Pattern, bindings: &Vec<(PatternVar, IId)>, graph: &WorldGraph) -> (r: Result<bool, PatternError>)
        requires
            graph.wf(),
            names_unique(bindings_model(bindings@)),
        ensures
            match condition_spec(graph@, condition.model(), bindings_model(bindings@)) {
                Ok(b) => r == Ok::<bool, PatternError>(b),
                Err(e) => r matches Err(x) && x.model() == e,
            },
    {
        match condition {
            Pattern::Condition { left, op, right } => {
                let left_val = match self.eval_expr(left, bindings, graph) {
                    Ok(v) => v,
                    Err(e) => return Err(e),
                };
                let right_val = match self.eval_expr(right, bindings, graph) {
                    Ok(v) => v,
                    Err(e) => return Err(e),
                };
                Ok(self.compare_values(&left_val, op, &right_val))
            },
            _ => Err(PatternError::Pattern(String::from_str("Invalid condition"))),
        }
    }

    /// Evaluates an expression.
    fn eval_expr(&self, expr: &PatternExpr, bindings: &Vec<(PatternVar, IId)>, graph: &WorldGraph) -> (r: Result<Value, PatternError>)
        requires
            graph.wf(),
            names_unique(bindings_model(bindings@)),
        ensures
            match eval_expr_spec(graph@, expr.model(), bindings_model(bindings@)) {
                Ok(v) => r matches Ok(x) && x.model() == v,
                Err(e) => r matches Err(x) && x.model() == e,
            },
    {
        match expr {
            PatternExpr::Var(var) => match lookup_binding(bindings, &var.0) {
                Some(id) => match graph.get(id) {
                    Some(inc) => match &inc.val {
                        Some(v) => Ok(v.deep_copy()),
                        None => Err(PatternError::Evaluation(String::from_str("No value"))),
                    },
                    None => Err(PatternError::Evaluation(String::from_str("No value"))),
                },
                None => {
                    let mut msg = String::from_str("Variable not found: ");
                    let shown = pattern_var_debug(var);
                    msg.append(shown.as_str());
                    Err(PatternError::Evaluation(msg))
                },
            },
            PatternExpr::Value(v) => Ok(v.deep_copy()),
            PatternExpr::Attr(..) => Err(PatternError::Evaluation(String::from_str("Attr not implemented"))),
        }
    }

    /// Compares two values: two integers by `Eq`, `Gt` or `Lt`; anything else is `false`.
    pub fn compare_values(&self, left: &Value, op: &PatternOp, right: &Value) -> (r: bool)
        ensures
            r == compare_spec(left.model(), *op, right.model()),
    {
        match (left, right, op) {
            (Value::Int(l), Value::Int(r), PatternOp::Eq) => *l == *r,
            (Value::Int(l), Value::Int(r), PatternOp::Gt) => *l > *r,
            (Value::Int(l), Value::Int(r), PatternOp::Lt) => *l < *r,
            _ => false,
        }
    }
}

impl Default for PatternQuery {
    fn default() -> (r: PatternQuery)
        ensures
            r.matches@ == Seq::<Pattern>::empty(),
            r.where_clause@ == Seq::<Pattern>::empty(),
            r.returns@ == Seq::<PatternVar>::empty(),
    {
        PatternQuery::new()
    }
}

} // verus!
