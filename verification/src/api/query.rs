//! The read side of the GraphQL API: lookups, type listings and statistics,
//! Datalog queries and graph structure extraction.

use vstd::prelude::*;
use crate::model::incidence::{IId, Incidence, IncidenceModel};
use crate::model::world_graph::{GraphModel, WorldGraph, ids_under};
use crate::api::schema::{
    ApiError, IncidenceType, IncidenceTypeModel, decimal_string, incidence_type_of, parse_id,
    parsed_id,
};
use crate::api::listing::{ascending, insert_ascending, lemma_ascending_is, lists_ascending, strictly_ascending};
use crate::text::{chars_of, decimal, push_decimal, split_chars, split_on, trim, trim_chars};
use crate::api::parse::{parse_predicate_chars, parse_predicate_spec, starts_with};
use crate::query::datalog::{DatalogProgram, Predicate, PredicateModel, predicates_model};

verus! {

/// The queries of the GraphQL API, each over a world graph.
pub struct Query;

/// The type identifiers that incidences of `g` carry.
pub open spec fn type_id_set(g: GraphModel) -> Set<u64> {
    Set::new(|t: u64| exists|i: int| 0 <= i < g.incs.len() && g.incs[i].ty == Some(IId(t)))
}

/// The role identifiers that incidences of `g` carry.
pub open spec fn role_id_set(g: GraphModel) -> Set<u64> {
    Set::new(
        |x: u64|
            exists|i: int, j: int|
                0 <= i < g.incs.len() && 0 <= j < g.incs[i].roles.len() && g.incs[i].roles[j].0 as u64 == x,
    )
}

/// How many of `ms` carry an embedding.
pub open spec fn embedded_count(ms: Seq<IncidenceModel>) -> nat
    decreases ms.len(),
{
    if ms.len() == 0 {
        0
    } else {
        embedded_count(ms.drop_last()) + if ms.last().embedding is Some { 1nat } else { 0nat }
    }
}

/// The incidences recorded under type `t`.
pub open spec fn type_members(g: GraphModel, t: u64) -> Seq<IncidenceModel> {
    g.resolve(ids_under(g.by_type, t))
}

/// Summary of one type.
#[derive(Clone, Debug, PartialEq)]
pub struct TypeInfo {
    pub id: String,
    pub level: i32,
    pub incidence_count: usize,
}

/// The abstract [`TypeInfo`].
pub struct TypeInfoModel {
    pub id: Seq<char>,
    pub level: i32,
    pub incidence_count: nat,
}

impl TypeInfo {
    /// The abstract summary.
    pub open spec fn model(&self) -> TypeInfoModel {
        TypeInfoModel { id: self.id@, level: self.level, incidence_count: self.incidence_count as nat }
    }
}

/// The summaries of the types `ids` that name an incidence of `g`, in order.
pub open spec fn type_infos(g: GraphModel, ids: Seq<u64>) -> Seq<TypeInfoModel>
    decreases ids.len(),
{
    if ids.len() == 0 {
        Seq::empty()
    } else {
        let rest = type_infos(g, ids.drop_last());
        let t = ids.last();
        match g.lookup(IId(t)) {
            Some(m) => rest.push(
                TypeInfoModel {
                    id: decimal(t as nat),
                    level: m.level.0 as i32,
                    incidence_count: type_members(g, t).len(),
                },
            ),
            None => rest,
        }
    }
}

/// Counts of the schema.
#[derive(Clone, Copy, Debug, PartialEq, Eq)]
pub struct SchemaStats {
    pub total_incidences: usize,
    pub type_count: usize,
    pub role_count: usize,
    pub vector_count: usize,
}

/// The distinct type identifiers of `graph`, ascending.
pub fn type_ids(graph: &WorldGraph) -> (r: Vec<u64>)
    ensures
        lists_ascending(r@, type_id_set(graph@)),
{
    let all = graph.iter();
    let ghost g = graph@;
    let mut out: Vec<u64> = Vec::new();
    let mut k: usize = 0;
    while k < all.len()
        invariant
            k <= all@.len(),
            all@.map_values(|i: Incidence| i.model()) == g.incs,
            strictly_ascending(out@),
            forall|x: u64| out@.contains(x) <==> exists|i: int| 0 <= i < k && g.incs[i].ty == Some(IId(x)),
        decreases all@.len() - k,
    {
        assert(g.incs[k as int] == all@[k as int].model());
        match all[k].ty {
            Some(t) => {
                insert_ascending(&mut out, t.0);
                assert forall|x: u64| out@.contains(x) <==> exists|i: int| 0 <= i < k + 1 && g.incs[i].ty == Some(IId(x)) by {
                    if x == t.0 {
                        assert(g.incs[k as int].ty == Some(IId(x)));
                    }
                    if exists|i: int| 0 <= i < k + 1 && g.incs[i].ty == Some(IId(x)) {
                        let i = choose|i: int| 0 <= i < k + 1 && g.incs[i].ty == Some(IId(x));
                        if i < k {
                        } else {
                            assert(x == t.0);
                        }
                    }
                }
            },
            None => {
                assert forall|x: u64| out@.contains(x) <==> exists|i: int| 0 <= i < k + 1 && g.incs[i].ty == Some(IId(x)) by {
                    if exists|i: int| 0 <= i < k + 1 && g.incs[i].ty == Some(IId(x)) {
                        let i = choose|i: int| 0 <= i < k + 1 && g.incs[i].ty == Some(IId(x));
                        assert(i < k);
                    }
                }
            },
        }
        k = k + 1;
    }
    assert(all@.len() == g.incs.len());
    out
}

/// The distinct role identifiers of `graph`, ascending.
pub fn role_ids(graph: &WorldGraph) -> (r: Vec<u64>)
    ensures
        lists_ascending(r@, role_id_set(graph@)),
{
    let all = graph.iter();
    let ghost g = graph@;
    let mut out: Vec<u64> = Vec::new();
    let mut k: usize = 0;
    while k < all.len()
        invariant
            k <= all@.len(),
            all@.map_values(|i: Incidence| i.model()) == g.incs,
            strictly_ascending(out@),
            forall|x: u64| out@.contains(x) <==> exists|i: int, j: int|
                0 <= i < k && 0 <= j < g.incs[i].roles.len() && g.incs[i].roles[j].0 as u64 == x,
        decreases all@.len() - k,
    {
        assert(g.incs[k as int] == all@[k as int].model());
        let roles = &all[k].roles;
        let mut q: usize = 0;
        while q < roles.len()
            invariant
                k < all@.len(),
                q <= roles@.len(),
                roles@ == g.incs[k as int].roles,
                strictly_ascending(out@),
                forall|x: u64| out@.contains(x) <==> (
                    (exists|i: int, j: int|
                        0 <= i < k && 0 <= j < g.incs[i].roles.len() && g.incs[i].roles[j].0 as u64 == x)
                    || (exists|j: int| 0 <= j < q && roles@[j].0 as u64 == x)),
            decreases roles@.len() - q,
        {
            insert_ascending(&mut out, roles[q].0 as u64);
            assert forall|x: u64| out@.contains(x) <==> (
                (exists|i: int, j: int|
                    0 <= i < k && 0 <= j < g.incs[i].roles.len() && g.incs[i].roles[j].0 as u64 == x)
                || (exists|j: int| 0 <= j < q + 1 && roles@[j].0 as u64 == x)) by {
                if exists|j: int| 0 <= j < q + 1 && roles@[j].0 as u64 == x {
                    let j = choose|j: int| 0 <= j < q + 1 && roles@[j].0 as u64 == x;
                    if j == q {
                    } else {
                    }
                }
                if x == roles@[q as int].0 as u64 {
                    assert(exists|j: int| 0 <= j < q + 1 && roles@[j].0 as u64 == x);
                }
            }
            q = q + 1;
        }
        assert forall|x: u64| out@.contains(x) <==> exists|i: int, j: int|
            0 <= i < k + 1 && 0 <= j < g.incs[i].roles.len() && g.incs[i].roles[j].0 as u64 == x by {
            if exists|i: int, j: int|
                0 <= i < k + 1 && 0 <= j < g.incs[i].roles.len() && g.incs[i].roles[j].0 as u64 == x {
                let (i, j) = choose|i: int, j: int|
                    0 <= i < k + 1 && 0 <= j < g.incs[i].roles.len() && g.incs[i].roles[j].0 as u64 == x;
                if i == k {
                    assert(roles@[j].0 as u64 == x);
                }
            }
            if exists|j: int| 0 <= j < roles@.len() && roles@[j].0 as u64 == x {
                let j = choose|j: int| 0 <= j < roles@.len() && roles@[j].0 as u64 == x;
                assert(0 <= k < k + 1 && 0 <= j < g.incs[k as int].roles.len() && g.incs[k as int].roles[j].0 as u64 == x);
            }
        }
        k = k + 1;
    }
    assert(all@.len() == g.incs.len());
    out
}

impl Query {
    /// The incidence that `id` names, in the API's shape.
    pub fn incidence(&self, graph: &WorldGraph, id: &str) -> (r: Result<Option<IncidenceType>, ApiError>)
        requires
            graph.wf(),
        ensures
            match parsed_id(id@) {
                None => r == Err::<Option<IncidenceType>, ApiError>(ApiError::InvalidId),
                Some(v) => match graph@.lookup(IId(v)) {
                    Some(m) => r matches Ok(Some(t)) && t.model() == incidence_type_of(m),
                    None => r matches Ok(None),
                },
            },
    {
        match parse_id(id) {
            None => Err(ApiError::InvalidId),
            Some(v) => match graph.get(IId(v)) {
                Some(inc) => Ok(Some(IncidenceType::from_incidence(inc))),
                None => Ok(None),
            },
        }
    }

    /// All incidences in insertion order, in the API's shape.
    pub fn incidences(&self, graph: &WorldGraph) -> (r: Vec<IncidenceType>)
        ensures
            r@.map_values(|t: IncidenceType| t.model()) == graph@.incs.map_values(|m: IncidenceModel| incidence_type_of(m)),
    {
        let all = graph.iter();
        let ghost g = graph@;
        let mut out: Vec<IncidenceType> = Vec::new();
        let mut k: usize = 0;
        while k < all.len()
            invariant
                k <= all@.len(),
                all@.map_values(|i: Incidence| i.model()) == g.incs,
                out@.map_values(|t: IncidenceType| t.model())
                    == g.incs.subrange(0, k as int).map_values(|m: IncidenceModel| incidence_type_of(m)),
            decreases all@.len() - k,
        {
            assert(g.incs[k as int] == all@[k as int].model());
            let t = IncidenceType::from_incidence(&all[k]);
            let ghost before = out@;
            out.push(t);
            k = k + 1;
            proof {
                let lhs = out@.map_values(|t: IncidenceType| t.model());
                let rhs = g.incs.subrange(0, k as int).map_values(|m: IncidenceModel| incidence_type_of(m));
                let prev = g.incs.subrange(0, k - 1).map_values(|m: IncidenceModel| incidence_type_of(m));
                assert(out@ == before.push(t));
                assert(before.map_values(|t: IncidenceType| t.model()) == prev);
                assert forall|j: int| 0 <= j < lhs.len() implies lhs[j] == rhs[j] by {
                    if j < k - 1 {
                        assert(lhs[j] == before.map_values(|t: IncidenceType| t.model())[j]);
                        assert(prev[j] == rhs[j]);
                    }
                }
                assert(lhs =~= rhs);
            }
        }
        assert(g.incs.subrange(0, all@.len() as int) =~= g.incs);
        out
    }

    /// The types in use, by ascending identifier, each with its level and
    /// the number of incidences recorded under it; a type identifier that
    /// names no incidence is left out.
    pub fn types(&self, graph: &WorldGraph) -> (r: Vec<TypeInfo>)
        requires
            graph.wf(),
        ensures
            r@.map_values(|i: TypeInfo| i.model()) == type_infos(graph@, ascending(type_id_set(graph@))),
    {
        let ids = type_ids(graph);
        proof {
            lemma_ascending_is(ids@, type_id_set(graph@));
        }
        let mut out: Vec<TypeInfo> = Vec::new();
        let mut k: usize = 0;
        while k < ids.len()
            invariant
                graph.wf(),
                k <= ids@.len(),
                out@.map_values(|i: TypeInfo| i.model()) == type_infos(graph@, ids@.subrange(0, k as int)),
            decreases ids@.len() - k,
        {
            let t = ids[k];
            let ghost before = out@;
            proof {
                let sub = ids@.subrange(0, k + 1);
                assert(sub.drop_last() =~= ids@.subrange(0, k as int));
                assert(sub.last() == t);
            }
            match graph.get(IId(t)) {
                Some(inc) => {
                    let members = graph.find_by_type(IId(t));
                    let info = TypeInfo {
                        id: decimal_string(t),
                        level: inc.level.0 as i32,
                        incidence_count: members.len(),
                    };
                    out.push(info);
                    assert(out@.map_values(|i: TypeInfo| i.model())
                        =~= before.map_values(|i: TypeInfo| i.model()).push(info.model()));
                },
                None => {},
            }
            k = k + 1;
        }
        assert(ids@.subrange(0, ids@.len() as int) =~= ids@);
        out
    }

    /// Counts of incidences, distinct types, distinct roles and incidences with an embedding.
    pub fn schema_stats(&self, graph: &WorldGraph) -> (r: SchemaStats)
        ensures
            r.total_incidences == graph@.incs.len(),
            r.type_count == type_id_set(graph@).len(),
            r.role_count == role_id_set(graph@).len(),
            r.vector_count == embedded_count(graph@.incs),
    {
        let types = type_ids(graph);
        let roles = role_ids(graph);
        proof {
            lemma_ascending_is(types@, type_id_set(graph@));
            lemma_ascending_is(roles@, role_id_set(graph@));
        }
        let all = graph.iter();
        let ghost g = graph@;
        let mut vectors: usize = 0;
        let mut k: usize = 0;
        while k < all.len()
            invariant
                k <= all@.len(),
                all@.map_values(|i: Incidence| i.model()) == g.incs,
                vectors == embedded_count(g.incs.subrange(0, k as int)),
                vectors <= k,
            decreases all@.len() - k,
        {
            assert(g.incs[k as int] == all@[k as int].model());
            assert(g.incs.subrange(0, k + 1).drop_last() =~= g.incs.subrange(0, k as int));
            if all[k].embedding.is_some() {
                vectors = vectors + 1;
            }
            k = k + 1;
        }
        assert(g.incs.subrange(0, all@.len() as int) =~= g.incs);
        SchemaStats {
            total_incidences: graph.len(),
            type_count: types.len(),
            role_count: roles.len(),
            vector_count: vectors,
        }
    }
}


/// The fact that one line of a Datalog query states: none for a blank line
/// or a `//` comment, else the atom that the trimmed line writes, if any.
pub open spec fn line_fact(line: Seq<char>) -> Option<PredicateModel> {
    let t = trim(line);
    if t.len() == 0 || starts_with(t, seq!['/', '/']) {
        None
    } else {
        parse_predicate_spec(t)
    }
}

/// The facts that `lines` state, in order.
pub open spec fn lines_facts(lines: Seq<Seq<char>>) -> Seq<PredicateModel>
    decreases lines.len(),
{
    if lines.len() == 0 {
        Seq::empty()
    } else {
        let rest = lines_facts(lines.drop_last());
        match line_fact(lines.last()) {
            Some(p) => rest.push(p),
            None => rest,
        }
    }
}

/// The facts of a Datalog query text, one atom per line.
pub open spec fn query_facts(q: Seq<char>) -> Seq<PredicateModel> {
    lines_facts(split_on(q, '\n'))
}

/// The incidences that the `Inc` atoms of `preds` name, in order, in the
/// API's shape; other atoms, and identifiers that name nothing, are skipped.
pub open spec fn inc_results(g: GraphModel, preds: Seq<PredicateModel>) -> Seq<IncidenceTypeModel>
    decreases preds.len(),
{
    if preds.len() == 0 {
        Seq::empty()
    } else {
        let rest = inc_results(g, preds.drop_last());
        match preds.last() {
            PredicateModel::Inc(id) => match g.lookup(id) {
                Some(m) => rest.push(incidence_type_of(m)),
                None => rest,
            },
            _ => rest,
        }
    }
}

/// The answer to a Datalog query.
#[derive(Clone, Debug, PartialEq)]
pub struct DatalogResult {
    pub incidences: Vec<IncidenceType>,
    pub predicate_count: usize,
}

/// The facts of a Datalog query text: each line is trimmed; blank lines and
/// `//` comments are skipped, and so are lines that write no atom.
pub fn datalog_facts(query: &str) -> (r: Vec<Predicate>)
    ensures
        predicates_model(r@) == query_facts(query@),
{
    let cs = chars_of(query);
    let lines = split_chars(cs.as_slice(), '\n');
    let ghost ls = split_on(query@, '\n');
    let mut out: Vec<Predicate> = Vec::new();
    let mut k: usize = 0;
    while k < lines.len()
        invariant
            cs@ == query@,
            ls == split_on(query@, '\n'),
            lines@.len() == ls.len(),
            forall|q: int| 0 <= q < lines@.len() ==> #[trigger] lines@[q]@ == ls[q],
            k <= lines@.len(),
            predicates_model(out@) == lines_facts(ls.subrange(0, k as int)),
        decreases lines@.len() - k,
    {
        proof {
            let sub = ls.subrange(0, k + 1);
            assert(sub.drop_last() =~= ls.subrange(0, k as int));
            assert(sub.last() == lines@[k as int]@);
        }
        let t = trim_chars(lines[k].as_slice());
        let comment = t.len() >= 2 && t[0] == '/' && t[1] == '/';
        assert(comment == starts_with(t@, seq!['/', '/'])) by {
            if t@.len() >= 2 {
                if comment {
                    assert(t@.subrange(0, 2) =~= seq!['/', '/']);
                } else {
                    assert(t@.subrange(0, 2)[0] == t@[0]);
                    assert(t@.subrange(0, 2)[1] == t@[1]);
                }
            }
        }
        if t.len() > 0 && !comment {
            match parse_predicate_chars(&t) {
                Some(p) => {
                    let ghost before = out@;
                    let ghost pm = p.model();
                    out.push(p);
                    assert(predicates_model(out@) =~= predicates_model(before).push(pm));
                },
                None => {},
            }
        }
        k = k + 1;
    }
    assert(ls.subrange(0, lines@.len() as int) =~= ls);
    out
}

/// The incidences that the `Inc` atoms of `preds` name, in the API's shape.
fn inc_results_exec(graph: &WorldGraph, preds: &Vec<Predicate>) -> (r: Vec<IncidenceType>)
    requires
        graph.wf(),
    ensures
        r@.map_values(|t: IncidenceType| t.model()) == inc_results(graph@, predicates_model(preds@)),
{
    let mut out: Vec<IncidenceType> = Vec::new();
    let mut k: usize = 0;
    while k < preds.len()
        invariant
            graph.wf(),
            k <= preds@.len(),
            out@.map_values(|t: IncidenceType| t.model())
                == inc_results(graph@, predicates_model(preds@.subrange(0, k as int))),
        decreases preds@.len() - k,
    {
        proof {
            let sub = predicates_model(preds@.subrange(0, k + 1));
            assert(sub.drop_last() =~= predicates_model(preds@.subrange(0, k as int)));
            assert(sub.last() == preds@[k as int].model());
        }
        match &preds[k] {
            Predicate::Inc(id) => match graph.get(*id) {
                Some(inc) => {
                    let t = IncidenceType::from_incidence(inc);
                    let ghost before = out@;
                    out.push(t);
                    assert(out@.map_values(|t: IncidenceType| t.model())
                        =~= before.map_values(|t: IncidenceType| t.model()).push(t.model()));
                },
                None => {},
            },
            _ => {},
        }
        k = k + 1;
    }
    assert(preds@.subrange(0, preds@.len() as int) =~= preds@);
    out
}

impl Query {
    /// Runs a Datalog query: each line of `query` that writes an atom
    /// becomes a fact of a program without rules; the program is evaluated
    /// against `graph`, and the incidences that its `Inc` results name are
    /// returned with the number of results.
    pub fn execute_datalog(&self, graph: &WorldGraph, query: &str) -> (r: DatalogResult)
        requires
            graph.wf(),
        ensures
            r.incidences@.map_values(|t: IncidenceType| t.model()) == inc_results(graph@, query_facts(query@)),
            r.predicate_count == query_facts(query@).len(),
    {
        let mut program = DatalogProgram::new();
        let facts = datalog_facts(query);
        let mut k: usize = 0;
        while k < facts.len()
            invariant
                k <= facts@.len(),
                program.rules@ == Seq::<crate::query::datalog::Rule>::empty(),
                predicates_model(program.facts@) == predicates_model(facts@.subrange(0, k as int)),
            decreases facts@.len() - k,
        {
            let fact = facts[k].deep_copy();
            let ghost before = program.facts@;
            program.add_fact(fact);
            k = k + 1;
            assert(predicates_model(program.facts@) =~= predicates_model(facts@.subrange(0, k as int))) by {
                assert(predicates_model(program.facts@) =~= predicates_model(before).push(fact.model()));
                assert(predicates_model(facts@.subrange(0, k as int))
                    =~= predicates_model(facts@.subrange(0, k - 1)).push(facts@[k - 1].model()));
            }
        }
        assert(facts@.subrange(0, facts@.len() as int) =~= facts@);
        match program.evaluate(graph) {
            Ok(results) => {
                let incidences = inc_results_exec(graph, &results);
                DatalogResult { incidences, predicate_count: results.len() }
            },
            Err(_) => DatalogResult { incidences: Vec::new(), predicate_count: 0 },
        }
    }
}


/// The shape of an incidence that the type detail reports: its numbers of
/// arguments and of roles.
pub open spec fn shape_of(m: IncidenceModel) -> (nat, nat) {
    (m.args.len(), m.roles.len())
}

/// The distinct shapes of `ms`, in order of first appearance.
pub open spec fn shapes(ms: Seq<IncidenceModel>) -> Seq<(nat, nat)>
    decreases ms.len(),
{
    if ms.len() == 0 {
        Seq::empty()
    } else {
        let s = shapes(ms.drop_last());
        if s.contains(shape_of(ms.last())) { s } else { s.push(shape_of(ms.last())) }
    }
}

/// How many of `ms` have shape `sh`.
pub open spec fn shape_count(ms: Seq<IncidenceModel>, sh: (nat, nat)) -> nat
    decreases ms.len(),
{
    if ms.len() == 0 {
        0
    } else {
        shape_count(ms.drop_last(), sh) + if shape_of(ms.last()) == sh { 1nat } else { 0nat }
    }
}

/// The text of a shape: `args:<n>,roles:<m>`.
pub open spec fn pattern_text(sh: (nat, nat)) -> Seq<char> {
    seq!['a', 'r', 'g', 's', ':'] + decimal(sh.0) + seq![',', 'r', 'o', 'l', 'e', 's', ':'] + decimal(sh.1)
}

/// One structure pattern of a type: a shape and how many incidences have it.
#[derive(Clone, Debug, PartialEq)]
pub struct StructurePattern {
    pub pattern: String,
    pub count: i32,
}

/// The abstract [`StructurePattern`].
pub struct StructurePatternModel {
    pub pattern: Seq<char>,
    pub count: int,
}

impl StructurePattern {
    /// The abstract pattern.
    pub open spec fn model(&self) -> StructurePatternModel {
        StructurePatternModel { pattern: self.pattern@, count: self.count as int }
    }
}

/// The structure patterns of `ms`: each distinct shape, in order of first
/// appearance, with its count.
pub open spec fn structure_patterns(ms: Seq<IncidenceModel>) -> Seq<StructurePatternModel> {
    shapes(ms).map_values(|sh: (nat, nat)| StructurePatternModel { pattern: pattern_text(sh), count: shape_count(ms, sh) as int })
}

/// A type with its members and their structure patterns.
#[derive(Clone, Debug, PartialEq)]
pub struct TypeDetail {
    pub id: String,
    pub level: i32,
    pub incidence_count: usize,
    pub incidences: Vec<IncidenceType>,
    pub structure_patterns: Vec<StructurePattern>,
}

proof fn lemma_shape_count_bound(ms: Seq<IncidenceModel>, sh: (nat, nat))
    ensures
        shape_count(ms, sh) <= ms.len(),
        shape_count(ms, sh) > 0 ==> shapes(ms).contains(sh),
    decreases ms.len(),
{
    if ms.len() > 0 {
        lemma_shape_count_bound(ms.drop_last(), sh);
        let s = shapes(ms.drop_last());
        if shape_count(ms, sh) > 0 && !s.contains(sh) {
            assert(shape_of(ms.last()) == sh);
            assert(shapes(ms) == s.push(sh));
            assert(shapes(ms)[s.len() as int] == sh);
        } else if s.contains(sh) {
            let i = choose|i: int| 0 <= i < s.len() && s[i] == sh;
            if !s.contains(shape_of(ms.last())) {
                assert(shapes(ms)[i] == sh);
            }
        }
    }
}

proof fn lemma_shapes_distinct(ms: Seq<IncidenceModel>)
    ensures
        shapes(ms).no_duplicates(),
    decreases ms.len(),
{
    if ms.len() > 0 {
        lemma_shapes_distinct(ms.drop_last());
    }
}

/// The shapes and counts of `members`, as `(args, roles, count)`.
fn shape_table(members: &Vec<&Incidence>) -> (r: (Vec<(usize, usize)>, Vec<usize>))
    ensures
        r.0@.len() == r.1@.len(),
        r.0@.map_values(|p: (usize, usize)| (p.0 as nat, p.1 as nat))
            == shapes(members@.map_values(|i: &Incidence| i.model())),
        forall|q: int| 0 <= q < r.1@.len() ==> #[trigger] r.1@[q] as nat
            == shape_count(members@.map_values(|i: &Incidence| i.model()), (r.0@[q].0 as nat, r.0@[q].1 as nat)),
{
    let ghost ms = members@.map_values(|i: &Incidence| i.model());
    let mut keys: Vec<(usize, usize)> = Vec::new();
    let mut counts: Vec<usize> = Vec::new();
    let mut k: usize = 0;
    while k < members.len()
        invariant
            ms == members@.map_values(|i: &Incidence| i.model()),
            k <= members@.len(),
            keys@.len() == counts@.len(),
            keys@.map_values(|p: (usize, usize)| (p.0 as nat, p.1 as nat)) == shapes(ms.subrange(0, k as int)),
            forall|q: int| 0 <= q < counts@.len() ==> #[trigger] counts@[q] as nat
                == shape_count(ms.subrange(0, k as int), (keys@[q].0 as nat, keys@[q].1 as nat)),
            forall|q: int| 0 <= q < counts@.len() ==> #[trigger] counts@[q] <= k,
        decreases members@.len() - k,
    {
        let inc = members[k];
        let a = inc.args.len();
        let b = inc.roles.len();
        let ghost sub = ms.subrange(0, k as int);
        let ghost next = ms.subrange(0, k + 1);
        proof {
            assert(next.drop_last() =~= sub);
            assert(next.last() == inc.model());
            assert(shape_of(inc.model()) == (a as nat, b as nat));
        }
        let ghost kv = keys@.map_values(|p: (usize, usize)| (p.0 as nat, p.1 as nat));
        let mut p: usize = 0;
        while p < keys.len() && !(keys[p].0 == a && keys[p].1 == b)
            invariant
                p <= keys@.len(),
                kv == keys@.map_values(|p: (usize, usize)| (p.0 as nat, p.1 as nat)),
                forall|q: int| 0 <= q < p ==> kv[q] != (a as nat, b as nat),
            decreases keys@.len() - p,
        {
            p = p + 1;
        }
        if p < keys.len() {
            assert(kv[p as int] == (a as nat, b as nat));
            assert(kv.contains(shape_of(inc.model())));
            let c = counts[p];
            counts.set(p, c + 1);
            proof {
                assert forall|q: int| 0 <= q < counts@.len() implies #[trigger] counts@[q] as nat
                    == shape_count(next, (keys@[q].0 as nat, keys@[q].1 as nat)) by {
                    assert(kv[q] == (keys@[q].0 as nat, keys@[q].1 as nat));
                    if q != p {
                        lemma_shapes_distinct(sub);
                        assert(kv[q] != kv[p as int]);
                    }
                }
            }
        } else {
            proof {
                assert(!kv.contains(shape_of(inc.model())));
                lemma_shape_count_bound(sub, (a as nat, b as nat));
            }
            let ghost before = keys@;
            keys.push((a, b));
            counts.push(1);
            proof {
                assert(keys@.map_values(|p: (usize, usize)| (p.0 as nat, p.1 as nat)) =~= kv.push((a as nat, b as nat)));
                assert forall|q: int| 0 <= q < counts@.len() implies #[trigger] counts@[q] as nat
                    == shape_count(next, (keys@[q].0 as nat, keys@[q].1 as nat)) by {
                    if q < before.len() {
                        assert(kv[q] == (keys@[q].0 as nat, keys@[q].1 as nat));
                        assert(kv[q] != (a as nat, b as nat));
                    }
                }
            }
        }
        k = k + 1;
    }
    assert(ms.subrange(0, members@.len() as int) =~= ms);
    (keys, counts)
}

/// The text `args:<a>,roles:<b>`.
fn pattern_string(a: usize, b: usize) -> (r: String)
    ensures
        r@ == pattern_text((a as nat, b as nat)),
{
    let mut s = String::from_str("args:");
    push_decimal(&mut s, a as u64);
    s.append(",roles:");
    push_decimal(&mut s, b as u64);
    proof {
        reveal_strlit("args:");
        reveal_strlit(",roles:");
        assert(s@ =~= pattern_text((a as nat, b as nat)));
    }
    s
}

impl Query {
    /// The type that `id` names: its level, its members in the API's shape
    /// and their structure patterns.
    ///
    /// Each count of a pattern is an `i32`, so the type may have at most
    /// `i32::MAX` members.
    pub fn type_detail(&self, graph: &WorldGraph, id: &str) -> (r: Result<Option<TypeDetail>, ApiError>)
        requires
            graph.wf(),
            parsed_id(id@) matches Some(v) ==> type_members(graph@, v).len() <= i32::MAX,
        ensures
            match parsed_id(id@) {
                None => r == Err::<Option<TypeDetail>, ApiError>(ApiError::InvalidId),
                Some(v) => match graph@.lookup(IId(v)) {
                    None => r matches Ok(None),
                    Some(m) => r matches Ok(Some(d)) && {
                        &&& d.id@ == decimal(v as nat)
                        &&& d.level == m.level.0 as i32
                        &&& d.incidence_count == type_members(graph@, v).len()
                        &&& d.incidences@.map_values(|t: IncidenceType| t.model())
                            == type_members(graph@, v).map_values(|x: IncidenceModel| incidence_type_of(x))
                        &&& d.structure_patterns@.map_values(|p: StructurePattern| p.model())
                            == structure_patterns(type_members(graph@, v))
                    },
                },
            },
    {
        let v = match parse_id(id) {
            None => return Err(ApiError::InvalidId),
            Some(v) => v,
        };
        let type_inc = match graph.get(IId(v)) {
            None => return Ok(None),
            Some(inc) => inc,
        };
        let members = graph.find_by_type(IId(v));
        let ghost ms = members@.map_values(|i: &Incidence| i.model());
        let mut incidences: Vec<IncidenceType> = Vec::new();
        let mut k: usize = 0;
        while k < members.len()
            invariant
                ms == members@.map_values(|i: &Incidence| i.model()),
                k <= members@.len(),
                incidences@.map_values(|t: IncidenceType| t.model())
                    == ms.subrange(0, k as int).map_values(|x: IncidenceModel| incidence_type_of(x)),
            decreases members@.len() - k,
        {
            let t = IncidenceType::from_incidence(members[k]);
            let ghost before = incidences@;
            incidences.push(t);
            k = k + 1;
            proof {
                assert(incidences@ == before.push(t));
                assert(ms.len() == members@.len());
                assert(before.map_values(|t: IncidenceType| t.model()).len() == k - 1);
                let lhs = incidences@.map_values(|t: IncidenceType| t.model());
                let rhs = ms.subrange(0, k as int).map_values(|x: IncidenceModel| incidence_type_of(x));
                assert(lhs.len() == rhs.len());
                assert forall|j: int| 0 <= j < lhs.len() implies lhs[j] == rhs[j] by {
                    if j < k - 1 {
                        assert(lhs[j] == before.map_values(|t: IncidenceType| t.model())[j]);
                        assert(rhs[j] == ms.subrange(0, k - 1).map_values(|x: IncidenceModel| incidence_type_of(x))[j]);
                    } else {
                        assert(incidences@[j] == t);
                    }
                }
                assert(lhs =~= rhs);
            }
        }
        assert(ms.subrange(0, members@.len() as int) =~= ms);
        let (keys, counts) = shape_table(&members);
        let mut patterns: Vec<StructurePattern> = Vec::new();
        let mut q: usize = 0;
        while q < keys.len()
            invariant
                ms == members@.map_values(|i: &Incidence| i.model()),
                ms.len() <= i32::MAX,
                keys@.len() == counts@.len(),
                keys@.map_values(|p: (usize, usize)| (p.0 as nat, p.1 as nat)) == shapes(ms),
                forall|j: int| 0 <= j < counts@.len() ==> #[trigger] counts@[j] as nat
                    == shape_count(ms, (keys@[j].0 as nat, keys@[j].1 as nat)),
                q <= keys@.len(),
                patterns@.map_values(|p: StructurePattern| p.model())
                    == structure_patterns(ms).subrange(0, q as int),
            decreases keys@.len() - q,
        {
            let (a, b) = keys[q];
            let c = counts[q];
            proof {
                lemma_shape_count_bound(ms, (a as nat, b as nat));
                assert(shapes(ms)[q as int] == (a as nat, b as nat));
            }
            let pat = StructurePattern { pattern: pattern_string(a, b), count: c as i32 };
            let ghost before = patterns@;
            patterns.push(pat);
            q = q + 1;
            assert(patterns@.map_values(|p: StructurePattern| p.model())
                =~= structure_patterns(ms).subrange(0, q as int)) by {
                assert(patterns@.map_values(|p: StructurePattern| p.model())
                    =~= before.map_values(|p: StructurePattern| p.model()).push(pat.model()));
            }
        }
        assert(structure_patterns(ms).subrange(0, keys@.len() as int) =~= structure_patterns(ms));
        Ok(Some(TypeDetail {
            id: decimal_string(v),
            level: type_inc.level.0 as i32,
            incidence_count: incidences.len(),
            incidences,
            structure_patterns: patterns,
        }))
    }
}


/// The incidences of `incs` whose embedding has `dim` components, with
/// their embeddings, in order.
pub open spec fn embeddings_of_dim(incs: Seq<IncidenceModel>, dim: nat) -> Seq<(IId, Seq<u32>)>
    decreases incs.len(),
{
    if incs.len() == 0 {
        Seq::empty()
    } else {
        let rest = embeddings_of_dim(incs.drop_last(), dim);
        match incs.last().embedding {
            Some(e) => if e.len() == dim { rest.push((incs.last().id, e)) } else { rest },
            None => rest,
        }
    }
}

impl Query {
    /// The candidates of a vector search with a query of `dim` components:
    /// the incidences whose embedding has as many, with their embeddings.
    pub fn vector_candidates(&self, graph: &WorldGraph, dim: usize) -> (r: Vec<(IId, Vec<u32>)>)
        ensures
            r@.map_values(|p: (IId, Vec<u32>)| (p.0, p.1@)) == embeddings_of_dim(graph@.incs, dim as nat),
    {
        let all = graph.iter();
        let ghost g = graph@;
        let mut out: Vec<(IId, Vec<u32>)> = Vec::new();
        let mut k: usize = 0;
        while k < all.len()
            invariant
                k <= all@.len(),
                all@.map_values(|i: Incidence| i.model()) == g.incs,
                out@.map_values(|p: (IId, Vec<u32>)| (p.0, p.1@)) == embeddings_of_dim(g.incs.subrange(0, k as int), dim as nat),
            decreases all@.len() - k,
        {
            assert(g.incs[k as int] == all@[k as int].model());
            assert(g.incs.subrange(0, k + 1).drop_last() =~= g.incs.subrange(0, k as int));
            match &all[k].embedding {
                Some(e) => {
                    if e.len() == dim {
                        let ghost before = out@;
                        let item = (all[k].id, crate::model::incidence::copy_u32s(e.as_slice()));
                        out.push(item);
                        assert(out@.map_values(|p: (IId, Vec<u32>)| (p.0, p.1@))
                            =~= before.map_values(|p: (IId, Vec<u32>)| (p.0, p.1@)).push((item.0, item.1@)));
                    }
                },
                None => {},
            }
            k = k + 1;
        }
        assert(g.incs.subrange(0, all@.len() as int) =~= g.incs);
        out
    }
}

} // verus!
