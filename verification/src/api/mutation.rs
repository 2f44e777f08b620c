//! The write side of the GraphQL API: adding an incidence from request
//! fields, loading demonstration data, and the pure parts of the
//! event-sourced schema.

use vstd::prelude::*;
use crate::model::incidence::{IId, Incidence, IncidenceModel, Level, RoleId, opt_vec_model};
use crate::model::value::{Value, ValueModel};
use crate::model::world_graph::{GraphModel, WorldGraph};
use crate::api::schema::{ApiError, IncidenceType, incidence_type_of, parse_id, parsed_id};
use crate::api::benchmark::{
    BenchmarkMutation, MultiHopBenchmarkConfig, MultiHopReport, ReadBenchmarkConfig, ReadReport, WriteBenchmarkConfig,
    WriteReport, multi_hop_answer, multi_hop_fits, read_answer, write_allowed, write_answer,
};
use crate::api::demo::{SampleDataResult, add_rows, crypto_rows, load_crypto_investigation_data, load_sample_data, row_ids, sample_rows};

verus! {

/// A value given with a request: the first field that is set decides, in
/// the order string, integer, float (`f64` bits), boolean, vector (`f32`
/// bits); none set gives `Null`.
#[derive(Clone, Debug, PartialEq)]
pub struct ValueInput {
    pub str: Option<String>,
    pub int: Option<i64>,
    pub float: Option<u64>,
    pub bool: Option<bool>,
    pub vector: Option<Vec<u32>>,
}

impl ValueInput {
    /// The value that this input gives.
    pub open spec fn value_spec(&self) -> ValueModel {
        if self.str is Some {
            ValueModel::Str(self.str->0@)
        } else if self.int is Some {
            ValueModel::Int(self.int->0)
        } else if self.float is Some {
            ValueModel::Float(self.float->0)
        } else if self.bool is Some {
            ValueModel::Bool(self.bool->0)
        } else if self.vector is Some {
            ValueModel::Vector(self.vector->0@)
        } else {
            ValueModel::Null
        }
    }
}

/// The value that a request's value input gives.
pub fn convert_value_input(input: ValueInput) -> (r: Value)
    ensures
        r.model() == input.value_spec(),
{
    if let Some(s) = input.str {
        Value::Str(s)
    } else if let Some(i) = input.int {
        Value::integer(i)
    } else if let Some(f) = input.float {
        Value::float(f)
    } else if let Some(b) = input.bool {
        Value::bool(b)
    } else if let Some(v) = input.vector {
        Value::vector(v)
    } else {
        Value::Null
    }
}

/// The identifiers that `texts` spell, or none if one of them does not parse.
pub open spec fn parsed_args(texts: Seq<Seq<char>>) -> Option<Seq<IId>>
    decreases texts.len(),
{
    if texts.len() == 0 {
        Some(Seq::empty())
    } else {
        match parsed_args(texts.drop_last()) {
            Some(ids) => match parsed_id(texts.last()) {
                Some(v) => Some(ids.push(IId(v))),
                None => None,
            },
            None => None,
        }
    }
}

/// The texts of `ss`.
pub open spec fn texts_of(ss: Seq<String>) -> Seq<Seq<char>> {
    ss.map_values(|s: String| s@)
}

/// The incidence that the request fields describe once its identifier is
/// known, or the error for the first field that does not parse: the type,
/// then the arguments (paired with the roles; the shorter list decides how
/// many).
pub open spec fn requested_incidence(
    id: IId,
    level: i32,
    type_id: Option<Seq<char>>,
    args: Option<Seq<Seq<char>>>,
    roles: Option<Seq<i32>>,
    value: Option<ValueModel>,
    embedding: Option<Seq<u32>>,
) -> Result<IncidenceModel, ApiError> {
    let base = IncidenceModel {
        id,
        level: Level(level as u8),
        ty: None,
        args: Seq::empty(),
        roles: Seq::empty(),
        val: value,
        embedding,
    };
    let typed = match type_id {
        None => Ok(base),
        Some(t) => match parsed_id(t) {
            Some(v) => Ok(IncidenceModel { ty: Some(IId(v)), ..base }),
            None => Err(ApiError::InvalidTypeId),
        },
    };
    match typed {
        Err(e) => Err(e),
        Ok(m) => match args {
            None => Ok(m),
            Some(a) => {
                let rs = match roles {
                    Some(r) => r,
                    None => Seq::empty(),
                };
                let n = if a.len() < rs.len() { a.len() } else { rs.len() };
                match parsed_args(a.subrange(0, n as int)) {
                    Some(ids) => Ok(IncidenceModel {
                        args: ids,
                        roles: rs.subrange(0, n as int).map_values(|r: i32| RoleId(r as u32)),
                        ..m
                    }),
                    None => Err(ApiError::InvalidArgId),
                }
            },
        },
    }
}

/// The graph after taking the identifier of a request, and the identifier:
/// a fresh one when none is given, else the one given, if it parses.
pub open spec fn request_id(g: GraphModel, id: Option<Seq<char>>) -> Option<(GraphModel, IId)> {
    match id {
        None => Some((GraphModel { next_id: (g.next_id + 1) as u64, ..g }, IId(g.next_id))),
        Some(s) => match parsed_id(s) {
            Some(v) => Some((g, IId(v))),
            None => None,
        },
    }
}

/// Whether a request's identifiers can be handed out without the counter overflowing.
pub open spec fn request_fits(g: GraphModel, id: Option<Seq<char>>) -> bool {
    match request_id(g, id) {
        Some((g1, iid)) => (id is None ==> g.next_id < u64::MAX) && (iid.0 == 0 ==> g1.next_id < u64::MAX),
        None => true,
    }
}

/// The GraphQL mutations.
#[derive(Clone, Copy, Debug, PartialEq, Eq)]
pub struct Mutation {
    /// The benchmark operations.
    pub benchmark: BenchmarkMutation,
}

impl Default for Mutation {
    fn default() -> (r: Mutation)
        ensures
            r == (Mutation { benchmark: BenchmarkMutation }),
    {
        Mutation { benchmark: BenchmarkMutation }
    }
}

/// The identifiers that `texts[..n]` spell, or the position of the first that does not parse.
pub(crate) fn parse_args(texts: &Vec<String>, n: usize) -> (r: Option<Vec<IId>>)
    requires
        n <= texts@.len(),
    ensures
        match parsed_args(texts_of(texts@).subrange(0, n as int)) {
            Some(ids) => r matches Some(v) && v@ == ids,
            None => r is None,
        },
        r matches Some(v) ==> v@.len() == n,
{
    let ghost ts = texts_of(texts@);
    let mut out: Vec<IId> = Vec::new();
    let mut k: usize = 0;
    while k < n
        invariant
            n <= texts@.len(),
            ts == texts_of(texts@),
            k <= n,
            parsed_args(ts.subrange(0, k as int)) == Some(out@),
            out@.len() == k,
        decreases n - k,
    {
        proof {
            let sub = ts.subrange(0, k + 1);
            assert(sub.drop_last() =~= ts.subrange(0, k as int));
            assert(sub.last() == texts@[k as int]@);
        }
        match parse_id(texts[k].as_str()) {
            Some(v) => {
                out.push(IId(v));
            },
            None => {
                proof {
                    assert(ts.subrange(0, n as int).subrange(0, k + 1) =~= ts.subrange(0, k + 1));
                    lemma_parsed_args_prefix(ts.subrange(0, n as int), (k + 1) as nat);
                }
                return None;
            },
        }
        k = k + 1;
    }
    Some(out)
}

/// A list whose prefix has an identifier that does not parse does not parse.
pub proof fn lemma_parsed_args_prefix(texts: Seq<Seq<char>>, k: nat)
    requires
        k <= texts.len(),
        parsed_args(texts.subrange(0, k as int)) is None,
    ensures
        parsed_args(texts) is None,
    decreases texts.len() - k,
{
    if k < texts.len() {
        let sub = texts.subrange(0, (k + 1) as int);
        assert(sub.drop_last() =~= texts.subrange(0, k as int));
        lemma_parsed_args_prefix(texts, k + 1);
    } else {
        assert(texts.subrange(0, k as int) =~= texts);
    }
}

/// Builds the incidence that the request fields describe, once its identifier is known.
fn build_requested(
    id: IId,
    level: i32,
    type_id: Option<String>,
    args: Option<Vec<String>>,
    roles: Option<Vec<i32>>,
    value: Option<ValueInput>,
    embedding: Option<Vec<u32>>,
) -> (r: Result<Incidence, ApiError>)
    ensures
        match requested_incidence(
            id,
            level,
            match type_id { Some(t) => Some(t@), None => None },
            match args { Some(a) => Some(texts_of(a@)), None => None },
            match roles { Some(r) => Some(r@), None => None },
            match value { Some(v) => Some(v.value_spec()), None => None },
            opt_vec_model(embedding),
        ) {
            Ok(m) => r matches Ok(inc) && inc.model() == m,
            Err(e) => r == Err::<Incidence, ApiError>(e),
        },
{
    let mut incidence = Incidence::new(id, Level(level as u8));
    match type_id {
        Some(t) => match parse_id(t.as_str()) {
            Some(v) => {
                incidence = incidence.with_type(IId(v));
            },
            None => {
                return Err(ApiError::InvalidTypeId);
            },
        },
        None => {},
    }
    match args {
        Some(a) => {
            let rs: Vec<i32> = match roles {
                Some(r) => r,
                None => Vec::new(),
            };
            let n = if a.len() < rs.len() { a.len() } else { rs.len() };
            match parse_args(&a, n) {
                Some(ids) => {
                    let ghost m0 = incidence.model();
                    let mut k: usize = 0;
                    while k < n
                        invariant
                            n <= ids@.len(),
                            n <= rs@.len(),
                            k <= n,
                            incidence.model() == (IncidenceModel {
                                args: ids@.subrange(0, k as int),
                                roles: rs@.subrange(0, k as int).map_values(|r: i32| RoleId(r as u32)),
                                ..m0
                            }),
                            m0.args == Seq::<IId>::empty(),
                            m0.roles == Seq::<RoleId>::empty(),
                        decreases n - k,
                    {
                        incidence = incidence.add_arg(ids[k], RoleId(rs[k] as u32));
                        k = k + 1;
                        assert(incidence.model().args =~= ids@.subrange(0, k as int));
                        assert(incidence.model().roles
                            =~= rs@.subrange(0, k as int).map_values(|r: i32| RoleId(r as u32)));
                    }
                    assert(ids@.subrange(0, n as int) =~= ids@);
                },
                None => {
                    return Err(ApiError::InvalidArgId);
                },
            }
        },
        None => {},
    }
    match value {
        Some(v) => {
            incidence = incidence.with_val(convert_value_input(v));
        },
        None => {},
    }
    match embedding {
        Some(e) => {
            incidence = incidence.with_embedding(e);
        },
        None => {},
    }
    Ok(incidence)
}

impl Mutation {
    /// Adds an incidence described by request fields and answers with it.
    ///
    /// Without `id` a fresh identifier is taken first (even when a later
    /// field is refused). The type and then the arguments are parsed; the
    /// arguments are paired with `roles` up to the shorter list. The answer
    /// shows the incidence as built, before the graph assigns an identifier
    /// to one given as `0`.
    pub fn add_incidence(
        &self,
        graph: &mut WorldGraph,
        id: Option<String>,
        level: i32,
        type_id: Option<String>,
        args: Option<Vec<String>>,
        roles: Option<Vec<i32>>,
        value: Option<ValueInput>,
        embedding: Option<Vec<u32>>,
    ) -> (r: Result<IncidenceType, ApiError>)
        requires
            old(graph).wf(),
            request_fits(old(graph)@, match id { Some(s) => Some(s@), None => None }),
        ensures
            final(graph).wf(),
            match request_id(old(graph)@, match id { Some(s) => Some(s@), None => None }) {
                None => r == Err::<IncidenceType, ApiError>(ApiError::InvalidId) && final(graph)@ == old(graph)@,
                Some((g1, iid)) => match requested_incidence(
                    iid,
                    level,
                    match type_id { Some(t) => Some(t@), None => None },
                    match args { Some(a) => Some(texts_of(a@)), None => None },
                    match roles { Some(r) => Some(r@), None => None },
                    match value { Some(v) => Some(v.value_spec()), None => None },
                    opt_vec_model(embedding),
                ) {
                    Err(e) => r == Err::<IncidenceType, ApiError>(e) && final(graph)@ == g1,
                    Ok(m) => (r matches Ok(t) && t.model() == incidence_type_of(m)) && final(graph)@ == g1.added(m),
                },
            },
    {
        let iid = match id {
            Some(s) => match parse_id(s.as_str()) {
                Some(v) => IId(v),
                None => {
                    return Err(ApiError::InvalidId);
                },
            },
            None => graph.new_id(),
        };
        match build_requested(iid, level, type_id, args, roles, value, embedding) {
            Ok(incidence) => {
                let answer = IncidenceType::from_incidence(&incidence);
                graph.add_incidence(incidence);
                Ok(answer)
            },
            Err(e) => Err(e),
        }
    }

    /// Loads the people-and-companies data set (see [`sample_rows`]).
    pub fn load_sample_data(&self, graph: &mut WorldGraph) -> (r: SampleDataResult)
        requires
            old(graph).wf(),
            old(graph)@.next_id + 6 <= u64::MAX,
        ensures
            final(graph).wf(),
            final(graph)@ == add_rows(old(graph)@, sample_rows()),
            r.created_count == 6,
            r.created_ids@.map_values(|s: String| s@) == row_ids(old(graph)@.next_id as nat, 6),
    {
        load_sample_data(graph)
    }

    /// Loads the crypto-asset investigation data set (see [`crypto_rows`]).
    pub fn load_crypto_investigation_data(&self, graph: &mut WorldGraph) -> (r: SampleDataResult)
        requires
            old(graph).wf(),
            old(graph)@.next_id + 20 <= u64::MAX,
        ensures
            final(graph).wf(),
            final(graph)@ == add_rows(old(graph)@, crypto_rows()),
            r.created_count == 20,
            r.created_ids@.map_values(|s: String| s@) == row_ids(old(graph)@.next_id as nat, 20),
    {
        load_crypto_investigation_data(graph)
    }
}

impl Mutation {
    /// Runs the write benchmark (see [`BenchmarkMutation::benchmark_write`]).
    pub fn benchmark_write(
        &self,
        graph: &mut WorldGraph,
        config: &WriteBenchmarkConfig,
        embeddings: Vec<Vec<u32>>,
    ) -> (r: WriteReport)
        requires
            old(graph).wf(),
            write_allowed(old(graph)@, *config, embeddings@),
        ensures
            final(graph).wf(),
            write_answer(old(graph)@, final(graph)@, *config, embeddings@, r),
    {
        self.benchmark.benchmark_write(graph, config, embeddings)
    }

    /// Runs the read benchmark (see [`BenchmarkMutation::benchmark_read`]).
    pub fn benchmark_read(&self, graph: &WorldGraph, config: &ReadBenchmarkConfig, hashes: &[u64]) -> (r: Result<
        ReadReport,
        ApiError,
    >)
        requires
            graph.wf(),
            hashes@.len() == config.queries(),
        ensures
            read_answer(graph@, *config, hashes@, r),
    {
        self.benchmark.benchmark_read(graph, config, hashes)
    }

    /// Runs the multi-hop benchmark (see
    /// [`BenchmarkMutation::benchmark_multi_hop`]).
    pub fn benchmark_multi_hop(&self, graph: &WorldGraph, config: &MultiHopBenchmarkConfig) -> (r: Result<
        MultiHopReport,
        ApiError,
    >)
        requires
            graph.wf(),
            multi_hop_fits(graph@, *config),
        ensures
            multi_hop_answer(graph@, *config, r),
    {
        self.benchmark.benchmark_multi_hop(graph, config)
    }

    /// Clears the graph (see [`BenchmarkMutation::clear_graph`]).
    pub fn benchmark_clear_graph(&self, graph: &mut WorldGraph) -> (r: bool)
        ensures
            final(graph).wf(),
            final(graph)@ == GraphModel::empty(),
            r,
    {
        self.benchmark.clear_graph(graph)
    }
}

} // verus!
