//! Benchmark workloads over the world graph: what each benchmark writes,
//! reads and traverses, and the counts it reports. Timing is measured
//! around these calls by the caller.

use vstd::prelude::*;
use crate::model::incidence::{IId, Incidence, IncidenceModel, Level, RoleId, opt_vec_model};
use std::collections::HashSet;
use crate::model::world_graph::{GraphModel, WorldGraph};
use crate::model::graph_laws::{lemma_add_frames_other_ids, lemma_add_well_formed, lemma_read_after_add};
use crate::api::schema::{ApiError, decimal_string};
use crate::text::decimal;

verus! {

broadcast use vstd::std_specs::hash::group_hash_axioms;

/// Settings of the write benchmark.
#[derive(Clone, Debug, PartialEq, Eq)]
pub struct WriteBenchmarkConfig {
    /// Number of incidences to write.
    pub data_size: i32,
    /// Incidences written per batch (default 100).
    pub batch_size: Option<i32>,
    /// Embedding dimension; `0` writes no embeddings (default 0).
    pub vector_dim: Option<i32>,
    /// Arguments per incidence, each linking to an earlier one (default 2).
    pub args_per_incidence: Option<i32>,
}

/// Settings of the read benchmark.
#[derive(Clone, Debug, PartialEq, Eq)]
pub struct ReadBenchmarkConfig {
    /// Size of the data set the run refers to.
    pub data_size: i32,
    /// Number of lookups (default 1000).
    pub query_count: Option<i32>,
}

/// Settings of the multi-hop benchmark.
#[derive(Clone, Debug, PartialEq, Eq)]
pub struct MultiHopBenchmarkConfig {
    /// Number of start incidences, taken from the front of the graph.
    pub start_nodes: i32,
    /// Maximum number of hops.
    pub depth: i32,
    /// Arguments followed per incidence (default 3).
    pub avg_edges: Option<i32>,
}

/// Settings of the vector hop benchmark.
#[derive(Clone, Debug, PartialEq, Eq)]
pub struct VectorHopBenchmarkConfig {
    /// Maximum number of embedded incidences searched.
    pub data_size: i32,
    /// Embedding dimension of the query.
    pub vector_dim: i32,
    /// Number of hops.
    pub depth: i32,
    /// Nearest neighbours taken per hop.
    pub k_per_hop: i32,
}

/// A key and value reported with a benchmark result.
#[derive(Clone, Debug, PartialEq)]
pub struct BenchmarkMetadata {
    pub key: String,
    pub value: String,
}

impl BenchmarkMetadata {
    /// The key and value as character sequences.
    pub open spec fn model(&self) -> (Seq<char>, Seq<char>) {
        (self.key@, self.value@)
    }
}

/// The benchmark operations.
#[derive(Clone, Copy, Debug, PartialEq, Eq)]
pub struct BenchmarkMutation;

/// An optional setting, `as usize`, or its default.
pub open spec fn setting(v: Option<i32>, default: usize) -> usize {
    match v {
        Some(x) => x as usize,
        None => default,
    }
}

fn setting_exec(v: Option<i32>, default: usize) -> (r: usize)
    ensures
        r == setting(v, default),
{
    match v {
        Some(x) => x as usize,
        None => default,
    }
}

/// A metadata entry whose value is a decimal number.
fn entry(key: &str, value: usize) -> (r: BenchmarkMetadata)
    ensures
        r.model() == (key@, decimal(value as nat)),
{
    BenchmarkMetadata { key: String::from_str(key), value: decimal_string(value as u64) }
}

/// The metadata models of `entries`.
pub open spec fn metadata_model(entries: Seq<BenchmarkMetadata>) -> Seq<(Seq<char>, Seq<char>)> {
    entries.map_values(|e: BenchmarkMetadata| e.model())
}

/// The metadata of a write run: batch size, embedding dimension and
/// arguments per incidence.
pub fn write_metadata(batch_size: usize, vector_dim: usize, per_row: usize) -> (r: Vec<BenchmarkMetadata>)
    ensures
        metadata_model(r@) == seq![
            ("batch_size"@, decimal(batch_size as nat)),
            ("vector_dim"@, decimal(vector_dim as nat)),
            ("args_per_incidence"@, decimal(per_row as nat)),
        ],
{
    let mut metadata: Vec<BenchmarkMetadata> = Vec::new();
    metadata.push(entry("batch_size", batch_size));
    metadata.push(entry("vector_dim", vector_dim));
    metadata.push(entry("args_per_incidence", per_row));
    assert(metadata_model(metadata@) =~= seq![
        ("batch_size"@, decimal(batch_size as nat)),
        ("vector_dim"@, decimal(vector_dim as nat)),
        ("args_per_incidence"@, decimal(per_row as nat)),
    ]);
    metadata
}

/// The metadata of a read run: lookups made and lookups that found an incidence.
pub fn read_metadata(query_count: usize, successful_reads: usize) -> (r: Vec<BenchmarkMetadata>)
    ensures
        metadata_model(r@) == seq![
            ("query_count"@, decimal(query_count as nat)),
            ("successful_reads"@, decimal(successful_reads as nat)),
        ],
{
    let mut metadata: Vec<BenchmarkMetadata> = Vec::new();
    metadata.push(entry("query_count", query_count));
    metadata.push(entry("successful_reads", successful_reads));
    assert(metadata_model(metadata@) =~= seq![
        ("query_count"@, decimal(query_count as nat)),
        ("successful_reads"@, decimal(successful_reads as nat)),
    ]);
    metadata
}

/// The metadata of a multi-hop run.
pub fn multi_hop_metadata(start_nodes: usize, depth: usize, total_hops: usize, total_nodes: usize) -> (r: Vec<
    BenchmarkMetadata,
>)
    ensures
        metadata_model(r@) == seq![
            ("start_nodes"@, decimal(start_nodes as nat)),
            ("depth"@, decimal(depth as nat)),
            ("total_hops"@, decimal(total_hops as nat)),
            ("total_nodes_visited"@, decimal(total_nodes as nat)),
        ],
{
    let mut metadata: Vec<BenchmarkMetadata> = Vec::new();
    metadata.push(entry("start_nodes", start_nodes));
    metadata.push(entry("depth", depth));
    metadata.push(entry("total_hops", total_hops));
    metadata.push(entry("total_nodes_visited", total_nodes));
    assert(metadata_model(metadata@) =~= seq![
        ("start_nodes"@, decimal(start_nodes as nat)),
        ("depth"@, decimal(depth as nat)),
        ("total_hops"@, decimal(total_hops as nat)),
        ("total_nodes_visited"@, decimal(total_nodes as nat)),
    ]);
    metadata
}

/// The number of neighbours each vector hop returns: `k`, or all `found`
/// candidates when there are fewer.
pub open spec fn hop_width(k_per_hop: usize, found: usize) -> nat {
    if k_per_hop < found { k_per_hop as nat } else { found as nat }
}

/// The counts of a vector hop run over `found` candidates: one search per
/// hop, and each hop returns `min(k_per_hop, found)` neighbours.
pub fn vector_hop_counts(depth: usize, k_per_hop: usize, found: usize) -> (r: (usize, usize))
    requires
        depth * hop_width(k_per_hop, found) <= usize::MAX,
    ensures
        r.0 == depth,
        r.1 == depth * hop_width(k_per_hop, found),
{
    let width = if k_per_hop < found { k_per_hop } else { found };
    let mut total_hops: usize = 0;
    let mut hop: usize = 0;
    while hop < depth
        invariant
            hop <= depth,
            width == hop_width(k_per_hop, found),
            depth * width <= usize::MAX,
            total_hops == hop * width,
        decreases depth - hop,
    {
        assert((hop + 1) * width <= depth * width) by (nonlinear_arith)
            requires hop + 1 <= depth;
        assert((hop + 1) * width == hop * width + width) by (nonlinear_arith);
        total_hops = total_hops + width;
        hop = hop + 1;
    }
    (depth, total_hops)
}

/// The metadata of a vector hop run.
pub fn vector_hop_metadata(
    vector_dim: usize,
    depth: usize,
    k_per_hop: usize,
    total_searches: usize,
    total_hops: usize,
) -> (r: Vec<BenchmarkMetadata>)
    ensures
        metadata_model(r@) == seq![
            ("vector_dim"@, decimal(vector_dim as nat)),
            ("depth"@, decimal(depth as nat)),
            ("k_per_hop"@, decimal(k_per_hop as nat)),
            ("total_searches"@, decimal(total_searches as nat)),
            ("total_hops"@, decimal(total_hops as nat)),
        ],
{
    let mut metadata: Vec<BenchmarkMetadata> = Vec::new();
    metadata.push(entry("vector_dim", vector_dim));
    metadata.push(entry("depth", depth));
    metadata.push(entry("k_per_hop", k_per_hop));
    metadata.push(entry("total_searches", total_searches));
    metadata.push(entry("total_hops", total_hops));
    assert(metadata_model(metadata@) =~= seq![
        ("vector_dim"@, decimal(vector_dim as nat)),
        ("depth"@, decimal(depth as nat)),
        ("k_per_hop"@, decimal(k_per_hop as nat)),
        ("total_searches"@, decimal(total_searches as nat)),
        ("total_hops"@, decimal(total_hops as nat)),
    ]);
    metadata
}

/// How many earlier incidences row `i` links to.
pub open spec fn bench_arg_count(i: nat, per_row: nat) -> nat {
    if per_row > 0 && i > 0 {
        if per_row < i { per_row } else { i }
    } else {
        0
    }
}

/// Row `i` of the write benchmark, stored under `id`: level zero, linked to
/// the identifiers `i, i - 1, ...` with roles `0, 1, ..., 9, 0, ...`.
pub open spec fn bench_row(id: IId, i: nat, per_row: nat, embedding: Option<Seq<u32>>) -> IncidenceModel {
    let n = bench_arg_count(i, per_row);
    IncidenceModel {
        id,
        level: Level(0),
        ty: None,
        args: Seq::new(n, |j: int| IId((i - j) as u64)),
        roles: Seq::new(n, |j: int| RoleId((j % 10) as u32)),
        val: None,
        embedding,
    }
}

/// The graph after writing rows `0 .. n`: each row takes a fresh identifier
/// and is then added; `embeddings`, when given, holds each row's embedding.
pub open spec fn write_rows(g: GraphModel, n: nat, per_row: nat, embeddings: Option<Seq<Seq<u32>>>) -> GraphModel
    decreases n,
{
    if n == 0 {
        g
    } else {
        let h = write_rows(g, (n - 1) as nat, per_row, embeddings);
        let id = IId(h.next_id);
        let h1 = GraphModel { next_id: (h.next_id + 1) as u64, ..h };
        h1.added(
            bench_row(
                id,
                (n - 1) as nat,
                per_row,
                match embeddings {
                    Some(e) => Some(e[n - 1]),
                    None => None,
                },
            ),
        )
    }
}

/// Whether every batch `start .. start + batch` with `start < data` can be
/// delimited without overflow.
pub open spec fn batches_fit(start: nat, data: nat, batch: nat) -> bool
    decreases data + batch - start,
{
    if batch == 0 || start >= data {
        true
    } else {
        start + batch <= usize::MAX && batches_fit(start + batch, data, batch)
    }
}

/// Counts of a write benchmark run.
#[derive(Clone, Debug, PartialEq)]
pub struct WriteReport {
    pub total_written: usize,
    pub metadata: Vec<BenchmarkMetadata>,
}

/// Row `i` of the write benchmarks, stored under `id`: level zero, linked
/// to the identifiers `i, i - 1, ...` (up to `per_row` of them) with roles
/// `0, 1, ..., 9, 0, ...`, carrying `embedding`.
pub fn benchmark_row(id: IId, i: usize, per_row: usize, embedding: Option<Vec<u32>>) -> (r: Incidence)
    ensures
        r.model() == bench_row(id, i as nat, per_row as nat, opt_vec_model(embedding)),
{
    let mut inc = Incidence::new(id, Level::zero());
    match embedding {
        Some(e) => {
            inc = inc.with_embedding(e);
        },
        None => {},
    }
    if per_row > 0 && i > 0 {
        let n = if per_row < i { per_row } else { i };
        let mut j: usize = 0;
        while j < n
            invariant
                j <= n,
                n == bench_arg_count(i as nat, per_row as nat),
                inc.model() == (IncidenceModel {
                    args: Seq::new(j as nat, |q: int| IId((i - q) as u64)),
                    roles: Seq::new(j as nat, |q: int| RoleId((q % 10) as u32)),
                    ..bench_row(id, i as nat, per_row as nat, opt_vec_model(embedding))
                }),
            decreases n - j,
        {
            inc = inc.add_arg(IId((i - j) as u64), RoleId((j % 10) as u32));
            j = j + 1;
            assert(inc.model().args =~= Seq::new(j as nat, |q: int| IId((i - q) as u64)));
            assert(inc.model().roles =~= Seq::new(j as nat, |q: int| RoleId((q % 10) as u32)));
        }
        assert(inc.model() =~= bench_row(id, i as nat, per_row as nat, opt_vec_model(embedding)));
    } else {
        assert(inc.model() =~= bench_row(id, i as nat, per_row as nat, opt_vec_model(embedding)));
    }
    inc
}

/// Takes the vector at `i` out of `v`, leaving an empty one in its place.
fn take_at(v: &mut Vec<Vec<u32>>, i: usize) -> (r: Vec<u32>)
    requires
        i < old(v)@.len(),
    ensures
        r@ == old(v)@[i as int]@,
        final(v)@.len() == old(v)@.len(),
        forall|q: int| 0 <= q < old(v)@.len() && q != i ==> #[trigger] final(v)@[q] == old(v)@[q],
{
    let mut e: Vec<u32> = Vec::new();
    std::mem::swap(&mut e, &mut v[i]);
    e
}

impl WriteBenchmarkConfig {
    /// The number of rows.
    pub open spec fn rows(&self) -> usize {
        self.data_size as usize
    }

    /// The batch size.
    pub open spec fn batch(&self) -> usize {
        setting(self.batch_size, 100)
    }

    /// The embedding dimension.
    pub open spec fn dim(&self) -> usize {
        setting(self.vector_dim, 0)
    }

    /// The number of arguments per row.
    pub open spec fn per_row(&self) -> usize {
        setting(self.args_per_incidence, 2)
    }
}

/// The inputs the write benchmark runs on: a positive batch size whose
/// batch starts fit in `usize`, identifiers for every row, and, with a
/// positive dimension, one embedding of that dimension per row.
pub open spec fn write_allowed(g: GraphModel, config: WriteBenchmarkConfig, embeddings: Seq<Vec<u32>>) -> bool {
    &&& config.batch() > 0
    &&& batches_fit(0, config.rows() as nat, config.batch() as nat)
    &&& g.next_id + config.rows() <= u64::MAX
    &&& config.dim() > 0 ==> embeddings.len() == config.rows()
    &&& config.dim() > 0 ==> forall|i: int| 0 <= i < embeddings.len() ==> #[trigger] embeddings[i]@.len() == config.dim()
}

/// What the write benchmark leaves and reports: the graph `g0` with the
/// rows written into it, every row counted, and the settings as metadata.
pub open spec fn write_answer(
    g0: GraphModel,
    g1: GraphModel,
    config: WriteBenchmarkConfig,
    embeddings: Seq<Vec<u32>>,
    r: WriteReport,
) -> bool {
    &&& g1 == write_rows(
        g0,
        config.rows() as nat,
        config.per_row() as nat,
        if config.dim() > 0 {
            Some(embeddings.map_values(|e: Vec<u32>| e@))
        } else {
            None
        },
    )
    &&& r.total_written == config.rows()
    &&& metadata_model(r.metadata@) == seq![
        ("batch_size"@, decimal(config.batch() as nat)),
        ("vector_dim"@, decimal(config.dim() as nat)),
        ("args_per_incidence"@, decimal(config.per_row() as nat)),
    ]
}

impl BenchmarkMutation {
    /// The write benchmark: writes rows `0 .. data_size` in batches; row
    /// `i` takes a fresh identifier, links to the identifiers `i, i - 1, ...`
    /// (up to `args_per_incidence` of them) and, when `vector_dim > 0`,
    /// carries `embeddings[i]`.
    ///
    /// A batch size of `0` is refused by the caller, as `step_by(0)` is.
    pub fn benchmark_write(
        &self,
        graph: &mut WorldGraph,
        config: &WriteBenchmarkConfig,
        embeddings: Vec<Vec<u32>>,
    ) -> (r: WriteReport)
        requires
            old(graph).wf(),
            write_allowed(old(graph)@, *config, embeddings@),
        ensures
            final(graph).wf(),
            write_answer(old(graph)@, final(graph)@, *config, embeddings@, r),
    {
        let data_size = config.data_size as usize;
        let batch_size = setting_exec(config.batch_size, 100);
        let vector_dim = setting_exec(config.vector_dim, 0);
        let per_row = setting_exec(config.args_per_incidence, 2);
        let ghost g0 = graph@;
        let ghost embs = if vector_dim > 0 {
            Some(embeddings@.map_values(|e: Vec<u32>| e@))
        } else {
            None::<Seq<Seq<u32>>>
        };
        let mut pool = embeddings;
        let mut total_written: usize = 0;
        let mut batch_start: usize = 0;
        while batch_start < data_size
            invariant
                graph.wf(),
                batch_size > 0,
                batches_fit(batch_start as nat, data_size as nat, batch_size as nat),
                g0.next_id + data_size <= u64::MAX,
                total_written == if batch_start < data_size { batch_start } else { data_size },
                graph@ == write_rows(g0, total_written as nat, per_row as nat, embs),
                graph@.next_id == g0.next_id + total_written,
                vector_dim > 0 ==> pool@.len() == data_size,
                vector_dim > 0 ==> embs == Some(embeddings@.map_values(|e: Vec<u32>| e@)),
                vector_dim == 0 ==> embs is None,
                vector_dim > 0 ==> forall|q: int| total_written <= q < pool@.len() ==> #[trigger] pool@[q]@ == embs->0[q],
            decreases data_size - total_written,
        {
            assert(batch_start + batch_size <= usize::MAX && batches_fit(
                (batch_start + batch_size) as nat,
                data_size as nat,
                batch_size as nat,
            ));
            let batch_end = if batch_start + batch_size < data_size { batch_start + batch_size } else { data_size };
            let mut i: usize = batch_start;
            while i < batch_end
                invariant
                    graph.wf(),
                    batch_start <= i <= batch_end <= data_size,
                    total_written == i,
                    g0.next_id + data_size <= u64::MAX,
                    graph@ == write_rows(g0, i as nat, per_row as nat, embs),
                    graph@.next_id == g0.next_id + i,
                    vector_dim > 0 ==> pool@.len() == data_size,
                    vector_dim > 0 ==> embs == Some(embeddings@.map_values(|e: Vec<u32>| e@)),
                    vector_dim == 0 ==> embs is None,
                    vector_dim > 0 ==> forall|q: int| i <= q < pool@.len() ==> #[trigger] pool@[q]@ == embs->0[q],
                decreases batch_end - i,
            {
                let ghost h = graph@;
                let id = graph.new_id();
                let embedding = if vector_dim > 0 {
                    let e = take_at(&mut pool, i);
                    Some(e)
                } else {
                    None
                };
                let row = benchmark_row(id, i, per_row, embedding);
                proof {
                    if vector_dim > 0 {
                        assert(opt_vec_model(embedding) == Some(embs->0[i as int]));
                    }
                }
                graph.add_incidence(row);
                i = i + 1;
                total_written = total_written + 1;
                proof {
                    assert(graph@ == write_rows(g0, i as nat, per_row as nat, embs));
                }
            }
            batch_start = batch_start + batch_size;
        }
        let metadata = write_metadata(batch_size, vector_dim, per_row);
        WriteReport { total_written, metadata }
    }
}


/// How many of `hashes` pick an identifier that names an incidence, hash
/// `h` picking `h % n + 1`.
pub open spec fn read_hits(g: GraphModel, hashes: Seq<u64>, n: nat) -> nat
    decreases hashes.len(),
{
    if hashes.len() == 0 {
        0
    } else {
        read_hits(g, hashes.drop_last(), n) + if g.lookup(IId(((hashes.last() as nat) % n + 1) as u64)) is Some {
            1nat
        } else {
            0nat
        }
    }
}

/// Counts of a read benchmark run.
#[derive(Clone, Debug, PartialEq)]
pub struct ReadReport {
    pub graph_size: usize,
    pub successful_reads: usize,
    pub metadata: Vec<BenchmarkMetadata>,
}

impl ReadBenchmarkConfig {
    /// The number of lookups.
    pub open spec fn queries(&self) -> usize {
        setting(self.query_count, 1000)
    }
}

/// What the read benchmark answers on `g` with the probe hashes `hashes`:
/// an empty graph is refused; otherwise the graph size, the lookups that
/// found an incidence, and both as metadata.
pub open spec fn read_answer(
    g: GraphModel,
    config: ReadBenchmarkConfig,
    hashes: Seq<u64>,
    r: Result<ReadReport, ApiError>,
) -> bool {
    &&& g.incs.len() == 0 ==> r == Err::<ReadReport, ApiError>(ApiError::EmptyGraph)
    &&& g.incs.len() > 0 ==> (r matches Ok(rep) && {
        let hits = read_hits(g, hashes, g.incs.len());
        &&& rep.graph_size == g.incs.len()
        &&& rep.successful_reads == hits
        &&& metadata_model(rep.metadata@) == seq![
            ("query_count"@, decimal(config.queries() as nat)),
            ("successful_reads"@, decimal(hits)),
        ]
    })
}

impl BenchmarkMutation {
    /// The read benchmark: lookup `i` probes the identifier
    /// `hashes[i] % n + 1`, where `n` is the number of stored incidences and
    /// `hashes[i]` the running hash after the first `i + 1` lookup indices;
    /// the lookups that find an incidence are counted. An empty graph is refused.
    pub fn benchmark_read(&self, graph: &WorldGraph, config: &ReadBenchmarkConfig, hashes: &[u64]) -> (r: Result<
        ReadReport,
        ApiError,
    >)
        requires
            graph.wf(),
            hashes@.len() == config.queries(),
        ensures
            read_answer(graph@, *config, hashes@, r),
    {
        let query_count = setting_exec(config.query_count, 1000);
        let graph_size = graph.len();
        if graph_size == 0 {
            return Err(ApiError::EmptyGraph);
        }
        let mut total_read: usize = 0;
        let mut i: usize = 0;
        while i < hashes.len()
            invariant
                graph.wf(),
                graph_size == graph@.incs.len(),
                graph_size > 0,
                i <= hashes@.len(),
                total_read == read_hits(graph@, hashes@.subrange(0, i as int), graph_size as nat),
                total_read <= i,
            decreases hashes@.len() - i,
        {
            proof {
                let sub = hashes@.subrange(0, i + 1);
                assert(sub.drop_last() =~= hashes@.subrange(0, i as int));
                assert(sub.last() == hashes@[i as int]);
            }
            let probe = IId(hashes[i] % (graph_size as u64) + 1);
            if graph.get(probe).is_some() {
                total_read = total_read + 1;
            }
            i = i + 1;
        }
        assert(hashes@.subrange(0, hashes@.len() as int) =~= hashes@);
        let metadata = read_metadata(query_count, total_read);
        Ok(ReadReport { graph_size, successful_reads: total_read, metadata })
    }
}


/// The arguments of `m` that a hop follows: at most the first `avg`.
pub open spec fn hop_edges(m: IncidenceModel, avg: nat) -> Seq<IId> {
    if avg < m.args.len() { m.args.subrange(0, avg as int) } else { m.args }
}

/// Follows `edges[k..]` in order: an edge to an unseen identifier that names
/// an incidence is marked seen and appended to the next level.
pub open spec fn visit_edges(g: GraphModel, edges: Seq<IId>, k: nat, seen: Set<u64>, next: Seq<IId>) -> (Set<u64>, Seq<IId>)
    decreases edges.len() - k,
{
    if k >= edges.len() {
        (seen, next)
    } else {
        let e = edges[k as int];
        if !seen.contains(e.0) && g.lookup(e) is Some {
            visit_edges(g, edges, k + 1, seen.insert(e.0), next.push(e))
        } else {
            visit_edges(g, edges, k + 1, seen, next)
        }
    }
}

/// Visits the nodes `level[q..]` in order, following the hop edges of each
/// node that names an incidence.
pub open spec fn visit_level(g: GraphModel, level: Seq<IId>, q: nat, seen: Set<u64>, next: Seq<IId>, avg: nat) -> (Set<u64>, Seq<IId>)
    decreases level.len() - q,
{
    if q >= level.len() {
        (seen, next)
    } else {
        match g.lookup(level[q as int]) {
            Some(m) => {
                let (s1, n1) = visit_edges(g, hop_edges(m, avg), 0, seen, next);
                visit_level(g, level, q + 1, s1, n1, avg)
            },
            None => visit_level(g, level, q + 1, seen, next, avg),
        }
    }
}

/// At most `depth` hops from `level`, stopping early at an empty level: the
/// identifiers seen at the end and the number of hops made.
pub open spec fn hop_run(g: GraphModel, level: Seq<IId>, seen: Set<u64>, depth: nat, avg: nat) -> (Set<u64>, nat)
    decreases depth,
{
    if depth == 0 {
        (seen, 0)
    } else {
        let (s1, next) = visit_level(g, level, 0, seen, Seq::empty(), avg);
        if next.len() == 0 {
            (s1, 0)
        } else {
            let (s2, h) = hop_run(g, next, s1, (depth - 1) as nat, avg);
            (s2, next.len() + h)
        }
    }
}

/// The hops from one start incidence.
pub open spec fn start_run(g: GraphModel, start: IId, depth: nat, avg: nat) -> (Set<u64>, nat) {
    hop_run(g, seq![start], Set::empty().insert(start.0), depth, avg)
}

/// Totals over `starts[k..]` added to `(hops, nodes)`: the hops made and the
/// identifiers seen, summed over the start incidences.
pub open spec fn hop_totals(g: GraphModel, starts: Seq<IId>, k: nat, hops: nat, nodes: nat, depth: nat, avg: nat) -> (nat, nat)
    decreases starts.len() - k,
{
    if k >= starts.len() {
        (hops, nodes)
    } else {
        let (seen, h) = start_run(g, starts[k as int], depth, avg);
        hop_totals(g, starts, k + 1, hops + h, nodes + seen.len(), depth, avg)
    }
}

/// The identifiers of the first `n` incidences.
pub open spec fn start_ids(g: GraphModel, n: nat) -> Seq<IId> {
    let front = if n < g.incs.len() { g.incs.subrange(0, n as int) } else { g.incs };
    front.map_values(|m: IncidenceModel| m.id)
}

pub(crate) proof fn lemma_visit_edges_grows(g: GraphModel, edges: Seq<IId>, k: nat, seen: Set<u64>, next: Seq<IId>)
    ensures
        visit_edges(g, edges, k, seen, next).1.len() >= next.len(),
    decreases edges.len() - k,
{
    if k < edges.len() {
        let e = edges[k as int];
        if !seen.contains(e.0) && g.lookup(e) is Some {
            lemma_visit_edges_grows(g, edges, k + 1, seen.insert(e.0), next.push(e));
        } else {
            lemma_visit_edges_grows(g, edges, k + 1, seen, next);
        }
    }
}

pub(crate) proof fn lemma_visit_level_grows(g: GraphModel, level: Seq<IId>, q: nat, seen: Set<u64>, next: Seq<IId>, avg: nat)
    ensures
        visit_level(g, level, q, seen, next, avg).1.len() >= next.len(),
    decreases level.len() - q,
{
    if q < level.len() {
        match g.lookup(level[q as int]) {
            Some(m) => {
                lemma_visit_edges_grows(g, hop_edges(m, avg), 0, seen, next);
                let (s1, n1) = visit_edges(g, hop_edges(m, avg), 0, seen, next);
                lemma_visit_level_grows(g, level, q + 1, s1, n1, avg);
            },
            None => lemma_visit_level_grows(g, level, q + 1, seen, next, avg),
        }
    }
}

proof fn lemma_hop_totals_grow(g: GraphModel, starts: Seq<IId>, k: nat, hops: nat, nodes: nat, depth: nat, avg: nat)
    ensures
        hop_totals(g, starts, k, hops, nodes, depth, avg).0 >= hops,
        hop_totals(g, starts, k, hops, nodes, depth, avg).1 >= nodes,
    decreases starts.len() - k,
{
    if k < starts.len() {
        let (seen, h) = start_run(g, starts[k as int], depth, avg);
        lemma_hop_totals_grow(g, starts, k + 1, hops + h, nodes + seen.len(), depth, avg);
    }
}

/// Counts of a multi-hop benchmark run.
#[derive(Clone, Debug, PartialEq)]
pub struct MultiHopReport {
    pub graph_size: usize,
    pub total_hops: usize,
    pub total_nodes_visited: usize,
    pub metadata: Vec<BenchmarkMetadata>,
}

impl MultiHopBenchmarkConfig {
    /// The number of start incidences asked for.
    pub open spec fn starts(&self) -> usize {
        self.start_nodes as usize
    }

    /// The maximum number of hops.
    pub open spec fn hops(&self) -> usize {
        self.depth as usize
    }

    /// The number of arguments followed per incidence.
    pub open spec fn edges(&self) -> usize {
        setting(self.avg_edges, 3)
    }
}

/// The hop and visit totals of the multi-hop benchmark on `g`.
pub open spec fn multi_hop_totals(g: GraphModel, config: MultiHopBenchmarkConfig) -> (nat, nat) {
    hop_totals(g, start_ids(g, config.starts() as nat), 0, 0, 0, config.hops() as nat, config.edges() as nat)
}

/// Whether both totals of the multi-hop benchmark on `g` fit in `usize`.
pub open spec fn multi_hop_fits(g: GraphModel, config: MultiHopBenchmarkConfig) -> bool {
    multi_hop_totals(g, config).0 <= usize::MAX && multi_hop_totals(g, config).1 <= usize::MAX
}

/// What the multi-hop benchmark answers on `g`: an empty graph is refused;
/// otherwise the graph size, both totals, and the settings and totals as
/// metadata.
pub open spec fn multi_hop_answer(g: GraphModel, config: MultiHopBenchmarkConfig, r: Result<MultiHopReport, ApiError>) -> bool {
    &&& g.incs.len() == 0 ==> r == Err::<MultiHopReport, ApiError>(ApiError::EmptyGraph)
    &&& g.incs.len() > 0 ==> (r matches Ok(rep) && {
        let t = multi_hop_totals(g, config);
        &&& rep.graph_size == g.incs.len()
        &&& rep.total_hops == t.0
        &&& rep.total_nodes_visited == t.1
        &&& metadata_model(rep.metadata@) == seq![
            ("start_nodes"@, decimal(config.starts() as nat)),
            ("depth"@, decimal(config.hops() as nat)),
            ("total_hops"@, decimal(t.0)),
            ("total_nodes_visited"@, decimal(t.1)),
        ]
    })
}

impl BenchmarkMutation {
    /// The multi-hop benchmark: from each of the first `start_nodes`
    /// incidences, hops level by level along the first `avg_edges` arguments
    /// of each reached incidence to unseen identifiers that name an
    /// incidence, at most `depth` times, stopping at an empty level. Reports
    /// the hops made and the identifiers seen, summed over the starts. An
    /// empty graph is refused.
    ///
    /// The counters are `usize`, so both totals must fit.
    pub fn benchmark_multi_hop(&self, graph: &WorldGraph, config: &MultiHopBenchmarkConfig) -> (r: Result<
        MultiHopReport,
        ApiError,
    >)
        requires
            graph.wf(),
            multi_hop_fits(graph@, *config),
        ensures
            multi_hop_answer(graph@, *config, r),
    {
        let start_nodes = config.start_nodes as usize;
        let depth = config.depth as usize;
        let avg_edges = setting_exec(config.avg_edges, 3);
        if graph.len() == 0 {
            return Err(ApiError::EmptyGraph);
        }
        let ghost g = graph@;
        let ghost avg = avg_edges as nat;
        let all = graph.iter();
        let take = if start_nodes < all.len() { start_nodes } else { all.len() };
        let mut starts: Vec<IId> = Vec::new();
        let mut k: usize = 0;
        while k < take
            invariant
                take <= all@.len(),
                take as nat == (if (start_nodes as nat) < g.incs.len() { start_nodes as nat } else { g.incs.len() }),
                all@.map_values(|i: Incidence| i.model()) == g.incs,
                k <= take,
                starts@ == g.incs.subrange(0, k as int).map_values(|m: IncidenceModel| m.id),
            decreases take - k,
        {
            assert(g.incs[k as int] == all@[k as int].model());
            starts.push(all[k].id);
            k = k + 1;
            assert(starts@ =~= g.incs.subrange(0, k as int).map_values(|m: IncidenceModel| m.id));
        }
        assert(starts@ =~= start_ids(g, start_nodes as nat));
        let ghost fin = hop_totals(g, starts@, 0, 0, 0, depth as nat, avg);
        let mut total_hops: usize = 0;
        let mut total_nodes: usize = 0;
        let mut si: usize = 0;
        while si < starts.len()
            invariant
                graph.wf(),
                g == graph@,
                avg == avg_edges as nat,
                si <= starts@.len(),
                fin.0 <= usize::MAX,
                fin.1 <= usize::MAX,
                hop_totals(g, starts@, si as nat, total_hops as nat, total_nodes as nat, depth as nat, avg) == fin,
            decreases starts@.len() - si,
        {
            let s = starts[si];
            let ghost run = start_run(g, s, depth as nat, avg);
            proof {
                lemma_hop_totals_grow(g, starts@, (si + 1) as nat, (total_hops + run.1) as nat, (total_nodes + run.0.len()) as nat, depth as nat, avg);
            }
            let ghost base = total_hops;
            let mut current: Vec<IId> = Vec::new();
            current.push(s);
            let mut visited: HashSet<u64> = HashSet::new();
            visited.insert(s.0);
            proof {
                assert(current@ =~= seq![s]);
                assert(visited@ =~= Set::<u64>::empty().insert(s.0));
            }
            let mut hop: usize = 0;
            let mut stop = false;
            while hop < depth && !stop
                invariant
                    graph.wf(),
                    g == graph@,
                    avg == avg_edges as nat,
                    hop <= depth,
                    base + run.1 <= usize::MAX,
                    total_hops >= base,
                    !stop ==> hop_run(g, current@, visited@, (depth - hop) as nat, avg)
                        == (run.0, (run.1 - (total_hops - base)) as nat),
                    !stop ==> total_hops - base <= run.1,
                    stop ==> visited@ == run.0 && total_hops - base == run.1,
                decreases depth - hop,
            {
                let ghost lvl = visit_level(g, current@, 0, visited@, Seq::empty(), avg);
                let ghost hops_before = total_hops;
                proof {
                    lemma_visit_level_grows(g, current@, 0, visited@, Seq::empty(), avg);
                    if lvl.1.len() > 0 {
                        assert(hop_run(g, current@, visited@, (depth - hop) as nat, avg).1
                            == lvl.1.len() + hop_run(g, lvl.1, lvl.0, (depth - hop - 1) as nat, avg).1);
                    }
                }
                let mut next: Vec<IId> = Vec::new();
                let mut q: usize = 0;
                while q < current.len()
                    invariant
                        graph.wf(),
                        g == graph@,
                        avg == avg_edges as nat,
                        q <= current@.len(),
                        visit_level(g, current@, q as nat, visited@, next@, avg) == lvl,
                        total_hops == hops_before + next@.len(),
                        hops_before + lvl.1.len() <= usize::MAX,
                    decreases current@.len() - q,
                {
                    match graph.get(current[q]) {
                        Some(inc) => {
                            let ghost m = inc.model();
                            let n_edges = if avg_edges < inc.args.len() { avg_edges } else { inc.args.len() };
                            let ghost edges = hop_edges(m, avg);
                            assert(edges.len() == n_edges);
                            let ghost after = visit_edges(g, edges, 0, visited@, next@);
                            let mut e: usize = 0;
                            while e < n_edges
                                invariant
                                    graph.wf(),
                                    g == graph@,
                                    m == inc.model(),
                                    n_edges <= inc.args@.len(),
                                    edges == hop_edges(m, avg),
                                    edges.len() == n_edges,
                                    e <= n_edges,
                                    visit_edges(g, edges, e as nat, visited@, next@) == after,
                                    visit_level(g, current@, (q + 1) as nat, after.0, after.1, avg) == lvl,
                                    total_hops == hops_before + next@.len(),
                                    hops_before + lvl.1.len() <= usize::MAX,
                                decreases n_edges - e,
                            {
                                let target = inc.args[e];
                                assert(edges[e as int] == target);
                                proof {
                                    lemma_visit_edges_grows(g, edges, e as nat, visited@, next@);
                                    lemma_visit_level_grows(g, current@, (q + 1) as nat, after.0, after.1, avg);
                                }
                                if !visited.contains(&target.0) && graph.get(target).is_some() {
                                    proof {
                                        lemma_visit_edges_grows(g, edges, (e + 1) as nat, visited@.insert(target.0), next@.push(target));
                                    }
                                    visited.insert(target.0);
                                    next.push(target);
                                    total_hops = total_hops + 1;
                                }
                                e = e + 1;
                            }
                        },
                        None => {},
                    }
                    q = q + 1;
                }
                if next.len() == 0 {
                    stop = true;
                } else {
                    current = next;
                }
                hop = hop + 1;
            }
            proof {
                if !stop {
                    assert(hop == depth);
                }
            }
            total_nodes = total_nodes + visited.len();
            si = si + 1;
        }
        let metadata = multi_hop_metadata(start_nodes, depth, total_hops, total_nodes);
        Ok(MultiHopReport { graph_size: graph.len(), total_hops, total_nodes_visited: total_nodes, metadata })
    }
}


/// The first `limit` incidences of `incs` that carry an embedding, as
/// identifier and embedding, in order.
pub open spec fn embedded_prefix(incs: Seq<IncidenceModel>, limit: nat) -> Seq<(IId, Seq<u32>)>
    decreases incs.len(),
{
    if incs.len() == 0 {
        Seq::empty()
    } else {
        let rest = embedded_prefix(incs.drop_last(), limit);
        match incs.last().embedding {
            Some(e) => if rest.len() < limit { rest.push((incs.last().id, e)) } else { rest },
            None => rest,
        }
    }
}

/// The first `limit` of `incs` that carry an embedding, as identifier and
/// embedding, in order.
pub fn embedded_data(incs: &[Incidence], limit: usize) -> (r: Vec<(IId, Vec<u32>)>)
    ensures
        r@.map_values(|p: (IId, Vec<u32>)| (p.0, p.1@)) == embedded_prefix(
            incs@.map_values(|i: Incidence| i.model()),
            limit as nat,
        ),
{
    let ghost ms = incs@.map_values(|i: Incidence| i.model());
    let mut out: Vec<(IId, Vec<u32>)> = Vec::new();
    let mut k: usize = 0;
    while k < incs.len()
        invariant
            k <= incs@.len(),
            ms == incs@.map_values(|i: Incidence| i.model()),
            out@.map_values(|p: (IId, Vec<u32>)| (p.0, p.1@)) == embedded_prefix(ms.subrange(0, k as int), limit as nat),
            out@.len() <= limit,
        decreases incs@.len() - k,
    {
        assert(ms[k as int] == incs@[k as int].model());
        assert(ms.subrange(0, k + 1).drop_last() =~= ms.subrange(0, k as int));
        match &incs[k].embedding {
            Some(e) => {
                if out.len() < limit {
                    let ghost before = out@;
                    let item = (incs[k].id, crate::model::incidence::copy_u32s(e.as_slice()));
                    out.push(item);
                    assert(out@.map_values(|p: (IId, Vec<u32>)| (p.0, p.1@))
                        =~= before.map_values(|p: (IId, Vec<u32>)| (p.0, p.1@)).push((item.0, item.1@)));
                }
            },
            None => {},
        }
        k = k + 1;
    }
    assert(ms.subrange(0, incs@.len() as int) =~= ms);
    out
}

impl BenchmarkMutation {
    /// The data set of the vector hop benchmark: the first `data_size`
    /// incidences that carry an embedding, with their embeddings. A graph
    /// without any is refused.
    pub fn vector_hop_data(&self, graph: &WorldGraph, config: &VectorHopBenchmarkConfig) -> (r: Result<
        Vec<(IId, Vec<u32>)>,
        ApiError,
    >)
        ensures
            embedded_prefix(graph@.incs, config.data_size as usize as nat).len() == 0
                ==> r == Err::<Vec<(IId, Vec<u32>)>, ApiError>(ApiError::NoVectors),
            embedded_prefix(graph@.incs, config.data_size as usize as nat).len() > 0 ==> (r matches Ok(v)
                && v@.map_values(|p: (IId, Vec<u32>)| (p.0, p.1@)) == embedded_prefix(
                graph@.incs,
                config.data_size as usize as nat,
            )),
    {
        let out = embedded_data(graph.iter(), config.data_size as usize);
        if out.len() == 0 {
            Err(ApiError::NoVectors)
        } else {
            Ok(out)
        }
    }

    /// Clears the graph before a benchmark.
    pub fn clear_graph(&self, graph: &mut WorldGraph) -> (r: bool)
        ensures
            final(graph).wf(),
            final(graph)@ == GraphModel::empty(),
            r,
    {
        *graph = WorldGraph::new();
        true
    }
}


proof fn lemma_visit_edges_counts(g: GraphModel, edges: Seq<IId>, k: nat, seen: Set<u64>, next: Seq<IId>)
    requires
        seen.finite(),
    ensures
        visit_edges(g, edges, k, seen, next).0.finite(),
        visit_edges(g, edges, k, seen, next).1.len() >= next.len(),
        visit_edges(g, edges, k, seen, next).0.len() == seen.len() + visit_edges(g, edges, k, seen, next).1.len()
            - next.len(),
    decreases edges.len() - k,
{
    if k < edges.len() {
        let e = edges[k as int];
        if !seen.contains(e.0) && g.lookup(e) is Some {
            lemma_visit_edges_counts(g, edges, k + 1, seen.insert(e.0), next.push(e));
        } else {
            lemma_visit_edges_counts(g, edges, k + 1, seen, next);
        }
    }
}

proof fn lemma_visit_level_counts(g: GraphModel, level: Seq<IId>, q: nat, seen: Set<u64>, next: Seq<IId>, avg: nat)
    requires
        seen.finite(),
    ensures
        visit_level(g, level, q, seen, next, avg).0.finite(),
        visit_level(g, level, q, seen, next, avg).1.len() >= next.len(),
        visit_level(g, level, q, seen, next, avg).0.len() == seen.len() + visit_level(g, level, q, seen, next, avg).1.len()
            - next.len(),
    decreases level.len() - q,
{
    if q < level.len() {
        match g.lookup(level[q as int]) {
            Some(m) => {
                lemma_visit_edges_counts(g, hop_edges(m, avg), 0, seen, next);
                let (s1, n1) = visit_edges(g, hop_edges(m, avg), 0, seen, next);
                lemma_visit_level_counts(g, level, q + 1, s1, n1, avg);
            },
            None => lemma_visit_level_counts(g, level, q + 1, seen, next, avg),
        }
    }
}

proof fn lemma_hop_run_counts(g: GraphModel, level: Seq<IId>, seen: Set<u64>, depth: nat, avg: nat)
    requires
        seen.finite(),
    ensures
        hop_run(g, level, seen, depth, avg).0.finite(),
        hop_run(g, level, seen, depth, avg).0.len() == seen.len() + hop_run(g, level, seen, depth, avg).1,
    decreases depth,
{
    if depth > 0 {
        lemma_visit_level_counts(g, level, 0, seen, Seq::empty(), avg);
        let (s1, next) = visit_level(g, level, 0, seen, Seq::empty(), avg);
        if next.len() > 0 {
            lemma_hop_run_counts(g, next, s1, (depth - 1) as nat, avg);
        }
    }
}

proof fn lemma_hop_totals_counts(g: GraphModel, starts: Seq<IId>, k: nat, hops: nat, nodes: nat, depth: nat, avg: nat)
    requires
        k <= starts.len(),
        nodes == k + hops,
    ensures
        hop_totals(g, starts, k, hops, nodes, depth, avg).1 == starts.len() + hop_totals(g, starts, k, hops, nodes, depth, avg).0,
    decreases starts.len() - k,
{
    if k < starts.len() {
        let s = starts[k as int];
        lemma_hop_run_counts(g, seq![s], Set::empty().insert(s.0), depth, avg);
        let (seen, h) = start_run(g, s, depth, avg);
        assert(Set::<u64>::empty().insert(s.0).len() == 1);
        lemma_hop_totals_counts(g, starts, k + 1, hops + h, nodes + seen.len(), depth, avg);
    }
}

/// In the multi-hop benchmark, each start incidence is seen once and each
/// hop sees one new identifier: the identifiers seen, summed over the
/// starts, are the number of starts plus the number of hops.
pub proof fn lemma_nodes_visited_are_starts_plus_hops(g: GraphModel, starts: Seq<IId>, depth: nat, avg: nat)
    ensures
        hop_totals(g, starts, 0, 0, 0, depth, avg).1 == starts.len() + hop_totals(g, starts, 0, 0, 0, depth, avg).0,
{
    lemma_hop_totals_counts(g, starts, 0, 0, 0, depth, avg);
}


proof fn lemma_visit_edges_within(g: GraphModel, edges: Seq<IId>, k: nat, seen: Set<u64>, next: Seq<IId>, bound: Set<u64>)
    requires
        seen.subset_of(bound),
        g.index.dom().subset_of(bound),
    ensures
        visit_edges(g, edges, k, seen, next).0.subset_of(bound),
    decreases edges.len() - k,
{
    if k < edges.len() {
        let e = edges[k as int];
        if !seen.contains(e.0) && g.lookup(e) is Some {
            assert(g.index.dom().contains(e.0));
            lemma_visit_edges_within(g, edges, k + 1, seen.insert(e.0), next.push(e), bound);
        } else {
            lemma_visit_edges_within(g, edges, k + 1, seen, next, bound);
        }
    }
}

proof fn lemma_visit_level_within(
    g: GraphModel,
    level: Seq<IId>,
    q: nat,
    seen: Set<u64>,
    next: Seq<IId>,
    avg: nat,
    bound: Set<u64>,
)
    requires
        seen.subset_of(bound),
        g.index.dom().subset_of(bound),
    ensures
        visit_level(g, level, q, seen, next, avg).0.subset_of(bound),
    decreases level.len() - q,
{
    if q < level.len() {
        match g.lookup(level[q as int]) {
            Some(m) => {
                lemma_visit_edges_within(g, hop_edges(m, avg), 0, seen, next, bound);
                let (s1, n1) = visit_edges(g, hop_edges(m, avg), 0, seen, next);
                lemma_visit_level_within(g, level, q + 1, s1, n1, avg, bound);
            },
            None => {
                lemma_visit_level_within(g, level, q + 1, seen, next, avg, bound);
            },
        }
    }
}

proof fn lemma_hop_run_within(g: GraphModel, level: Seq<IId>, seen: Set<u64>, depth: nat, avg: nat, bound: Set<u64>)
    requires
        seen.subset_of(bound),
        g.index.dom().subset_of(bound),
    ensures
        hop_run(g, level, seen, depth, avg).0.subset_of(bound),
    decreases depth,
{
    if depth > 0 {
        lemma_visit_level_within(g, level, 0, seen, Seq::empty(), avg, bound);
        let (s1, next) = visit_level(g, level, 0, seen, Seq::empty(), avg);
        if next.len() > 0 {
            lemma_hop_run_within(g, next, s1, (depth - 1) as nat, avg, bound);
        }
    }
}

/// From one start, at most one more identifier than the graph stores is seen.
proof fn lemma_start_run_bound(g: GraphModel, start: IId, depth: nat, avg: nat)
    requires
        g.well_formed(),
    ensures
        start_run(g, start, depth, avg).0.finite(),
        start_run(g, start, depth, avg).0.len() <= g.incs.len() + 1,
{
    let bound = g.index.dom().insert(start.0);
    lemma_hop_run_within(g, seq![start], Set::empty().insert(start.0), depth, avg, bound);
    vstd::set_lib::lemma_len_subset(start_run(g, start, depth, avg).0, bound);
}

proof fn lemma_hop_totals_bound(g: GraphModel, starts: Seq<IId>, k: nat, hops: nat, nodes: nat, depth: nat, avg: nat)
    requires
        g.well_formed(),
        k <= starts.len(),
    ensures
        hop_totals(g, starts, k, hops, nodes, depth, avg).1 <= nodes + (starts.len() - k) * (g.incs.len() + 1),
    decreases starts.len() - k,
{
    if k < starts.len() {
        let s = starts[k as int];
        lemma_start_run_bound(g, s, depth, avg);
        let (seen, h) = start_run(g, s, depth, avg);
        lemma_hop_totals_bound(g, starts, k + 1, hops + h, nodes + seen.len(), depth, avg);
        let n1 = g.incs.len() + 1;
        let rest = starts.len() - k;
        assert((rest - 1) * n1 + n1 == rest * n1) by (nonlinear_arith);
    }
}

/// The totals of the multi-hop benchmark fit in `usize` whenever the number
/// of stored incidences `n` satisfies `n * (n + 1) <= usize::MAX`: each
/// start sees at most `n + 1` identifiers, there are at most `n` starts, and
/// the hops are fewer than the identifiers seen.
pub proof fn lemma_multi_hop_fits(g: GraphModel, config: MultiHopBenchmarkConfig)
    requires
        g.well_formed(),
        g.incs.len() * (g.incs.len() + 1) <= usize::MAX,
    ensures
        multi_hop_fits(g, config),
{
    let starts = start_ids(g, config.starts() as nat);
    let n = g.incs.len();
    lemma_hop_totals_bound(g, starts, 0, 0, 0, config.hops() as nat, config.edges() as nat);
    lemma_nodes_visited_are_starts_plus_hops(g, starts, config.hops() as nat, config.edges() as nat);
    assert(starts.len() <= n);
    assert(starts.len() * (n + 1) <= n * (n + 1)) by (nonlinear_arith)
        requires starts.len() <= n;
}

/// The embedding of row `i`, if embeddings are written.
pub open spec fn row_embedding(embeddings: Option<Seq<Seq<u32>>>, i: nat) -> Option<Seq<u32>> {
    match embeddings {
        Some(e) => Some(e[i as int]),
        None => None,
    }
}

proof fn lemma_write_rows_state(g: GraphModel, n: nat, per_row: nat, embeddings: Option<Seq<Seq<u32>>>)
    requires
        g.well_formed(),
        g.next_id + n <= u64::MAX,
    ensures
        write_rows(g, n, per_row, embeddings).well_formed(),
        write_rows(g, n, per_row, embeddings).next_id == g.next_id + n,
    decreases n,
{
    if n > 0 {
        lemma_write_rows_state(g, (n - 1) as nat, per_row, embeddings);
        let h = write_rows(g, (n - 1) as nat, per_row, embeddings);
        let h1 = GraphModel { next_id: (h.next_id + 1) as u64, ..h };
        let row = bench_row(IId(h.next_id), (n - 1) as nat, per_row, row_embedding(embeddings, (n - 1) as nat));
        lemma_add_well_formed(h1, row);
    }
}

/// What the write benchmark leaves readable: row `i` is stored under the
/// `i`-th fresh identifier, with its arguments, roles and embedding.
pub proof fn lemma_written_rows_readable(
    g: GraphModel,
    n: nat,
    per_row: nat,
    embeddings: Option<Seq<Seq<u32>>>,
    i: nat,
)
    requires
        g.well_formed(),
        g.next_id + n <= u64::MAX,
        i < n,
    ensures
        write_rows(g, n, per_row, embeddings).lookup(IId((g.next_id + i) as u64)) == Some(
            bench_row(IId((g.next_id + i) as u64), i, per_row, row_embedding(embeddings, i)),
        ),
    decreases n,
{
    lemma_write_rows_state(g, (n - 1) as nat, per_row, embeddings);
    let h = write_rows(g, (n - 1) as nat, per_row, embeddings);
    let h1 = GraphModel { next_id: (h.next_id + 1) as u64, ..h };
    let row = bench_row(IId(h.next_id), (n - 1) as nat, per_row, row_embedding(embeddings, (n - 1) as nat));
    assert(h1.assigned_id(row) == IId(h.next_id));
    if i == n - 1 {
        lemma_read_after_add(h1, row);
    } else {
        lemma_written_rows_readable(g, (n - 1) as nat, per_row, embeddings, i);
        lemma_add_frames_other_ids(h1, row, IId((g.next_id + i) as u64));
        assert(h1.lookup(IId((g.next_id + i) as u64)) == h.lookup(IId((g.next_id + i) as u64)));
    }
}

} // verus!
