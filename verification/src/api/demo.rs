//! Demonstration data sets that the API can load into a graph: a small
//! people-and-companies set and a crypto-asset investigation set.
//!
//! A data set is a table of rows. Row `k` is stored under the `k`-th fresh
//! identifier; its type and arguments refer to earlier rows by position.
//! Embeddings are given by the bit patterns of their `f32` components.

use vstd::prelude::*;
use crate::model::incidence::{IId, Incidence, IncidenceModel, Level, RoleId, copy_u32s, opt_vec_model};
use crate::model::value::{Value, ValueModel};
use crate::model::world_graph::{GraphModel, WorldGraph};
use crate::model::graph_laws::{lemma_add_frames_other_ids, lemma_add_well_formed, lemma_read_after_add};
use crate::api::schema::decimal_string;
use crate::text::decimal;

verus! {

/// One row of a data set.
pub struct DemoRow {
    /// The row whose incidence is this row's type.
    pub ty: Option<usize>,
    /// The string value.
    pub name: String,
    /// Arguments: the row of each argument and its role.
    pub args: Vec<(usize, u32)>,
    /// The embedding, by `f32` bit patterns.
    pub embedding: Option<Vec<u32>>,
}

/// The abstract [`DemoRow`].
pub struct DemoRowModel {
    pub ty: Option<usize>,
    pub name: Seq<char>,
    pub args: Seq<(usize, u32)>,
    pub embedding: Option<Seq<u32>>,
}

impl DemoRow {
    /// The abstract row.
    pub open spec fn model(&self) -> DemoRowModel {
        DemoRowModel { ty: self.ty, name: self.name@, args: self.args@, embedding: opt_vec_model(self.embedding) }
    }
}

/// The abstract rows of a table.
pub open spec fn rows_model(rows: Seq<DemoRow>) -> Seq<DemoRowModel> {
    rows.map_values(|r: DemoRow| r.model())
}

/// A row that refers only to rows before position `k`.
pub open spec fn row_ok(r: DemoRowModel, k: nat) -> bool {
    &&& (r.ty matches Some(t) ==> t < k)
    &&& forall|j: int| 0 <= j < r.args.len() ==> #[trigger] r.args[j].0 < k
}

/// Every row refers only to earlier rows.
pub open spec fn rows_ok(rows: Seq<DemoRowModel>) -> bool {
    forall|k: int| 0 <= k < rows.len() ==> row_ok(#[trigger] rows[k], k as nat)
}

/// The incidence of row `r`, stored under `id`, rows being numbered from `base`.
pub open spec fn demo_incidence(r: DemoRowModel, id: IId, base: nat) -> IncidenceModel {
    IncidenceModel {
        id,
        level: Level(0),
        ty: match r.ty {
            Some(t) => Some(IId((base + t) as u64)),
            None => None,
        },
        args: r.args.map_values(|p: (usize, u32)| IId((base + p.0) as u64)),
        roles: r.args.map_values(|p: (usize, u32)| RoleId(p.1)),
        val: Some(ValueModel::Str(r.name)),
        embedding: r.embedding,
    }
}

/// The graph after loading `rows`: each row takes a fresh identifier and
/// is then added.
pub open spec fn add_rows(g: GraphModel, rows: Seq<DemoRowModel>) -> GraphModel
    decreases rows.len(),
{
    if rows.len() == 0 {
        g
    } else {
        let h = add_rows(g, rows.drop_last());
        let h1 = GraphModel { next_id: (h.next_id + 1) as u64, ..h };
        h1.added(demo_incidence(rows.last(), IId(h.next_id), g.next_id as nat))
    }
}

/// A row of a table.
pub open spec fn demo_row(ty: Option<usize>, name: Seq<char>, args: Seq<(usize, u32)>, embedding: Option<Seq<u32>>) -> DemoRowModel {
    DemoRowModel { ty, name, args, embedding }
}

/// The people-and-companies data set: two types, two people with
/// embeddings, a company employing both, and a `works_at` relation.
pub open spec fn sample_rows() -> Seq<DemoRowModel> {
    seq![
        demo_row(None, "Person"@, seq![], None),
        demo_row(None, "Company"@, seq![], None),
        demo_row(Some(0), "Alice"@, seq![], Some(seq![0x3dcccccdu32, 0x3e4ccccd, 0x3e99999a, 0x3ecccccd, 0x3f000000])),
        demo_row(Some(0), "Bob"@, seq![], Some(seq![0x3e4ccccdu32, 0x3e99999a, 0x3ecccccd, 0x3f000000, 0x3f19999a])),
        demo_row(Some(1), "Acme Corp"@, seq![(2usize, 1u32), (3, 1)],
            Some(seq![0x3e19999au32, 0x3e800000, 0x3eb33333, 0x3ee66666, 0x3f0ccccd])),
        demo_row(None, "works_at"@, seq![(2usize, 1u32), (4, 2)], None),
    ]
}

/// The decimal identifiers `base, base + 1, ...` of `n` loaded rows.
pub open spec fn row_ids(base: nat, n: nat) -> Seq<Seq<char>> {
    Seq::new(n, |k: int| decimal((base + k) as nat))
}

/// What loading a data set reports.
#[derive(Clone, Debug, PartialEq)]
pub struct SampleDataResult {
    pub created_count: usize,
    pub created_ids: Vec<String>,
}

/// Appends a row to a table.
fn push_row(rows: &mut Vec<DemoRow>, ty: Option<usize>, name: &str, args: Vec<(usize, u32)>, embedding: Option<Vec<u32>>)
    requires
        rows_ok(rows_model(old(rows)@)),
        row_ok(demo_row(ty, name@, args@, opt_vec_model(embedding)), old(rows)@.len()),
    ensures
        final(rows)@.len() == old(rows)@.len() + 1,
        rows_model(final(rows)@) == rows_model(old(rows)@).push(demo_row(ty, name@, args@, opt_vec_model(embedding))),
        rows_ok(rows_model(final(rows)@)),
{
    let row = DemoRow { ty, name: String::from_str(name), args, embedding };
    let ghost before = rows@;
    rows.push(row);
    assert(rows_model(rows@) =~= rows_model(before).push(row.model()));
}

/// The table of the people-and-companies data set.
fn sample_table() -> (r: Vec<DemoRow>)
    ensures
        rows_model(r@) == sample_rows(),
        rows_ok(rows_model(r@)),
{
    let mut t: Vec<DemoRow> = Vec::new();
    push_row(&mut t, None, "Person", vec![], None);
    push_row(&mut t, None, "Company", vec![], None);
    push_row(&mut t, Some(0), "Alice", vec![], Some(vec![0x3dcccccdu32, 0x3e4ccccd, 0x3e99999a, 0x3ecccccd, 0x3f000000]));
    push_row(&mut t, Some(0), "Bob", vec![], Some(vec![0x3e4ccccdu32, 0x3e99999a, 0x3ecccccd, 0x3f000000, 0x3f19999a]));
    push_row(&mut t, Some(1), "Acme Corp", vec![(2usize, 1u32), (3, 1)],
        Some(vec![0x3e19999au32, 0x3e800000, 0x3eb33333, 0x3ee66666, 0x3f0ccccd]));
    push_row(&mut t, None, "works_at", vec![(2usize, 1u32), (4, 2)], None);
    assert(rows_model(t@) =~= sample_rows());
    t
}

/// The incidence of a row, stored under `id`, rows being numbered from `base`.
fn materialize(r: &DemoRow, id: IId, base: u64, k: usize) -> (inc: Incidence)
    requires
        row_ok(r.model(), k as nat),
        base + k <= u64::MAX,
    ensures
        inc.model() == demo_incidence(r.model(), id, base as nat),
{
    let mut inc = Incidence::new(id, Level::zero());
    match r.ty {
        Some(t) => {
            inc = inc.with_type(IId(base + t as u64));
        },
        None => {},
    }
    let name = r.name.clone();
    assert(name@ == r.name@);
    inc = inc.with_val(Value::Str(name));
    let ghost m0 = inc.model();
    let mut j: usize = 0;
    while j < r.args.len()
        invariant
            row_ok(r.model(), k as nat),
            base + k <= u64::MAX,
            j <= r.args@.len(),
            inc.model() == (IncidenceModel {
                args: r.args@.subrange(0, j as int).map_values(|p: (usize, u32)| IId((base + p.0) as u64)),
                roles: r.args@.subrange(0, j as int).map_values(|p: (usize, u32)| RoleId(p.1)),
                ..m0
            }),
        decreases r.args@.len() - j,
    {
        let (row, role) = r.args[j];
        assert(r.model().args[j as int].0 < k);
        inc = inc.add_arg(IId(base + row as u64), RoleId(role));
        j = j + 1;
        assert(inc.model().args =~= r.args@.subrange(0, j as int).map_values(|p: (usize, u32)| IId((base + p.0) as u64)));
        assert(inc.model().roles =~= r.args@.subrange(0, j as int).map_values(|p: (usize, u32)| RoleId(p.1)));
    }
    match &r.embedding {
        Some(e) => {
            inc = inc.with_embedding(copy_u32s(e.as_slice()));
        },
        None => {},
    }
    assert(r.args@.subrange(0, r.args@.len() as int) =~= r.args@);
    assert(inc.model() =~= demo_incidence(r.model(), id, base as nat));
    inc
}

/// Loads a table: row `k` takes the next fresh identifier and is added.
fn load_rows(graph: &mut WorldGraph, rows: &Vec<DemoRow>) -> (r: SampleDataResult)
    requires
        old(graph).wf(),
        rows_ok(rows_model(rows@)),
        old(graph)@.next_id + rows@.len() <= u64::MAX,
    ensures
        final(graph).wf(),
        final(graph)@ == add_rows(old(graph)@, rows_model(rows@)),
        r.created_count == rows@.len(),
        r.created_ids@.map_values(|s: String| s@) == row_ids(old(graph)@.next_id as nat, rows@.len() as nat),
{
    let ghost g0 = graph@;
    let ghost ms = rows_model(rows@);
    let mut created: Vec<String> = Vec::new();
    let mut base: u64 = 0;
    let mut k: usize = 0;
    while k < rows.len()
        invariant
            graph.wf(),
            ms == rows_model(rows@),
            rows_ok(ms),
            g0.next_id + rows@.len() <= u64::MAX,
            k <= rows@.len(),
            graph@ == add_rows(g0, ms.subrange(0, k as int)),
            graph@.next_id == g0.next_id + k,
            k > 0 ==> base == g0.next_id,
            created@.map_values(|s: String| s@) == row_ids(g0.next_id as nat, k as nat),
        decreases rows@.len() - k,
    {
        let id = graph.new_id();
        if k == 0 {
            base = id.0;
        }
        assert(ms[k as int] == rows@[k as int].model());
        let inc = materialize(&rows[k], id, base, k);
        graph.add_incidence(inc);
        let ghost before = created@;
        assert(id.0 == g0.next_id + k);
        let s = decimal_string(id.0);
        created.push(s);
        k = k + 1;
        proof {
            let sub = ms.subrange(0, k as int);
            assert(sub.drop_last() =~= ms.subrange(0, k - 1));
            assert(sub.last() == ms[k - 1]);
            assert(created@ == before.push(s));
            let lhs = created@.map_values(|s: String| s@);
            let rhs = row_ids(g0.next_id as nat, k as nat);
            let prev = row_ids(g0.next_id as nat, (k - 1) as nat);
            assert(before.map_values(|s: String| s@) == prev);
            assert(before.map_values(|s: String| s@).len() == before.len());
            assert(prev.len() == k - 1);
            assert(lhs.len() == created@.len());
            assert(lhs.len() == k);
            assert forall|j: int| 0 <= j < k implies lhs[j] == rhs[j] by {
                if j < k - 1 {
                    assert(lhs[j] == before.map_values(|s: String| s@)[j]);
                    assert(prev[j] == rhs[j]);
                } else {
                    assert(lhs[j] == s@);
                }
            }
            assert(lhs =~= rhs);
        }
    }
    assert(ms.subrange(0, rows@.len() as int) =~= ms);
    SampleDataResult { created_count: created.len(), created_ids: created }
}

/// Loads the people-and-companies data set.
pub fn load_sample_data(graph: &mut WorldGraph) -> (r: SampleDataResult)
    requires
        old(graph).wf(),
        old(graph)@.next_id + 6 <= u64::MAX,
    ensures
        final(graph).wf(),
        final(graph)@ == add_rows(old(graph)@, sample_rows()),
        r.created_count == 6,
        r.created_ids@.map_values(|s: String| s@) == row_ids(old(graph)@.next_id as nat, 6),
{
    let table = sample_table();
    load_rows(graph, &table)
}


/// The crypto-asset investigation data set: person, address and transaction
/// types; two suspects, an investigator and a victim; four wallets (one a
/// mixing service); ownership, three transactions, a conspiracy and two
/// investigations.
pub open spec fn crypto_rows() -> Seq<DemoRowModel> {
    seq![
        demo_row(None, "Person"@, seq![], None),
        demo_row(None, "CryptoAddress"@, seq![], None),
        demo_row(None, "Transaction"@, seq![], None),
        demo_row(Some(0), "タカシ・ヤマダ"@, seq![], Some(seq![0x3f666666u32, 0x3f4ccccd, 0x3f333333, 0x3f19999a, 0x3f000000, 0x3ecccccd, 0x3e99999a])),
        demo_row(Some(0), "ジョン・スミス"@, seq![], Some(seq![0x3f59999au32, 0x3f400000, 0x3f266666, 0x3f0ccccd, 0x3ee66666, 0x3eb33333, 0x3e800000])),
        demo_row(Some(0), "サトウ・ケンイチ"@, seq![], Some(seq![0x3dcccccdu32, 0x3e4ccccd, 0x3e99999a, 0x3ecccccd, 0x3f000000, 0x3f19999a, 0x3f333333])),
        demo_row(Some(0), "ハナコ・タナカ"@, seq![], Some(seq![0x3e4ccccdu32, 0x3e99999a, 0x3ecccccd, 0x3f000000, 0x3f19999a, 0x3f333333, 0x3f4ccccd])),
        demo_row(Some(1), "1A1zP1eP5QGefi2DMPTfTL5SLmv7DivfNa"@, seq![], Some(seq![0x3f4ccccdu32, 0x3f333333, 0x3f19999a, 0x3f000000, 0x3ecccccd, 0x3e99999a, 0x3e4ccccd])),
        demo_row(Some(1), "0x742d35Cc6634C0532925a3b844Bc9e7595f0bEb"@, seq![], Some(seq![0x3f400000u32, 0x3f266666, 0x3f0ccccd, 0x3ee66666, 0x3eb33333, 0x3e800000, 0x3e19999a])),
        demo_row(Some(1), "1MixerServiceXYZ123456789"@, seq![], Some(seq![0x3f733333u32, 0x3f59999a, 0x3f400000, 0x3f266666, 0x3f0ccccd, 0x3ee66666, 0x3eb33333])),
        demo_row(Some(1), "1VictimWalletABC987654321"@, seq![], Some(seq![0x3e99999au32, 0x3ecccccd, 0x3f000000, 0x3f19999a, 0x3f333333, 0x3f4ccccd, 0x3f666666])),
        demo_row(None, "owns"@, seq![(3usize, 1u32), (7, 2)], None),
        demo_row(None, "owns"@, seq![(4usize, 1u32), (8, 2)], None),
        demo_row(None, "owns"@, seq![(6usize, 1u32), (10, 2)], None),
        demo_row(Some(2), "TX001: 100 BTC"@, seq![(10usize, 1u32), (7, 2)], Some(seq![0x3f19999au32, 0x3f000000, 0x3ecccccd, 0x3e99999a, 0x3e4ccccd, 0x3dcccccd, 0x00000000])),
        demo_row(Some(2), "TX002: 80 BTC"@, seq![(7usize, 1u32), (9, 2)], Some(seq![0x3f666666u32, 0x3f4ccccd, 0x3f333333, 0x3f19999a, 0x3f000000, 0x3ecccccd, 0x3e99999a])),
        demo_row(Some(2), "TX003: 20 BTC"@, seq![(7usize, 1u32), (8, 2)], Some(seq![0x3f59999au32, 0x3f400000, 0x3f266666, 0x3f0ccccd, 0x3ee66666, 0x3eb33333, 0x3e800000])),
        demo_row(None, "conspires_with"@, seq![(3usize, 1u32), (4, 2)], None),
        demo_row(None, "investigates"@, seq![(5usize, 1u32), (3, 2)], None),
        demo_row(None, "investigates"@, seq![(5usize, 1u32), (4, 2)], None),
    ]
}

/// The table of the crypto-asset investigation data set.
fn crypto_table() -> (r: Vec<DemoRow>)
    ensures
        rows_model(r@) == crypto_rows(),
        rows_ok(rows_model(r@)),
{
    let mut t: Vec<DemoRow> = Vec::new();
    push_row(&mut t, None, "Person", vec![], None);
    push_row(&mut t, None, "CryptoAddress", vec![], None);
    push_row(&mut t, None, "Transaction", vec![], None);
    push_row(&mut t, Some(0), "タカシ・ヤマダ", vec![], Some(vec![0x3f666666u32, 0x3f4ccccd, 0x3f333333, 0x3f19999a, 0x3f000000, 0x3ecccccd, 0x3e99999a]));
    push_row(&mut t, Some(0), "ジョン・スミス", vec![], Some(vec![0x3f59999au32, 0x3f400000, 0x3f266666, 0x3f0ccccd, 0x3ee66666, 0x3eb33333, 0x3e800000]));
    push_row(&mut t, Some(0), "サトウ・ケンイチ", vec![], Some(vec![0x3dcccccdu32, 0x3e4ccccd, 0x3e99999a, 0x3ecccccd, 0x3f000000, 0x3f19999a, 0x3f333333]));
    push_row(&mut t, Some(0), "ハナコ・タナカ", vec![], Some(vec![0x3e4ccccdu32, 0x3e99999a, 0x3ecccccd, 0x3f000000, 0x3f19999a, 0x3f333333, 0x3f4ccccd]));
    push_row(&mut t, Some(1), "1A1zP1eP5QGefi2DMPTfTL5SLmv7DivfNa", vec![], Some(vec![0x3f4ccccdu32, 0x3f333333, 0x3f19999a, 0x3f000000, 0x3ecccccd, 0x3e99999a, 0x3e4ccccd]));
    push_row(&mut t, Some(1), "0x742d35Cc6634C0532925a3b844Bc9e7595f0bEb", vec![], Some(vec![0x3f400000u32, 0x3f266666, 0x3f0ccccd, 0x3ee66666, 0x3eb33333, 0x3e800000, 0x3e19999a]));
    push_row(&mut t, Some(1), "1MixerServiceXYZ123456789", vec![], Some(vec![0x3f733333u32, 0x3f59999a, 0x3f400000, 0x3f266666, 0x3f0ccccd, 0x3ee66666, 0x3eb33333]));
    push_row(&mut t, Some(1), "1VictimWalletABC987654321", vec![], Some(vec![0x3e99999au32, 0x3ecccccd, 0x3f000000, 0x3f19999a, 0x3f333333, 0x3f4ccccd, 0x3f666666]));
    push_row(&mut t, None, "owns", vec![(3usize, 1u32), (7, 2)], None);
    push_row(&mut t, None, "owns", vec![(4usize, 1u32), (8, 2)], None);
    push_row(&mut t, None, "owns", vec![(6usize, 1u32), (10, 2)], None);
    push_row(&mut t, Some(2), "TX001: 100 BTC", vec![(10usize, 1u32), (7, 2)], Some(vec![0x3f19999au32, 0x3f000000, 0x3ecccccd, 0x3e99999a, 0x3e4ccccd, 0x3dcccccd, 0x00000000]));
    push_row(&mut t, Some(2), "TX002: 80 BTC", vec![(7usize, 1u32), (9, 2)], Some(vec![0x3f666666u32, 0x3f4ccccd, 0x3f333333, 0x3f19999a, 0x3f000000, 0x3ecccccd, 0x3e99999a]));
    push_row(&mut t, Some(2), "TX003: 20 BTC", vec![(7usize, 1u32), (8, 2)], Some(vec![0x3f59999au32, 0x3f400000, 0x3f266666, 0x3f0ccccd, 0x3ee66666, 0x3eb33333, 0x3e800000]));
    push_row(&mut t, None, "conspires_with", vec![(3usize, 1u32), (4, 2)], None);
    push_row(&mut t, None, "investigates", vec![(5usize, 1u32), (3, 2)], None);
    push_row(&mut t, None, "investigates", vec![(5usize, 1u32), (4, 2)], None);
    assert(rows_model(t@) =~= crypto_rows());
    t
}

/// Loads the crypto-asset investigation data set.
pub fn load_crypto_investigation_data(graph: &mut WorldGraph) -> (r: SampleDataResult)
    requires
        old(graph).wf(),
        old(graph)@.next_id + 20 <= u64::MAX,
    ensures
        final(graph).wf(),
        final(graph)@ == add_rows(old(graph)@, crypto_rows()),
        r.created_count == 20,
        r.created_ids@.map_values(|s: String| s@) == row_ids(old(graph)@.next_id as nat, 20),
{
    let table = crypto_table();
    load_rows(graph, &table)
}


proof fn lemma_add_rows_state(g: GraphModel, rows: Seq<DemoRowModel>)
    requires
        g.well_formed(),
        g.next_id + rows.len() <= u64::MAX,
    ensures
        add_rows(g, rows).well_formed(),
        add_rows(g, rows).next_id == g.next_id + rows.len(),
    decreases rows.len(),
{
    if rows.len() > 0 {
        lemma_add_rows_state(g, rows.drop_last());
        let h = add_rows(g, rows.drop_last());
        let h1 = GraphModel { next_id: (h.next_id + 1) as u64, ..h };
        lemma_add_well_formed(h1, demo_incidence(rows.last(), IId(h.next_id), g.next_id as nat));
    }
}

/// What loading a data set leaves readable: row `k` is stored under the
/// `k`-th fresh identifier, with its type, arguments, value and embedding.
pub proof fn lemma_loaded_rows_readable(g: GraphModel, rows: Seq<DemoRowModel>, k: nat)
    requires
        g.well_formed(),
        g.next_id + rows.len() <= u64::MAX,
        k < rows.len(),
    ensures
        add_rows(g, rows).lookup(IId((g.next_id + k) as u64)) == Some(
            demo_incidence(rows[k as int], IId((g.next_id + k) as u64), g.next_id as nat),
        ),
    decreases rows.len(),
{
    let prefix = rows.drop_last();
    lemma_add_rows_state(g, prefix);
    let h = add_rows(g, prefix);
    let h1 = GraphModel { next_id: (h.next_id + 1) as u64, ..h };
    let inc = demo_incidence(rows.last(), IId(h.next_id), g.next_id as nat);
    assert(h1.assigned_id(inc) == IId(h.next_id));
    if k == rows.len() - 1 {
        lemma_read_after_add(h1, inc);
    } else {
        lemma_loaded_rows_readable(g, prefix, k);
        assert(prefix[k as int] == rows[k as int]);
        lemma_add_frames_other_ids(h1, inc, IId((g.next_id + k) as u64));
        assert(h1.lookup(IId((g.next_id + k) as u64)) == h.lookup(IId((g.next_id + k) as u64)));
    }
}

} // verus!
