//! The decisions of the event-sourced GraphQL schema that do not touch the
//! event store: reading request fields and choosing benchmark start points.

use vstd::prelude::*;
use crate::model::incidence::{IId, Incidence, IncidenceModel, Level, RoleId, opt_vec_model};
use crate::model::value::ValueModel;
use crate::api::schema::{ApiError, parse_id, parsed_id};
use crate::api::benchmark::BenchmarkMutation;
use crate::api::mutation::{ValueInput, convert_value_input, lemma_parsed_args_prefix, parsed_args, texts_of};

verus! {

/// The queries of the event-sourced schema.
#[derive(Clone, Copy, Debug, PartialEq, Eq)]
pub struct EventSourcedQuery;

/// The mutations of the event-sourced schema.
#[derive(Clone, Copy, Debug, PartialEq, Eq)]
pub struct EventSourcedMutation {
    /// The benchmark operations.
    pub benchmark: BenchmarkMutation,
}

impl Default for EventSourcedMutation {
    fn default() -> (r: EventSourcedMutation)
        ensures
            r == (EventSourcedMutation { benchmark: BenchmarkMutation }),
    {
        EventSourcedMutation { benchmark: BenchmarkMutation }
    }
}

/// The entity filter of a request: none, or the identifier given, if it parses.
pub open spec fn entity_filter_spec(entity_id: Option<Seq<char>>) -> Result<Option<IId>, ApiError> {
    match entity_id {
        None => Ok(None),
        Some(s) => match parsed_id(s) {
            Some(v) => Ok(Some(IId(v))),
            None => Err(ApiError::InvalidEntityId),
        },
    }
}

impl EventSourcedQuery {
    /// Reads the entity filter of a time-range, traversal or vector query.
    pub fn entity_filter(&self, entity_id: Option<String>) -> (r: Result<Option<IId>, ApiError>)
        ensures
            r == entity_filter_spec(match entity_id { Some(s) => Some(s@), None => None }),
    {
        match entity_id {
            None => Ok(None),
            Some(s) => match parse_id(s.as_str()) {
                Some(v) => Ok(Some(IId(v))),
                None => Err(ApiError::InvalidEntityId),
            },
        }
    }
}

/// The incidence that an event-sourced add request describes under the
/// fresh identifier `id`: level `0` unless given; the type, if given, must
/// parse; arguments are taken only when both arguments and roles are given,
/// paired up to the shorter list, and must parse.
pub open spec fn event_sourced_request(
    id: IId,
    level: Option<u8>,
    type_id: Option<Seq<char>>,
    value: Option<ValueModel>,
    args: Option<Seq<Seq<char>>>,
    roles: Option<Seq<u32>>,
    embedding: Option<Seq<u32>>,
) -> Result<IncidenceModel, ApiError> {
    let base = IncidenceModel {
        id,
        level: Level(match level { Some(l) => l, None => 0 }),
        ty: None,
        args: Seq::empty(),
        roles: Seq::empty(),
        val: value,
        embedding,
    };
    let typed = match type_id {
        None => Ok(base),
        Some(t) => match parsed_id(t) {
            Some(v) => Ok(IncidenceModel { ty: Some(IId(v)), ..base }),
            None => Err(ApiError::InvalidTypeId),
        },
    };
    match typed {
        Err(e) => Err(e),
        Ok(m) => match (args, roles) {
            (Some(a), Some(rs)) => {
                let n = if a.len() < rs.len() { a.len() } else { rs.len() };
                match parsed_args(a.subrange(0, n as int)) {
                    Some(ids) => Ok(IncidenceModel {
                        args: ids,
                        roles: rs.subrange(0, n as int).map_values(|r: u32| RoleId(r)),
                        ..m
                    }),
                    None => Err(ApiError::InvalidArgId),
                }
            },
            _ => Ok(m),
        },
    }
}

/// The first `n` start identifiers of the event-sourced multi-hop benchmark:
/// the listed identifiers when there are at least `n` of them, else
/// `1 ..= min(graph_size, n)`.
pub open spec fn event_sourced_starts(listed: Option<Seq<IId>>, graph_size: nat, n: nat) -> Seq<IId> {
    match listed {
        Some(ids) if ids.len() >= n => ids.subrange(0, n as int),
        _ => {
            let m = if graph_size < n { graph_size } else { n };
            Seq::new(m, |k: int| IId((k + 1) as u64))
        },
    }
}

impl EventSourcedMutation {
    /// Builds the incidence that an add request describes under the fresh identifier `id`.
    pub fn requested_incidence(
        &self,
        id: IId,
        level: Option<u8>,
        type_id: Option<String>,
        value: Option<ValueInput>,
        args: Option<Vec<String>>,
        roles: Option<Vec<u32>>,
        embedding: Option<Vec<u32>>,
    ) -> (r: Result<Incidence, ApiError>)
        ensures
            match event_sourced_request(
                id,
                level,
                match type_id { Some(t) => Some(t@), None => None },
                match value { Some(v) => Some(v.value_spec()), None => None },
                match args { Some(a) => Some(texts_of(a@)), None => None },
                match roles { Some(r) => Some(r@), None => None },
                opt_vec_model(embedding),
            ) {
                Ok(m) => r matches Ok(inc) && inc.model() == m,
                Err(e) => r == Err::<Incidence, ApiError>(e),
            },
    {
        let lv = match level {
            Some(l) => l,
            None => 0,
        };
        let mut incidence = Incidence::new(id, Level(lv));
        match type_id {
            Some(t) => match parse_id(t.as_str()) {
                Some(v) => {
                    incidence = incidence.with_type(IId(v));
                },
                None => {
                    return Err(ApiError::InvalidTypeId);
                },
            },
            None => {},
        }
        match value {
            Some(v) => {
                incidence = incidence.with_val(convert_value_input(v));
            },
            None => {},
        }
        match (args, roles) {
            (Some(a), Some(rs)) => {
                let n = if a.len() < rs.len() { a.len() } else { rs.len() };
                let ghost ts = texts_of(a@);
                let ghost m0 = incidence.model();
                let mut ids: Vec<IId> = Vec::new();
                let mut k: usize = 0;
                while k < n
                    invariant
                        n <= a@.len(),
                        n <= rs@.len(),
                        ts == texts_of(a@),
                        k <= n,
                        parsed_args(ts.subrange(0, k as int)) == Some(ids@),
                        ids@.len() == k,
                        incidence.model() == (IncidenceModel {
                            args: ids@,
                            roles: rs@.subrange(0, k as int).map_values(|r: u32| RoleId(r)),
                            ..m0
                        }),
                        m0.args == Seq::<IId>::empty(),
                        m0.roles == Seq::<RoleId>::empty(),
                        type_id matches Some(t) ==> parsed_id(t@) is Some,
                        args == Some(a),
                        roles == Some(rs),
                        n == (if a@.len() < rs@.len() { a@.len() } else { rs@.len() }),
                    decreases n - k,
                {
                    proof {
                        let sub = ts.subrange(0, k + 1);
                        assert(sub.drop_last() =~= ts.subrange(0, k as int));
                        assert(sub.last() == a@[k as int]@);
                    }
                    match parse_id(a[k].as_str()) {
                        Some(v) => {
                            let arg = IId(v);
                            ids.push(arg);
                            incidence = incidence.add_arg(arg, RoleId(rs[k]));
                            k = k + 1;
                            assert(incidence.model().roles
                                =~= rs@.subrange(0, k as int).map_values(|r: u32| RoleId(r)));
                        },
                        None => {
                            proof {
                                assert(parsed_args(ts.subrange(0, k + 1)) is None);
                                assert(ts.subrange(0, n as int).subrange(0, k + 1) =~= ts.subrange(0, k + 1));
                                lemma_parsed_args_prefix(ts.subrange(0, n as int), (k + 1) as nat);
                                assert(ts.len() == a@.len());
                                assert(parsed_args(texts_of(a@).subrange(0, n as int)) is None);
                            }
                            return Err(ApiError::InvalidArgId);
                        },
                    }
                }
            },
            _ => {},
        }
        match embedding {
            Some(e) => {
                incidence = incidence.with_embedding(e);
            },
            None => {},
        }
        Ok(incidence)
    }

    /// The start identifiers of the multi-hop benchmark; `listed` holds the
    /// stored identifiers in order, or nothing when they could not be listed.
    pub fn start_ids(&self, listed: Option<Vec<IId>>, graph_size: usize, start_nodes: usize) -> (r: Vec<IId>)
        ensures
            r@ == event_sourced_starts(
                match listed { Some(v) => Some(v@), None => None },
                graph_size as nat,
                start_nodes as nat,
            ),
    {
        match listed {
            Some(ids) => {
                if ids.len() >= start_nodes {
                    let mut out: Vec<IId> = Vec::new();
                    let mut k: usize = 0;
                    while k < start_nodes
                        invariant
                            start_nodes <= ids@.len(),
                            k <= start_nodes,
                            out@ == ids@.subrange(0, k as int),
                        decreases start_nodes - k,
                    {
                        out.push(ids[k]);
                        k = k + 1;
                        assert(out@ =~= ids@.subrange(0, k as int));
                    }
                    return out;
                }
            },
            None => {},
        }
        let m = if graph_size < start_nodes { graph_size } else { start_nodes };
        let mut out: Vec<IId> = Vec::new();
        let mut k: usize = 0;
        while k < m
            invariant
                k <= m,
                out@ == Seq::new(k as nat, |q: int| IId((q + 1) as u64)),
            decreases m - k,
        {
            out.push(IId((k + 1) as u64));
            k = k + 1;
            assert(out@ =~= Seq::new(k as nat, |q: int| IId((q + 1) as u64)));
        }
        out
    }
}


/// The identifiers `1 ..= n`.
pub open spec fn first_ids(n: nat) -> Seq<IId> {
    Seq::new(n, |k: int| IId((k + 1) as u64))
}

impl EventSourcedMutation {
    /// The identifiers that the vector hop benchmark looks up when the
    /// stored incidences cannot be listed: `1 ..= min(graph_size,
    /// data_size * 10)`. Of the incidences found there, the first
    /// `data_size` with an embedding are used (see `embedded_data`).
    pub fn vector_probe_ids(&self, graph_size: usize, data_size: usize) -> (r: Vec<IId>)
        requires
            data_size * 10 <= usize::MAX,
        ensures
            r@ == first_ids(if graph_size < data_size * 10 { graph_size as nat } else { (data_size * 10) as nat }),
    {
        let cap = data_size * 10;
        let m = if graph_size < cap { graph_size } else { cap };
        let mut out: Vec<IId> = Vec::new();
        let mut k: usize = 0;
        while k < m
            invariant
                k <= m,
                out@ == first_ids(k as nat),
            decreases m - k,
        {
            out.push(IId((k + 1) as u64));
            k = k + 1;
            assert(out@ =~= first_ids(k as nat));
        }
        out
    }
}

/// The identifiers that the read benchmark probes: hash `h` picks `h % n + 1`.
pub open spec fn probes(hashes: Seq<u64>, n: nat) -> Seq<IId> {
    hashes.map_values(|h: u64| IId(((h as nat) % n + 1) as u64))
}

impl EventSourcedMutation {
    /// The identifiers that the read benchmark looks up in a store of
    /// `graph_size` incidences, one per running hash; an empty store is refused.
    pub fn read_probes(&self, hashes: &[u64], graph_size: usize) -> (r: Result<Vec<IId>, ApiError>)
        ensures
            graph_size == 0 ==> r == Err::<Vec<IId>, ApiError>(ApiError::EmptyGraph),
            graph_size > 0 ==> (r matches Ok(v) && v@ == probes(hashes@, graph_size as nat)),
    {
        if graph_size == 0 {
            return Err(ApiError::EmptyGraph);
        }
        let mut out: Vec<IId> = Vec::new();
        let mut k: usize = 0;
        while k < hashes.len()
            invariant
                graph_size > 0,
                k <= hashes@.len(),
                out@ == probes(hashes@.subrange(0, k as int), graph_size as nat),
            decreases hashes@.len() - k,
        {
            out.push(IId(hashes[k] % (graph_size as u64) + 1));
            k = k + 1;
            assert(out@ =~= probes(hashes@.subrange(0, k as int), graph_size as nat));
        }
        assert(hashes@.subrange(0, hashes@.len() as int) =~= hashes@);
        Ok(out)
    }
}

} // verus!
