//! The request handling of the RPC service: decoding an add request into an
//! incidence, looking incidences up, and encoding incidences and values in
//! the service's message shapes. Transport is the caller's concern.

use vstd::prelude::*;
use crate::model::incidence::{IId, Incidence, IncidenceModel, Level, RoleId};
use crate::model::value::{Value, ValueModel};
use crate::model::world_graph::{GraphModel, WorldGraph};
use crate::api::schema::{decimal_string, parse_id, parsed_id};
use crate::api::mutation::{parse_args, parsed_args, texts_of};
use crate::text::decimal;

verus! {

/// Errors of the service, each answered as an invalid argument.
#[derive(Clone, Copy, Debug, PartialEq, Eq)]
pub enum ServiceError {
    /// The incidence identifier is not a decimal `u64`.
    InvalidId,
    /// The type identifier is not a decimal `u64`.
    InvalidTypeId,
    /// An argument identifier is not a decimal `u64`.
    InvalidArgId,
    /// A value message carries no value.
    InvalidValue,
}

impl ServiceError {
    /// The message sent with the error.
    pub open spec fn message_spec(&self) -> Seq<char> {
        match self {
            ServiceError::InvalidId => "Invalid ID"@,
            ServiceError::InvalidTypeId => "Invalid type ID"@,
            ServiceError::InvalidArgId => "Invalid arg ID"@,
            ServiceError::InvalidValue => "Invalid value"@,
        }
    }

    /// The message sent with the error.
    pub fn message(&self) -> (r: String)
        ensures
            r@ == self.message_spec(),
    {
        match self {
            ServiceError::InvalidId => String::from_str("Invalid ID"),
            ServiceError::InvalidTypeId => String::from_str("Invalid type ID"),
            ServiceError::InvalidArgId => String::from_str("Invalid arg ID"),
            ServiceError::InvalidValue => String::from_str("Invalid value"),
        }
    }
}

/// The kinds of value a value message can carry. Floats are held by their
/// bit patterns.
#[derive(Clone, Debug, PartialEq)]
pub enum ProtoKind {
    Str(String),
    Int(i64),
    Float(u64),
    Bool(bool),
    Vector(Vec<u32>),
}

/// A value message: one kind of value, or none.
#[derive(Clone, Debug, PartialEq)]
pub struct ProtoValue {
    pub value: Option<ProtoKind>,
}

/// The value that a value message carries, if any.
pub open spec fn proto_value_model(v: ProtoValue) -> Option<ValueModel> {
    match v.value {
        Some(ProtoKind::Str(s)) => Some(ValueModel::Str(s@)),
        Some(ProtoKind::Int(i)) => Some(ValueModel::Int(i)),
        Some(ProtoKind::Float(f)) => Some(ValueModel::Float(f)),
        Some(ProtoKind::Bool(b)) => Some(ValueModel::Bool(b)),
        Some(ProtoKind::Vector(x)) => Some(ValueModel::Vector(x@)),
        None => None,
    }
}

/// The value a value message is made from: lists and `Null` have no kind
/// and give an empty message.
pub open spec fn proto_of(v: ValueModel) -> Option<ValueModel> {
    match v {
        ValueModel::List(_) => None,
        ValueModel::Null => None,
        _ => Some(v),
    }
}

/// Decodes a value message; one without a value is refused.
pub fn convert_value(value: ProtoValue) -> (r: Result<Value, ServiceError>)
    ensures
        match proto_value_model(value) {
            Some(m) => r matches Ok(x) && x.model() == m,
            None => r == Err::<Value, ServiceError>(ServiceError::InvalidValue),
        },
{
    match value.value {
        Some(ProtoKind::Str(s)) => Ok(Value::Str(s)),
        Some(ProtoKind::Int(i)) => Ok(Value::integer(i)),
        Some(ProtoKind::Float(f)) => Ok(Value::float(f)),
        Some(ProtoKind::Bool(b)) => Ok(Value::bool(b)),
        Some(ProtoKind::Vector(v)) => Ok(Value::vector(v)),
        None => Err(ServiceError::InvalidValue),
    }
}

/// Encodes a value as a value message.
pub fn convert_value_to_proto(value: &Value) -> (r: ProtoValue)
    ensures
        proto_value_model(r) == proto_of(value.model()),
{
    match value {
        Value::Str(s) => {
            let c = s.clone();
            ProtoValue { value: Some(ProtoKind::Str(c)) }
        },
        Value::Int(i) => ProtoValue { value: Some(ProtoKind::Int(*i)) },
        Value::Float(f) => ProtoValue { value: Some(ProtoKind::Float(*f)) },
        Value::Bool(b) => ProtoValue { value: Some(ProtoKind::Bool(*b)) },
        Value::Vector(v) => {
            let c = v.clone();
            assert(c@ =~= v@);
            ProtoValue { value: Some(ProtoKind::Vector(c)) }
        },
        _ => ProtoValue { value: None },
    }
}

/// An incidence message.
#[derive(Clone, Debug, PartialEq)]
pub struct ProtoIncidence {
    pub id: String,
    pub level: u8,
    pub type_id: Option<String>,
    pub args: Vec<String>,
    pub roles: Vec<u32>,
    pub value: Option<ProtoValue>,
    pub embedding: Vec<u32>,
}

/// The decimal texts of the identifiers `ids`.
pub open spec fn id_texts(ids: Seq<IId>) -> Seq<Seq<char>> {
    ids.map_values(|a: IId| decimal(a.0 as nat))
}

/// Whether `p` is the message of incidence `m`: identifiers in decimal,
/// role numbers, the value encoded, and the embedding (empty when absent).
pub open spec fn proto_incidence_of(p: ProtoIncidence, m: IncidenceModel) -> bool {
    &&& p.id@ == decimal(m.id.0 as nat)
    &&& p.level == m.level.0
    &&& match m.ty {
        Some(t) => p.type_id matches Some(s) && s@ == decimal(t.0 as nat),
        None => p.type_id is None,
    }
    &&& texts_of(p.args@) == id_texts(m.args)
    &&& p.roles@ == m.roles.map_values(|r: RoleId| r.0)
    &&& match m.val {
        Some(v) => p.value matches Some(pv) && proto_value_model(pv) == proto_of(v),
        None => p.value is None,
    }
    &&& p.embedding@ == match m.embedding {
        Some(e) => e,
        None => Seq::<u32>::empty(),
    }
}

/// Encodes an incidence as a message.
pub fn convert_incidence(inc: &Incidence) -> (r: ProtoIncidence)
    ensures
        proto_incidence_of(r, inc.model()),
{
    let type_id = match inc.ty {
        Some(t) => Some(decimal_string(t.0)),
        None => None,
    };
    let mut args: Vec<String> = Vec::new();
    let mut k: usize = 0;
    while k < inc.args.len()
        invariant
            k <= inc.args@.len(),
            texts_of(args@) == id_texts(inc.args@.subrange(0, k as int)),
        decreases inc.args@.len() - k,
    {
        let ghost before = args@;
        let text = decimal_string(inc.args[k].0);
        args.push(text);
        proof {
            assert(args@ == before.push(text));
            assert(texts_of(args@) =~= texts_of(before).push(text@));
            assert(inc.args@.subrange(0, k + 1) =~= inc.args@.subrange(0, k as int).push(inc.args@[k as int]));
            assert(id_texts(inc.args@.subrange(0, k + 1)) =~= id_texts(inc.args@.subrange(0, k as int)).push(
                decimal(inc.args@[k as int].0 as nat),
            ));
        }
        k = k + 1;
    }
    assert(inc.args@.subrange(0, inc.args@.len() as int) =~= inc.args@);
    let mut roles: Vec<u32> = Vec::new();
    let mut q: usize = 0;
    while q < inc.roles.len()
        invariant
            q <= inc.roles@.len(),
            roles@ == inc.roles@.subrange(0, q as int).map_values(|r: RoleId| r.0),
        decreases inc.roles@.len() - q,
    {
        roles.push(inc.roles[q].0);
        q = q + 1;
        assert(roles@ =~= inc.roles@.subrange(0, q as int).map_values(|r: RoleId| r.0));
    }
    assert(inc.roles@.subrange(0, inc.roles@.len() as int) =~= inc.roles@);
    let value = match &inc.val {
        Some(v) => Some(convert_value_to_proto(v)),
        None => None,
    };
    let embedding = match &inc.embedding {
        Some(e) => {
            let c = e.clone();
            assert(c@ =~= e@);
            c
        },
        None => Vec::new(),
    };
    ProtoIncidence { id: decimal_string(inc.id.0), level: inc.level.0, type_id, args, roles, value, embedding }
}

/// A request to add an incidence. An empty `id` asks for a fresh one.
#[derive(Clone, Debug, PartialEq)]
pub struct AddIncidenceRequest {
    pub id: String,
    pub level: u8,
    pub type_id: Option<String>,
    pub args: Vec<String>,
    pub roles: Vec<u32>,
    pub value: Option<ProtoValue>,
    pub embedding: Vec<u32>,
}

/// The answer to an add request: the identifier requested (or the fresh
/// one taken) in decimal.
#[derive(Clone, Debug, PartialEq)]
pub struct AddIncidenceResponse {
    pub id: String,
    pub success: bool,
}

/// A request for one incidence.
#[derive(Clone, Debug, PartialEq)]
pub struct GetIncidenceRequest {
    pub id: String,
}

/// The answer to a get request.
#[derive(Clone, Debug, PartialEq)]
pub struct GetIncidenceResponse {
    pub incidence: Option<ProtoIncidence>,
}

/// The answer to a query request: every stored incidence, in order.
#[derive(Clone, Debug, PartialEq)]
pub struct QueryIncidenceResponse {
    pub results: Vec<ProtoIncidence>,
}

/// The graph after taking the identifier of an add request, and the
/// identifier: a fresh one when the text is empty, else the one written,
/// if it parses.
pub open spec fn service_request_id(g: GraphModel, id: Seq<char>) -> Option<(GraphModel, IId)> {
    if id.len() == 0 {
        Some((GraphModel { next_id: (g.next_id + 1) as u64, ..g }, IId(g.next_id)))
    } else {
        match parsed_id(id) {
            Some(v) => Some((g, IId(v))),
            None => None,
        }
    }
}

/// The incidence that an add request describes under identifier `id`, or
/// the error of the first field refused: the type, then the arguments
/// (paired with the roles up to the shorter list), then the value. An
/// empty embedding means none.
pub open spec fn service_incidence(
    id: IId,
    level: u8,
    type_id: Option<Seq<char>>,
    args: Seq<Seq<char>>,
    roles: Seq<u32>,
    value: Option<Option<ValueModel>>,
    embedding: Seq<u32>,
) -> Result<IncidenceModel, ServiceError> {
    let base = IncidenceModel {
        id,
        level: Level(level),
        ty: None,
        args: Seq::empty(),
        roles: Seq::empty(),
        val: None,
        embedding: None,
    };
    let typed = match type_id {
        None => Ok(base),
        Some(t) => match parsed_id(t) {
            Some(v) => Ok(IncidenceModel { ty: Some(IId(v)), ..base }),
            None => Err(ServiceError::InvalidTypeId),
        },
    };
    let n = if args.len() < roles.len() { args.len() } else { roles.len() };
    let linked = match typed {
        Err(e) => Err(e),
        Ok(m) => match parsed_args(args.subrange(0, n as int)) {
            Some(ids) => Ok(IncidenceModel {
                args: ids,
                roles: roles.subrange(0, n as int).map_values(|r: u32| RoleId(r)),
                ..m
            }),
            None => Err(ServiceError::InvalidArgId),
        },
    };
    match linked {
        Err(e) => Err(e),
        Ok(m) => {
            let valued = match value {
                None => Ok(m),
                Some(Some(v)) => Ok(IncidenceModel { val: Some(v), ..m }),
                Some(None) => Err(ServiceError::InvalidValue),
            };
            match valued {
                Err(e) => Err(e),
                Ok(m2) => Ok(IncidenceModel { embedding: if embedding.len() == 0 { None } else { Some(embedding) }, ..m2 }),
            }
        },
    }
}

/// Whether an add request's identifiers can be handed out without the
/// counter overflowing.
pub open spec fn service_request_fits(g: GraphModel, id: Seq<char>) -> bool {
    match service_request_id(g, id) {
        Some((g1, iid)) => (id.len() == 0 ==> g.next_id < u64::MAX) && (iid.0 == 0 ==> g1.next_id < u64::MAX),
        None => true,
    }
}

/// Builds the incidence that an add request describes under identifier `id`.
fn build_service_incidence(id: IId, req: AddIncidenceRequest) -> (r: Result<Incidence, ServiceError>)
    ensures
        match service_incidence(
            id,
            req.level,
            match req.type_id { Some(t) => Some(t@), None => None },
            texts_of(req.args@),
            req.roles@,
            match req.value { Some(v) => Some(proto_value_model(v)), None => None },
            req.embedding@,
        ) {
            Ok(m) => r matches Ok(inc) && inc.model() == m,
            Err(e) => r == Err::<Incidence, ServiceError>(e),
        },
{
    let mut incidence = Incidence::new(id, Level(req.level));
    match &req.type_id {
        Some(t) => match parse_id(t.as_str()) {
            Some(v) => {
                incidence = incidence.with_type(IId(v));
            },
            None => {
                return Err(ServiceError::InvalidTypeId);
            },
        },
        None => {},
    }
    let n = if req.args.len() < req.roles.len() { req.args.len() } else { req.roles.len() };
    match parse_args(&req.args, n) {
        Some(ids) => {
            let ghost m0 = incidence.model();
            let mut k: usize = 0;
            while k < n
                invariant
                    n <= ids@.len(),
                    n <= req.roles@.len(),
                    k <= n,
                    incidence.model() == (IncidenceModel {
                        args: ids@.subrange(0, k as int),
                        roles: req.roles@.subrange(0, k as int).map_values(|r: u32| RoleId(r)),
                        ..m0
                    }),
                    m0.args == Seq::<IId>::empty(),
                    m0.roles == Seq::<RoleId>::empty(),
                decreases n - k,
            {
                incidence = incidence.add_arg(ids[k], RoleId(req.roles[k]));
                k = k + 1;
                assert(incidence.model().args =~= ids@.subrange(0, k as int));
                assert(incidence.model().roles =~= req.roles@.subrange(0, k as int).map_values(|r: u32| RoleId(r)));
            }
            assert(ids@.subrange(0, n as int) =~= ids@);
        },
        None => {
            return Err(ServiceError::InvalidArgId);
        },
    }
    match req.value {
        Some(v) => match convert_value(v) {
            Ok(x) => {
                incidence = incidence.with_val(x);
            },
            Err(e) => {
                return Err(e);
            },
        },
        None => {},
    }
    if req.embedding.len() > 0 {
        incidence = incidence.with_embedding(req.embedding);
    }
    Ok(incidence)
}

/// The RPC service over a world graph.
#[derive(Clone, Copy, Debug, PartialEq, Eq)]
pub struct IncDBServiceImpl;

impl IncDBServiceImpl {
    /// A service.
    pub fn new() -> (r: IncDBServiceImpl)
        ensures
            r == IncDBServiceImpl,
    {
        IncDBServiceImpl
    }

    /// Adds the incidence that `req` describes. With an empty `id` a fresh
    /// identifier is taken first (even when a later field is refused). The
    /// answer carries the identifier requested or taken.
    pub fn add_incidence(&self, graph: &mut WorldGraph, req: AddIncidenceRequest) -> (r: Result<
        AddIncidenceResponse,
        ServiceError,
    >)
        requires
            old(graph).wf(),
            service_request_fits(old(graph)@, req.id@),
        ensures
            final(graph).wf(),
            match service_request_id(old(graph)@, req.id@) {
                None => r == Err::<AddIncidenceResponse, ServiceError>(ServiceError::InvalidId) && final(graph)@
                    == old(graph)@,
                Some((g1, iid)) => match service_incidence(
                    iid,
                    req.level,
                    match req.type_id { Some(t) => Some(t@), None => None },
                    texts_of(req.args@),
                    req.roles@,
                    match req.value { Some(v) => Some(proto_value_model(v)), None => None },
                    req.embedding@,
                ) {
                    Err(e) => r == Err::<AddIncidenceResponse, ServiceError>(e) && final(graph)@ == g1,
                    Ok(m) => (r matches Ok(resp) && resp.id@ == decimal(iid.0 as nat) && resp.success)
                        && final(graph)@ == g1.added(m),
                },
            },
    {
        let id = if req.id.as_str().is_empty() {
            proof {
                assert(req.id@.len() == 0);
            }
            graph.new_id()
        } else {
            match parse_id(req.id.as_str()) {
                Some(v) => IId(v),
                None => {
                    return Err(ServiceError::InvalidId);
                },
            }
        };
        match build_service_incidence(id, req) {
            Ok(incidence) => {
                graph.add_incidence(incidence);
                Ok(AddIncidenceResponse { id: decimal_string(id.0), success: true })
            },
            Err(e) => Err(e),
        }
    }

    /// Looks up the incidence whose identifier `req` writes.
    pub fn get_incidence(&self, graph: &WorldGraph, req: &GetIncidenceRequest) -> (r: Result<
        GetIncidenceResponse,
        ServiceError,
    >)
        requires
            graph.wf(),
        ensures
            match parsed_id(req.id@) {
                None => r == Err::<GetIncidenceResponse, ServiceError>(ServiceError::InvalidId),
                Some(v) => r matches Ok(resp) && match graph@.lookup(IId(v)) {
                    Some(m) => resp.incidence matches Some(p) && proto_incidence_of(p, m),
                    None => resp.incidence is None,
                },
            },
    {
        let id = match parse_id(req.id.as_str()) {
            Some(v) => IId(v),
            None => {
                return Err(ServiceError::InvalidId);
            },
        };
        let incidence = match graph.get(id) {
            Some(inc) => Some(convert_incidence(inc)),
            None => None,
        };
        Ok(GetIncidenceResponse { incidence })
    }

    /// Every stored incidence, in order.
    pub fn query_incidence(&self, graph: &WorldGraph) -> (r: QueryIncidenceResponse)
        ensures
            r.results@.len() == graph@.incs.len(),
            forall|k: int| 0 <= k < graph@.incs.len() ==> proto_incidence_of(#[trigger] r.results@[k], graph@.incs[k]),
    {
        let incs = graph.iter();
        let mut results: Vec<ProtoIncidence> = Vec::new();
        let mut k: usize = 0;
        while k < incs.len()
            invariant
                incs@.map_values(|i: Incidence| i.model()) == graph@.incs,
                k <= incs@.len(),
                results@.len() == k,
                forall|q: int| 0 <= q < k ==> proto_incidence_of(#[trigger] results@[q], graph@.incs[q]),
            decreases incs@.len() - k,
        {
            let p = convert_incidence(&incs[k]);
            assert(graph@.incs[k as int] == incs@[k as int].model());
            results.push(p);
            k = k + 1;
        }
        QueryIncidenceResponse { results }
    }
}

} // verus!
