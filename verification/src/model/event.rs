//! Events for event sourcing, and their correspondence with incidences.

use vstd::prelude::*;
use crate::model::incidence::{IId, Incidence, IncidenceModel, Level, RoleId, opt_vec_model};
use crate::model::value::{Value, ValueModel};
use crate::text::{has_substring, str_contains};
use std::time::{Duration, SystemTime, UNIX_EPOCH};

verus! {

/// The kind of an event (crypto-crime investigation vocabulary).
#[derive(Clone, Debug, PartialEq, Eq, Hash)]
pub enum EventType {
    /// A person was created.
    PersonCreated,
    /// A person moved.
    PersonMoved,
    /// An IP connection happened.
    IPConnection,
    /// A transaction occurred.
    TransactionOccurred,
    /// A location was visited.
    LocationVisited,
    /// An address was created.
    AddressCreated,
    /// A transfer between addresses.
    AddressTransfer,
    /// Any other event.
    Other(String),
}

/// The abstract [`EventType`].
pub enum EventTypeModel {
    PersonCreated,
    PersonMoved,
    IPConnection,
    TransactionOccurred,
    LocationVisited,
    AddressCreated,
    AddressTransfer,
    Other(Seq<char>),
}

/// The name of an event type.
pub open spec fn event_type_name(t: EventTypeModel) -> Seq<char> {
    match t {
        EventTypeModel::PersonCreated => "PersonCreated"@,
        EventTypeModel::PersonMoved => "PersonMoved"@,
        EventTypeModel::IPConnection => "IPConnection"@,
        EventTypeModel::TransactionOccurred => "TransactionOccurred"@,
        EventTypeModel::LocationVisited => "LocationVisited"@,
        EventTypeModel::AddressCreated => "AddressCreated"@,
        EventTypeModel::AddressTransfer => "AddressTransfer"@,
        EventTypeModel::Other(s) => s,
    }
}

impl EventType {
    /// The abstract event type.
    pub open spec fn model(&self) -> EventTypeModel {
        match self {
            EventType::PersonCreated => EventTypeModel::PersonCreated,
            EventType::PersonMoved => EventTypeModel::PersonMoved,
            EventType::IPConnection => EventTypeModel::IPConnection,
            EventType::TransactionOccurred => EventTypeModel::TransactionOccurred,
            EventType::LocationVisited => EventTypeModel::LocationVisited,
            EventType::AddressCreated => EventTypeModel::AddressCreated,
            EventType::AddressTransfer => EventTypeModel::AddressTransfer,
            EventType::Other(s) => EventTypeModel::Other(s@),
        }
    }

    /// The name of this event type.
    pub fn as_str(&self) -> (r: &str)
        ensures
            r@ == event_type_name(self.model()),
    {
        match self {
            EventType::PersonCreated => "PersonCreated",
            EventType::PersonMoved => "PersonMoved",
            EventType::IPConnection => "IPConnection",
            EventType::TransactionOccurred => "TransactionOccurred",
            EventType::LocationVisited => "LocationVisited",
            EventType::AddressCreated => "AddressCreated",
            EventType::AddressTransfer => "AddressTransfer",
            EventType::Other(s) => s.as_str(),
        }
    }
}

/// The abstract [`Event`].
#[verifier::ext_equal]
pub struct EventModel {
    pub id: IId,
    pub timestamp: i64,
    pub event_type: EventTypeModel,
    pub entity_id: IId,
    pub payload: ValueModel,
    pub embedding: Option<Seq<u32>>,
    pub related_entities: Seq<(IId, RoleId)>,
}

/// An event, stored in time order. `embedding` holds `f32` bit patterns.
#[derive(Debug, PartialEq)]
pub struct Event {
    /// Event identifier (the same as the incidence identifier).
    pub id: IId,
    /// Unix time in milliseconds.
    pub timestamp: i64,
    /// The event type.
    pub event_type: EventType,
    /// The entity concerned (a person, an IP address, ...).
    pub entity_id: IId,
    /// The event's data.
    pub payload: Value,
    /// Vector embedding (optional).
    pub embedding: Option<Vec<u32>>,
    /// Related entities with their roles.
    pub related_entities: Vec<(IId, RoleId)>,
}

/// `std::time::SystemTime`, declared for use in signatures.
#[verifier::external_type_specification]
#[verifier::external_body]
pub struct ExSystemTime(std::time::SystemTime);

/// The span from the Unix epoch to `t`, when `t` is not before it
/// (what `t.duration_since(UNIX_EPOCH)` gives, its error taken as `None`).
pub uninterp spec fn epoch_offset(t: SystemTime) -> Option<Duration>;

/// The whole milliseconds of `d` (what `Duration::as_millis` gives).
pub uninterp spec fn whole_millis(d: Duration) -> u128;

/// Whether `ms` is what the clock can read, in milliseconds since the Unix
/// epoch: for some time `t`, the whole milliseconds of its span from the
/// epoch cut to `i64` as `as` does, or `0` when `t` lies before the epoch.
pub open spec fn clock_millis(ms: i64) -> bool {
    exists|t: SystemTime| match #[trigger] epoch_offset(t) {
        Some(d) => ms == whole_millis(d) as i64,
        None => ms == 0,
    }
}

/// `SystemTime::now`: the current time of the system clock. Nothing is
/// stated of it: it depends on the clock.
#[verifier::external_body]
fn system_now() -> (r: SystemTime) {
    SystemTime::now()
}

/// `SystemTime::duration_since(UNIX_EPOCH)`: the span from the epoch to
/// `t`, or `None` when `t` lies before the epoch.
#[verifier::external_body]
fn since_epoch(t: &SystemTime) -> (r: Option<Duration>)
    ensures
        r == epoch_offset(*t),
{
    t.duration_since(UNIX_EPOCH).ok()
}

/// `Duration::as_millis`: the whole milliseconds of `d`.
#[verifier::external_body]
fn as_millis(d: &Duration) -> (r: u128)
    ensures
        r == whole_millis(*d),
{
    d.as_millis()
}

/// The current Unix time in milliseconds, cut to `i64` as `as` does; a
/// clock set before the epoch reads as `0`.
fn current_time_millis() -> (r: i64)
    ensures
        clock_millis(r),
{
    let now = system_now();
    match since_epoch(&now) {
        Some(d) => {
            let ms = as_millis(&d);
            proof {
                assert(epoch_offset(now) == Some(d));
            }
            ms as i64
        },
        None => 0,
    }
}

/// The event type guessed from an incidence's value: a string naming a
/// person, an address or a transaction; any other string as itself;
/// `Unknown` for other values and `Incidence` when there is none.
pub open spec fn event_type_for(val: Option<ValueModel>) -> EventTypeModel {
    match val {
        Some(ValueModel::Str(s)) => if has_substring(s, "Person"@) {
            EventTypeModel::PersonCreated
        } else if has_substring(s, "Address"@) {
            EventTypeModel::AddressCreated
        } else if has_substring(s, "Transaction"@) {
            EventTypeModel::TransactionOccurred
        } else {
            EventTypeModel::Other(s)
        },
        Some(_) => EventTypeModel::Other("Unknown"@),
        None => EventTypeModel::Other("Incidence"@),
    }
}

/// The argument/role pairs of an incidence, as far as both lists go.
pub open spec fn arg_role_pairs(args: Seq<IId>, roles: Seq<RoleId>) -> Seq<(IId, RoleId)> {
    Seq::new(
        if args.len() <= roles.len() { args.len() } else { roles.len() },
        |k: int| (args[k], roles[k]),
    )
}

/// The event that an incidence becomes at time `timestamp`.
pub open spec fn event_of_incidence(m: IncidenceModel, timestamp: i64) -> EventModel {
    EventModel {
        id: m.id,
        timestamp,
        event_type: event_type_for(m.val),
        entity_id: if m.args.len() > 0 { m.args[0] } else { m.id },
        payload: match m.val { Some(v) => v, None => ValueModel::Null },
        embedding: m.embedding,
        related_entities: arg_role_pairs(m.args, m.roles),
    }
}

/// Appends `(entity, role)` pairs to an incidence's arguments, in order.
pub open spec fn with_args(args: Seq<IId>, pairs: Seq<(IId, RoleId)>) -> Seq<IId> {
    args + pairs.map_values(|p: (IId, RoleId)| p.0)
}

/// The incidence that an event becomes: level 0, the payload as value, the
/// embedding, each related entity as an argument, and the entity itself
/// with role 0 unless it is already an argument.
pub open spec fn incidence_of_event(e: EventModel) -> IncidenceModel {
    let args = e.related_entities.map_values(|p: (IId, RoleId)| p.0);
    let roles = e.related_entities.map_values(|p: (IId, RoleId)| p.1);
    IncidenceModel {
        id: e.id,
        level: Level(0),
        ty: None,
        args: if args.contains(e.entity_id) { args } else { args.push(e.entity_id) },
        roles: if args.contains(e.entity_id) { roles } else { roles.push(RoleId(0)) },
        val: Some(e.payload),
        embedding: e.embedding,
    }
}

impl Event {
    /// The abstract event.
    pub open spec fn model(&self) -> EventModel {
        EventModel {
            id: self.id,
            timestamp: self.timestamp,
            event_type: self.event_type.model(),
            entity_id: self.entity_id,
            payload: self.payload.model(),
            embedding: opt_vec_model(self.embedding),
            related_entities: self.related_entities@,
        }
    }

    /// A new event with no embedding and no related entities.
    pub fn new(id: IId, timestamp: i64, event_type: EventType, entity_id: IId, payload: Value) -> (r: Event)
        ensures
            r.model() == (EventModel {
                id,
                timestamp,
                event_type: event_type.model(),
                entity_id,
                payload: payload.model(),
                embedding: None,
                related_entities: Seq::empty(),
            }),
    {
        Event { id, timestamp, event_type, entity_id, payload, embedding: None, related_entities: Vec::new() }
    }

    /// Sets the embedding.
    pub fn with_embedding(self, embedding: Vec<u32>) -> (r: Event)
        ensures
            r.model() == (EventModel { embedding: Some(embedding@), ..self.model() }),
    {
        let mut s = self;
        s.embedding = Some(embedding);
        s
    }

    /// Adds a related entity.
    pub fn add_related_entity(self, entity_id: IId, role: RoleId) -> (r: Event)
        ensures
            r.model() == (EventModel { related_entities: self.model().related_entities.push((entity_id, role)), ..self.model() }),
    {
        let mut s = self;
        s.related_entities.push((entity_id, role));
        s
    }

    /// A new event stamped with the current time.
    pub fn now(id: IId, event_type: EventType, entity_id: IId, payload: Value) -> (r: Event)
        ensures
            r.model() == (EventModel {
                id,
                timestamp: r.timestamp,
                event_type: event_type.model(),
                entity_id,
                payload: payload.model(),
                embedding: None,
                related_entities: Seq::empty(),
            }),
            clock_millis(r.timestamp),
    {
        let timestamp = current_time_millis();
        Event::new(id, timestamp, event_type, entity_id, payload)
    }

    /// The event that `inc` becomes at time `timestamp`.
    pub fn from_incidence_at(inc: Incidence, timestamp: i64) -> (r: Event)
        ensures
            r.model() == event_of_incidence(inc.model(), timestamp),
    {
        let ghost m = inc.model();
        let event_type = match &inc.val {
            Some(Value::Str(s)) => {
                if str_contains(s.as_str(), "Person") {
                    EventType::PersonCreated
                } else if str_contains(s.as_str(), "Address") {
                    EventType::AddressCreated
                } else if str_contains(s.as_str(), "Transaction") {
                    EventType::TransactionOccurred
                } else {
                    let c = s.clone();
                    assert(c@ == s@);
                    EventType::Other(c)
                }
            },
            Some(_) => EventType::Other(String::from_str("Unknown")),
            None => EventType::Other(String::from_str("Incidence")),
        };
        let entity_id = if inc.args.len() > 0 { inc.args[0] } else { inc.id };
        let payload = match &inc.val {
            Some(v) => v.deep_copy(),
            None => Value::Null,
        };
        let mut event = Event::new(inc.id, timestamp, event_type, entity_id, payload);
        match &inc.embedding {
            Some(e) => {
                event = event.with_embedding(crate::model::incidence::copy_u32s(e.as_slice()));
            },
            None => {},
        }
        let n = if inc.args.len() <= inc.roles.len() { inc.args.len() } else { inc.roles.len() };
        assert(event.model() =~= (EventModel {
            related_entities: arg_role_pairs(m.args, m.roles).subrange(0, 0),
            ..event_of_incidence(m, timestamp)
        }));
        let mut k: usize = 0;
        while k < n
            invariant
                m == inc.model(),
                n == (if m.args.len() <= m.roles.len() { m.args.len() } else { m.roles.len() }),
                k <= n,
                event.model() == (EventModel {
                    related_entities: arg_role_pairs(m.args, m.roles).subrange(0, k as int),
                    ..event_of_incidence(m, timestamp)
                }),
            decreases n - k,
        {
            event = event.add_related_entity(inc.args[k], inc.roles[k]);
            k = k + 1;
            assert(event.model().related_entities =~= arg_role_pairs(m.args, m.roles).subrange(0, k as int));
        }
        assert(arg_role_pairs(m.args, m.roles).subrange(0, n as int) =~= arg_role_pairs(m.args, m.roles));
        event
    }

    /// The event that `inc` becomes, stamped with the current time.
    pub fn from_incidence(inc: Incidence) -> (r: Event)
        ensures
            r.model() == event_of_incidence(inc.model(), r.timestamp),
            clock_millis(r.timestamp),
    {
        let timestamp = current_time_millis();
        Event::from_incidence_at(inc, timestamp)
    }
}

/// Round trip: an incidence with at least one argument and one role per
/// argument, turned into an event and back, keeps its identifier,
/// arguments, roles, value (absent becomes `Null`) and embedding; its
/// level becomes 0 and its type is dropped.
pub proof fn lemma_incidence_event_round_trip(m: IncidenceModel, timestamp: i64)
    requires
        m.args.len() == m.roles.len(),
        m.args.len() > 0,
    ensures
        incidence_of_event(event_of_incidence(m, timestamp)) == (IncidenceModel {
            level: Level(0),
            ty: None,
            val: Some(match m.val { Some(v) => v, None => ValueModel::Null }),
            ..m
        }),
{
    let e = event_of_incidence(m, timestamp);
    let args = e.related_entities.map_values(|p: (IId, RoleId)| p.0);
    let roles = e.related_entities.map_values(|p: (IId, RoleId)| p.1);
    assert(args =~= m.args);
    assert(roles =~= m.roles);
    assert(args[0] == e.entity_id);
    assert(args.contains(e.entity_id));
}

/// Whether `ids` holds `id`.
fn ids_contain(ids: &[IId], id: IId) -> (r: bool)
    ensures
        r == ids@.contains(id),
{
    let mut k: usize = 0;
    while k < ids.len()
        invariant
            k <= ids@.len(),
            forall|q: int| 0 <= q < k ==> ids@[q] != id,
        decreases ids@.len() - k,
    {
        if ids[k] == id {
            assert(ids@[k as int] == id);
            return true;
        }
        k = k + 1;
    }
    false
}

impl Incidence {
    /// The incidence that `event` becomes.
    pub fn from_event(event: Event) -> (r: Incidence)
        ensures
            r.model() == incidence_of_event(event.model()),
    {
        let ghost e = event.model();
        let ghost args = e.related_entities.map_values(|p: (IId, RoleId)| p.0);
        let ghost roles = e.related_entities.map_values(|p: (IId, RoleId)| p.1);
        let mut incidence = Incidence::new(event.id, Level::zero()).with_val(event.payload);
        match event.embedding {
            Some(embedding) => {
                incidence = incidence.with_embedding(embedding);
            },
            None => {},
        }
        let related = event.related_entities;
        assert(incidence.model() =~= (IncidenceModel {
            args: args.subrange(0, 0),
            roles: roles.subrange(0, 0),
            ..incidence_of_event(e)
        }));
        let mut k: usize = 0;
        while k < related.len()
            invariant
                related@ == e.related_entities,
                args == e.related_entities.map_values(|p: (IId, RoleId)| p.0),
                roles == e.related_entities.map_values(|p: (IId, RoleId)| p.1),
                k <= related@.len(),
                incidence.model() == (IncidenceModel {
                    args: args.subrange(0, k as int),
                    roles: roles.subrange(0, k as int),
                    ..incidence_of_event(e)
                }),
            decreases related@.len() - k,
        {
            let (entity_id, role_id) = related[k];
            incidence = incidence.add_arg(entity_id, role_id);
            k = k + 1;
            assert(incidence.model().args =~= args.subrange(0, k as int));
            assert(incidence.model().roles =~= roles.subrange(0, k as int));
        }
        assert(args.subrange(0, args.len() as int) =~= args);
        assert(roles.subrange(0, roles.len() as int) =~= roles);
        if !ids_contain(incidence.args.as_slice(), event.entity_id) {
            incidence = incidence.add_arg(event.entity_id, RoleId(0));
        }
        incidence
    }
}

} // verus!
