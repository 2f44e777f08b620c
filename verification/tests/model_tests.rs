use incdb::foundation::bisimulation::BisimulationComputer;
use incdb::foundation::coinduction::CoinductiveChecker;
use incdb::ir::converter::{InternalJsonConverter, JsonLdConverter};
use incdb::ir::internal_json::{IncidenceJson, InternalJson};
use incdb::ir::jsonld::{JsonLd, JsonLdContext, JsonLdIncidence};
use incdb::model::event::{Event, EventType};
use incdb::model::incidence::{IId, Incidence, Level, RoleId};
use incdb::model::value::Value;
use incdb::model::world_graph::WorldGraph;
use incdb::query::coinductive::CoinductiveQuery;
use incdb::query::datalog::{DatalogProgram, Predicate, Rule};
use incdb::query::pattern::{Pattern, PatternError, PatternExpr, PatternOp, PatternQuery, PatternVar};
use incdb::vector::aggregation::node_embedding_inputs;
use incdb::vector::embedding::{Embedding, EmbeddingError};

fn bits(v: &[f32]) -> Vec<u32> {
    v.iter().map(|x| x.to_bits()).collect()
}

#[test]
fn test_incidence_creation() {
    let id = IId(1);
    let level = Level::zero();
    let incidence = Incidence::new(id, level);

    assert_eq!(incidence.id, id);
    assert_eq!(incidence.level, level);
    assert!(incidence.ty.is_none());
    assert!(incidence.args.is_empty());
    assert!(incidence.is_valid());
}

#[test]
fn test_incidence_with_args() {
    let id = IId(1);
    let arg_id = IId(2);
    let role = RoleId(1);
    let incidence = Incidence::new(id, Level::zero()).add_arg(arg_id, role);

    assert_eq!(incidence.args.len(), 1);
    assert_eq!(incidence.roles.len(), 1);
    assert_eq!(incidence.args[0], arg_id);
    assert_eq!(incidence.roles[0], role);
    assert!(incidence.is_valid());
}

#[test]
fn test_value_creation() {
    let v1 = Value::string("hello");
    let v2 = Value::integer(42);
    let v3 = Value::float(3.14f64.to_bits());
    let v4 = Value::bool(true);
    let v5 = Value::vector(bits(&[0.1, 0.2, 0.3]));

    assert_eq!(v1, Value::Str("hello".to_string()));
    assert_eq!(v2, Value::Int(42));
    assert_eq!(v3, Value::Float(3.14f64.to_bits()));
    assert_eq!(v4, Value::Bool(true));
    assert_eq!(v5, Value::Vector(bits(&[0.1, 0.2, 0.3])));
}

#[test]
fn test_world_graph() {
    let mut graph = WorldGraph::new();
    let id1 = graph.new_id();
    let id2 = graph.new_id();

    let inc1 = Incidence::new(id1, Level::zero()).with_val(Value::string("test"));
    let inc2 = Incidence::new(id2, Level::zero()).add_arg(id1, RoleId(1));

    graph.add_incidence(inc1);
    graph.add_incidence(inc2);

    assert_eq!(graph.len(), 2);
    assert!(graph.get(id1).is_some());
    assert!(graph.get(id2).is_some());
}

#[test]
fn test_find_by_type() {
    let mut graph = WorldGraph::new();
    let type_id = graph.new_id();
    let id1 = graph.new_id();
    let id2 = graph.new_id();

    let inc1 = Incidence::new(id1, Level::zero()).with_type(type_id);
    let inc2 = Incidence::new(id2, Level::zero()).with_type(type_id);

    graph.add_incidence(inc1);
    graph.add_incidence(inc2);

    let found = graph.find_by_type(type_id);
    assert_eq!(found.len(), 2);
}

#[test]
fn test_event_creation() {
    let id = IId(1);
    let entity_id = IId(2);
    let timestamp = 1234567890000i64;
    let event = Event::new(id, timestamp, EventType::PersonCreated, entity_id, Value::string("John Doe"));

    assert_eq!(event.id, id);
    assert_eq!(event.timestamp, timestamp);
    assert_eq!(event.event_type, EventType::PersonCreated);
    assert_eq!(event.entity_id, entity_id);
}

#[test]
fn test_incidence_to_event() {
    let id = IId(1);
    let entity_id = IId(2);
    let incidence = Incidence::new(id, Level::zero())
        .with_val(Value::string("Person"))
        .add_arg(entity_id, RoleId(1));

    let event = Event::from_incidence(incidence.deep_copy());

    assert_eq!(event.id, id);
    assert_eq!(event.entity_id, entity_id);
    assert_eq!(event.related_entities.len(), 1);
}

#[test]
fn test_incidence_event_incidence_round_trip() {
    let original_incidence = Incidence::new(IId(1), Level::zero())
        .with_val(Value::string("Test"))
        .add_arg(IId(2), RoleId(1))
        .add_arg(IId(3), RoleId(2));

    let event = Event::from_incidence(original_incidence.deep_copy());
    let restored_incidence = Incidence::from_event(event);

    assert_eq!(original_incidence.id, restored_incidence.id);
    assert_eq!(original_incidence.args.len(), restored_incidence.args.len());
    assert_eq!(original_incidence.roles.len(), restored_incidence.roles.len());
    assert_eq!(original_incidence.args, restored_incidence.args);
    assert_eq!(original_incidence.roles, restored_incidence.roles);
}

#[test]
fn test_event_to_incidence_appends_missing_entity() {
    let event = Event::new(IId(1), 1234567890000i64, EventType::PersonCreated, IId(2), Value::string("John Doe"))
        .add_related_entity(IId(3), RoleId(1));
    let incidence = Incidence::from_event(event);
    assert_eq!(incidence.args, vec![IId(3), IId(2)]);
    assert_eq!(incidence.roles, vec![RoleId(1), RoleId(0)]);
    assert_eq!(incidence.val, Some(Value::string("John Doe")));
}

#[test]
fn test_event_from_incidence_at_time() {
    let incidence = Incidence::new(IId(3), Level::zero()).with_val(Value::string("Transaction 5"));
    let event = Event::from_incidence_at(incidence, 99);
    assert_eq!(event.timestamp, 99);
    assert_eq!(event.event_type, EventType::TransactionOccurred);
    assert_eq!(event.entity_id, IId(3));
    let unnamed = Event::from_incidence_at(Incidence::new(IId(4), Level::zero()), 1);
    assert_eq!(unnamed.event_type, EventType::Other("Incidence".to_string()));
    assert_eq!(unnamed.payload, Value::Null);
}

#[test]
fn test_event_type_names() {
    assert_eq!(EventType::PersonCreated.as_str(), "PersonCreated");
    assert_eq!(EventType::Other("audit".to_string()).as_str(), "audit");
}

#[test]
fn test_jsonld_context() {
    let context = JsonLdContext::default();
    assert!(context.vocab.is_some());
}

#[test]
fn test_jsonld() {
    let context = JsonLdContext::default();
    let mut jsonld = JsonLd::new(context);
    let inc = JsonLdIncidence {
        id: "inc:1".to_string(),
        ty: "Incidence".to_string(),
        x: Some("arg:2".to_string()),
        y: Some("rel:1".to_string()),
        role: Some("role:1".to_string()),
        vector: None,
    };
    jsonld.add_incidence(inc);

    assert_eq!(jsonld.graph.len(), 1);
}

#[test]
fn test_internal_json() {
    let mut json = InternalJson::new();
    let inc = IncidenceJson {
        id: "inc:1".to_string(),
        relation: "rel:1".to_string(),
        arg: "arg:2".to_string(),
        role: "role:1".to_string(),
        order: Some(0),
        attrs: None,
        vector: None,
    };
    json.add_incidence(inc);

    assert_eq!(json.incidences.len(), 1);
}

#[test]
fn test_conversion() {
    let context = JsonLdContext::default();
    let mut jsonld = JsonLd::new(context);
    let inc = JsonLdIncidence {
        id: "inc:1".to_string(),
        ty: "Incidence".to_string(),
        x: Some("arg:2".to_string()),
        y: Some("rel:1".to_string()),
        role: Some("role:1".to_string()),
        vector: None,
    };
    jsonld.add_incidence(inc);

    let internal = JsonLdConverter::to_internal(&jsonld);
    assert_eq!(internal.incidences.len(), 1);

    let back = InternalJsonConverter::to_jsonld(&internal);
    assert_eq!(back.graph.len(), 1);
}

#[test]
fn test_conversion_round_trip_values() {
    let mut jsonld = JsonLd::new(JsonLdContext::default());
    jsonld.add_incidence(JsonLdIncidence {
        id: "inc:1".to_string(),
        ty: "Incidence".to_string(),
        x: Some("arg:2".to_string()),
        y: Some("rel:1".to_string()),
        role: Some("role:1".to_string()),
        vector: Some(bits(&[0.5])),
    });
    let internal = JsonLdConverter::to_internal(&jsonld);
    assert_eq!(internal.incidences[0].relation, "rel:1");
    assert_eq!(internal.incidences[0].arg, "arg:2");
    assert_eq!(internal.incidences[0].role, "role:1");
    let back = InternalJsonConverter::to_jsonld(&internal);
    assert_eq!(back.graph, jsonld.graph);
}

#[test]
fn test_set_embedding() {
    let mut graph = WorldGraph::new();
    let id = graph.new_id();
    let inc = Incidence::new(id, Level::zero());
    graph.add_incidence(inc);

    let embedding = bits(&[0.1, 0.2, 0.3]);
    Embedding::set_embedding(&mut graph, id, embedding.clone()).unwrap();

    let retrieved = Embedding::get_embedding(&graph, id).unwrap();
    assert_eq!(retrieved, &embedding);
}

#[test]
fn test_set_embedding_missing() {
    let mut graph = WorldGraph::new();
    let r = Embedding::set_embedding(&mut graph, IId(9), bits(&[1.0]));
    assert_eq!(r, Err(EmbeddingError::NotFound(IId(9))));
    assert_eq!(Embedding::dimension(&graph, IId(9)), None);
}

#[test]
fn test_vector_search_integration() {
    let mut graph = WorldGraph::new();
    let id1 = graph.new_id();
    let id2 = graph.new_id();
    let id3 = graph.new_id();

    graph.add_incidence(Incidence::new(id1, Level::zero()));
    graph.add_incidence(Incidence::new(id2, Level::zero()));
    graph.add_incidence(Incidence::new(id3, Level::zero()));

    Embedding::set_embedding(&mut graph, id1, bits(&[1.0, 0.0, 0.0])).unwrap();
    Embedding::set_embedding(&mut graph, id2, bits(&[0.0, 1.0, 0.0])).unwrap();
    Embedding::set_embedding(&mut graph, id3, bits(&[0.0, 0.0, 1.0])).unwrap();

    assert!(Embedding::get_embedding(&graph, id1).is_some());
    assert!(Embedding::get_embedding(&graph, id2).is_some());
    assert!(Embedding::get_embedding(&graph, id3).is_some());

    assert_eq!(Embedding::dimension(&graph, id1), Some(3));
}

#[test]
fn test_node_embedding_inputs_selects_mentioning_incidences() {
    let mut graph = WorldGraph::new();
    let node_id = graph.new_id();
    let inc1_id = graph.new_id();
    let inc2_id = graph.new_id();

    graph.add_incidence(Incidence::new(inc1_id, Level::zero()).add_arg(node_id, RoleId(1)));
    graph.add_incidence(Incidence::new(inc2_id, Level::zero()).add_arg(node_id, RoleId(2)));

    Embedding::set_embedding(&mut graph, inc1_id, bits(&[1.0, 0.0])).unwrap();
    Embedding::set_embedding(&mut graph, inc2_id, bits(&[0.0, 1.0])).unwrap();

    let inputs = node_embedding_inputs(&graph, node_id).unwrap();
    assert_eq!(inputs, vec![bits(&[1.0, 0.0]), bits(&[0.0, 1.0])]);
    assert_eq!(node_embedding_inputs(&graph, IId(99)), None);
}

#[test]
fn test_worldgraph_query_integration() {
    let mut graph = WorldGraph::new();
    let person_type = graph.new_id();
    let person1 = graph.new_id();
    let person2 = graph.new_id();

    let p1 = Incidence::new(person1, Level::zero()).with_type(person_type).with_val(Value::string("Alice"));
    let p2 = Incidence::new(person2, Level::zero()).with_type(person_type).with_val(Value::string("Bob"));

    graph.add_incidence(p1);
    graph.add_incidence(p2);

    let mut program = DatalogProgram::new();
    program.add_fact(Predicate::Inc(person1));
    program.add_fact(Predicate::Inc(person2));
    program.add_fact(Predicate::Type(person1, person_type));
    program.add_fact(Predicate::Type(person2, person_type));

    let results = program.evaluate(&graph).unwrap();
    assert!(results.len() >= 2);

    let found = graph.find_by_type(person_type);
    assert_eq!(found.len(), 2);
}

#[test]
fn test_coinductive_bisimulation_integration() {
    let mut graph = WorldGraph::new();
    let id1 = graph.new_id();
    let id2 = graph.new_id();

    let inc1 = Incidence::new(id1, Level::zero()).add_arg(id2, RoleId(1));
    let inc2 = Incidence::new(id2, Level::zero()).add_arg(id1, RoleId(1));

    graph.add_incidence(inc1);
    graph.add_incidence(inc2);

    let mut checker = CoinductiveChecker::new(&graph, 10);
    let _are_equal = checker.check_equality(id1, id2, 0);

    let computer = BisimulationComputer::new(&graph);
    let result = computer.compute_bisimulation(id1, id2);
    assert!(!result.are_bisimilar || result.relation.contains(&(id1, id2)));
}

#[test]
fn test_coinductive_query() {
    let mut graph = WorldGraph::new();
    let id1 = graph.new_id();
    let id2 = graph.new_id();
    let id3 = graph.new_id();

    let inc1 = Incidence::new(id1, Level::zero()).add_arg(id2, RoleId(1));
    let inc2 = Incidence::new(id2, Level::zero()).add_arg(id3, RoleId(1));
    let inc3 = Incidence::new(id3, Level::zero());

    graph.add_incidence(inc1);
    graph.add_incidence(inc2);
    graph.add_incidence(inc3);

    let mut query = CoinductiveQuery::new(id1, 10);
    let results = query.execute(&graph);

    assert!(results.contains(&id1));
    assert!(results.contains(&id2));
    assert!(results.contains(&id3));
}

#[test]
fn test_coinductive_query_depth_limit_and_cycle() {
    let mut graph = WorldGraph::new();
    let a = graph.new_id();
    let b = graph.new_id();
    let c = graph.new_id();
    graph.add_incidence(Incidence::new(a, Level::zero()).add_arg(b, RoleId(1)));
    graph.add_incidence(Incidence::new(b, Level::zero()).add_arg(c, RoleId(1)).add_arg(a, RoleId(2)));
    graph.add_incidence(Incidence::new(c, Level::zero()));

    let mut shallow = CoinductiveQuery::new(a, 1);
    assert_eq!(shallow.execute(&graph), vec![a, b]);
    let mut deep = CoinductiveQuery::new(a, 5);
    assert_eq!(deep.execute(&graph), vec![a, b, c]);
}

#[test]
fn test_datalog_evaluation() {
    let mut graph = WorldGraph::new();
    let inc_id = graph.new_id();
    let type_id = graph.new_id();
    let arg_id = graph.new_id();

    let inc = Incidence::new(inc_id, Level::zero())
        .with_type(type_id)
        .add_arg(arg_id, RoleId(1))
        .with_val(Value::string("test"));

    graph.add_incidence(inc);

    let mut program = DatalogProgram::new();
    program.add_fact(Predicate::Inc(inc_id));

    let results = program.evaluate(&graph).unwrap();
    assert!(results.contains(&Predicate::Inc(inc_id)));
}

#[test]
fn test_add_incidence_assigns_fresh_id_to_zero() {
    let mut graph = WorldGraph::new();
    let first = graph.add_incidence(Incidence::new(IId(0), Level::zero()));
    let second = graph.add_incidence(Incidence::new(IId(0), Level::zero()));
    assert_eq!(first, IId(1));
    assert_eq!(second, IId(2));
    assert_eq!(graph.get(IId(2)).unwrap().id, IId(2));
}

#[test]
fn test_read_after_write_latest_wins() {
    let mut graph = WorldGraph::new();
    graph.add_incidence(Incidence::new(IId(5), Level::zero()).with_val(Value::integer(1)));
    graph.add_incidence(Incidence::new(IId(5), Level::zero()).with_val(Value::integer(2)));
    assert_eq!(graph.get(IId(5)).unwrap().val, Some(Value::integer(2)));
    assert_eq!(graph.len(), 2);
}

#[test]
fn test_pattern_query_match_where() {
    let mut graph = WorldGraph::new();
    graph.add_incidence(Incidence::new(IId(1), Level::zero()).with_val(Value::integer(5)));
    graph.add_incidence(Incidence::new(IId(2), Level::zero()).with_val(Value::integer(9)));

    let mut query = PatternQuery::new();
    query.matches.push(Pattern::Incidence { var: PatternVar("x".to_string()), ty: None, args: vec![] });
    query.where_clause.push(Pattern::Condition {
        left: PatternExpr::Var(PatternVar("x".to_string())),
        op: PatternOp::Gt,
        right: PatternExpr::Value(Value::integer(3)),
    });
    let results = query.execute(&graph).unwrap();
    assert_eq!(results.len(), 1);
    assert_eq!(results[0].bindings, vec![(PatternVar("x".to_string()), IId(1))]);

    let mut failing = PatternQuery::new();
    failing.where_clause.push(Pattern::Condition {
        left: PatternExpr::Var(PatternVar("y".to_string())),
        op: PatternOp::Eq,
        right: PatternExpr::Value(Value::integer(3)),
    });
    match failing.execute(&graph) {
        Err(PatternError::Evaluation(msg)) => assert_eq!(msg, "Variable not found: PatternVar(\"y\")"),
        other => panic!("unexpected {:?}", other),
    }
    // The name is shown as `{:?}` of the variable: quoted and escaped.
    let mut escaped = PatternQuery::new();
    escaped.where_clause.push(Pattern::Condition {
        left: PatternExpr::Var(PatternVar("a\"b".to_string())),
        op: PatternOp::Eq,
        right: PatternExpr::Value(Value::integer(3)),
    });
    match escaped.execute(&graph) {
        Err(PatternError::Evaluation(msg)) => {
            assert_eq!(msg, format!("Variable not found: {:?}", PatternVar("a\"b".to_string())));
            assert_eq!(msg, "Variable not found: PatternVar(\"a\\\"b\")");
        },
        other => panic!("unexpected {:?}", other),
    }
    assert!(query.compare_values(&Value::integer(2), &PatternOp::Lt, &Value::integer(3)));
    assert!(!query.compare_values(&Value::integer(2), &PatternOp::Le, &Value::integer(3)));
}

#[test]
fn test_event_now_reads_the_clock() {
    let event = Event::now(IId(1), EventType::PersonMoved, IId(2), Value::Null);
    assert!(event.timestamp > 1_600_000_000_000);
    assert_eq!(event.event_type, EventType::PersonMoved);
}

#[test]
fn test_basic_usage_walkthrough() {
    let mut graph = WorldGraph::new();
    let id1 = graph.new_id();
    let id2 = graph.new_id();
    let id3 = graph.new_id();
    let type_id = graph.new_id();
    assert_eq!((id1, id2, id3, type_id), (IId(1), IId(2), IId(3), IId(4)));

    graph.add_incidence(
        Incidence::new(id1, Level::zero()).with_type(type_id).with_val(Value::string("Hello")).add_arg(id2, RoleId(1)),
    );
    graph.add_incidence(Incidence::new(id2, Level::zero()).with_val(Value::integer(42)));
    graph.add_incidence(Incidence::new(id3, Level::zero()).with_type(type_id).add_arg(id2, RoleId(1)));
    assert_eq!(graph.len(), 3);
    assert_eq!(graph.get(id1).unwrap().args, vec![id2]);
    assert_eq!(graph.find_by_type(type_id).len(), 2);

    Embedding::set_embedding(&mut graph, id1, bits(&[0.1, 0.2, 0.3, 0.4])).unwrap();
    Embedding::set_embedding(&mut graph, id3, bits(&[0.5, 0.6, 0.7, 0.8])).unwrap();
    assert_eq!(Embedding::get_embedding(&graph, id1), Some(&bits(&[0.1, 0.2, 0.3, 0.4])));

    // id1 carries a value that id3 lacks, so neither check relates them.
    let mut checker = CoinductiveChecker::new(&graph, 10);
    assert!(!checker.check_equality(id1, id3, 0));
    assert!(!BisimulationComputer::new(&graph).compute_bisimulation(id1, id3).are_bisimilar);

    let jsonld = InternalJsonConverter::from_world_graph(&graph);
    assert_eq!(jsonld.graph.len(), 3);
}

#[test]
fn test_query_example_walkthrough() {
    let mut graph = WorldGraph::new();
    let person_type = graph.new_id();
    let event_type = graph.new_id();
    let person1 = graph.new_id();
    let person2 = graph.new_id();
    let event1 = graph.new_id();
    graph.add_incidence(Incidence::new(person1, Level::zero()).with_type(person_type).with_val(Value::string("Alice")));
    graph.add_incidence(Incidence::new(person2, Level::zero()).with_type(person_type).with_val(Value::string("Bob")));
    graph.add_incidence(
        Incidence::new(event1, Level::zero())
            .with_type(event_type)
            .with_val(Value::string("Meeting"))
            .add_arg(person1, RoleId(1))
            .add_arg(person2, RoleId(2)),
    );
    assert_eq!(graph.len(), 3);

    let mut program = DatalogProgram::new();
    program.add_fact(Predicate::Inc(person1));
    program.add_fact(Predicate::Inc(person2));
    program.add_fact(Predicate::Inc(event1));
    let results = program.evaluate(&graph).unwrap();
    assert_eq!(results.len(), 3);
}

#[test]
fn test_datalog_float_values_compare_as_numbers() {
    let mut graph = WorldGraph::new();
    graph.add_incidence(Incidence::new(IId(1), Level::zero()).with_val(Value::float((-0.0f64).to_bits())));
    graph.add_incidence(Incidence::new(IId(2), Level::zero()).with_val(Value::float(f64::NAN.to_bits())));

    // A stored -0.0 matches a body asking for 0.0.
    let mut program = DatalogProgram::new();
    program.add_rule(Rule {
        head: Predicate::Inc(IId(10)),
        body: vec![Predicate::Attr(IId(1), "v".to_string(), Value::float(0.0f64.to_bits()))],
    });
    // A stored NaN matches nothing.
    program.add_rule(Rule {
        head: Predicate::Inc(IId(20)),
        body: vec![Predicate::Attr(IId(2), "v".to_string(), Value::float(f64::NAN.to_bits()))],
    });
    let results = program.evaluate(&graph).unwrap();
    assert_eq!(results, vec![Predicate::Inc(IId(10))]);

    // A head equal to a present atom (0.0 against -0.0) is not added again.
    let mut dedup = DatalogProgram::new();
    dedup.add_fact(Predicate::Attr(IId(1), "v".to_string(), Value::float((-0.0f64).to_bits())));
    dedup.add_rule(Rule {
        head: Predicate::Attr(IId(1), "v".to_string(), Value::float(0.0f64.to_bits())),
        body: vec![Predicate::Inc(IId(1))],
    });
    assert_eq!(dedup.evaluate(&graph).unwrap().len(), 1);
}

#[test]
fn test_event_to_incidence() {
    let id = IId(1);
    let entity_id = IId(2);
    let event = Event::new(id, 1234567890000i64, EventType::PersonCreated, entity_id, Value::string("John Doe"))
        .add_related_entity(entity_id, RoleId(1));

    let incidence = Incidence::from_event(event);

    assert_eq!(incidence.id, id);
    assert_eq!(incidence.val, Some(Value::string("John Doe")));
    // The entity is already among the related entities, so it is not added again.
    assert_eq!(incidence.args.len(), 1);
}
