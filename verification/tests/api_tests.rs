use incdb::api::benchmark::{
    benchmark_row, embedded_data, multi_hop_metadata, read_metadata, write_metadata, BenchmarkMetadata, BenchmarkMutation, MultiHopBenchmarkConfig, ReadBenchmarkConfig, VectorHopBenchmarkConfig,
    WriteBenchmarkConfig,
};
use incdb::api::demo::{load_crypto_investigation_data, load_sample_data};
use incdb::api::event_sourced::{EventSourcedMutation, EventSourcedQuery};
use incdb::api::hop_walk::HopWalk;
use incdb::api::mutation::{Mutation, ValueInput, convert_value_input};
use incdb::api::parse::parse_predicate;
use incdb::api::query::{Query, StructurePattern, TypeInfo};
use incdb::api::service::{
    AddIncidenceRequest, GetIncidenceRequest, IncDBServiceImpl, ProtoIncidence, ProtoKind, ProtoValue, ServiceError,
};
use incdb::api::schema::{ApiError, IncidenceType, ValueType, decimal_string, parse_id};
use incdb::api::structure::GraphEdge;
use incdb::model::event_sourced_graph_builder::EventSourcedGraphBuilder;
use incdb::model::incidence::{IId, Incidence, Level, RoleId};
use incdb::model::value::Value;
use incdb::model::world_graph::WorldGraph;
use incdb::query::datalog::Predicate;

fn bits(v: &[f32]) -> Vec<u32> {
    v.iter().map(|x| x.to_bits()).collect()
}

fn entry(key: &str, value: &str) -> BenchmarkMetadata {
    BenchmarkMetadata { key: key.to_string(), value: value.to_string() }
}

fn sample_graph() -> WorldGraph {
    let mut graph = WorldGraph::new();
    load_sample_data(&mut graph);
    graph
}

fn written_graph(rows: i32, per_row: i32, dim: i32) -> WorldGraph {
    let mut graph = WorldGraph::new();
    let config = WriteBenchmarkConfig {
        data_size: rows,
        batch_size: Some(3),
        vector_dim: Some(dim),
        args_per_incidence: Some(per_row),
    };
    let embeddings: Vec<Vec<u32>> = if dim > 0 {
        (0..rows as usize)
            .map(|i| (0..dim as usize).map(|j| (((i + j) as f32) * 0.001).sin().to_bits()).collect())
            .collect()
    } else {
        Vec::new()
    };
    BenchmarkMutation.benchmark_write(&mut graph, &config, embeddings);
    graph
}

#[test]
fn test_parse_id_follows_str_parse() {
    assert_eq!(parse_id("42"), Some(42));
    assert_eq!(parse_id("+7"), Some(7));
    assert_eq!(parse_id("18446744073709551615"), Some(u64::MAX));
    assert_eq!(parse_id("18446744073709551616"), None);
    assert_eq!(parse_id(""), None);
    assert_eq!(parse_id(" 5"), None);
    assert_eq!(parse_id("-1"), None);
    assert_eq!(decimal_string(1234), "1234");
}

#[test]
fn test_parse_predicate_forms() {
    assert_eq!(parse_predicate("Inc(1)"), Some(Predicate::Inc(IId(1))));
    assert_eq!(parse_predicate("Type(1, 2)"), Some(Predicate::Type(IId(1), IId(2))));
    assert_eq!(parse_predicate("Role(1, 0, 2)"), Some(Predicate::Role(IId(1), 0, IId(2))));
    assert_eq!(parse_predicate("Role(1, 4294967296, 2)"), None);
    assert_eq!(parse_predicate("Type(1)"), None);
    assert_eq!(parse_predicate("Inc(x)"), None);
    assert_eq!(parse_predicate("Inc(1"), None);
}

#[test]
fn test_api_error_messages() {
    assert_eq!(ApiError::InvalidId.message(), "Invalid ID");
    assert_eq!(ApiError::InvalidTypeId.message(), "Invalid type ID");
    assert_eq!(ApiError::InvalidArgId.message(), "Invalid arg ID");
    assert_eq!(ApiError::EmptyGraph.message(), "Graph is empty. Please run write benchmark first.");
}

#[test]
fn test_query_incidence() {
    let graph = sample_graph();
    let alice = Query.incidence(&graph, "3").unwrap().unwrap();
    assert_eq!(alice.id, "3");
    assert_eq!(alice.type_id, Some("1".to_string()));
    assert_eq!(alice.value.unwrap().str, Some("Alice".to_string()));
    assert_eq!(alice.embedding, Some(bits(&[0.1, 0.2, 0.3, 0.4, 0.5])));
    assert_eq!(Query.incidence(&graph, "99").unwrap(), None);
    assert_eq!(Query.incidence(&graph, "x"), Err(ApiError::InvalidId));
}

#[test]
fn test_query_incidences_in_order() {
    let graph = sample_graph();
    let all = Query.incidences(&graph);
    let ids: Vec<String> = all.iter().map(|t| t.id.clone()).collect();
    assert_eq!(ids, vec!["1", "2", "3", "4", "5", "6"]);
    assert_eq!(all[4].args, vec!["3".to_string(), "4".to_string()]);
    assert_eq!(all[4].roles, vec![1, 1]);
}

#[test]
fn test_types_sorted_with_counts() {
    let mut graph = sample_graph();
    graph.add_incidence(Incidence::new(IId(40), Level::zero()).with_type(IId(77)));
    let types = Query.types(&graph);
    assert_eq!(
        types,
        vec![
            TypeInfo { id: "1".to_string(), level: 0, incidence_count: 2 },
            TypeInfo { id: "2".to_string(), level: 0, incidence_count: 1 },
        ]
    );
}

#[test]
fn test_schema_stats() {
    let graph = sample_graph();
    let stats = Query.schema_stats(&graph);
    assert_eq!(stats.total_incidences, 6);
    assert_eq!(stats.type_count, 2);
    assert_eq!(stats.role_count, 2);
    assert_eq!(stats.vector_count, 3);
}

#[test]
fn test_type_detail_patterns() {
    let mut graph = sample_graph();
    graph.add_incidence(
        Incidence::new(IId(50), Level::zero()).with_type(IId(1)).add_arg(IId(3), RoleId(1)),
    );
    let detail = Query.type_detail(&graph, "1").unwrap().unwrap();
    assert_eq!(detail.id, "1");
    assert_eq!(detail.incidence_count, 3);
    assert_eq!(detail.incidences.len(), 3);
    assert_eq!(
        detail.structure_patterns,
        vec![
            StructurePattern { pattern: "args:0,roles:0".to_string(), count: 2 },
            StructurePattern { pattern: "args:1,roles:1".to_string(), count: 1 },
        ]
    );
    assert_eq!(Query.type_detail(&graph, "99").unwrap(), None);
    assert_eq!(Query.type_detail(&graph, "one"), Err(ApiError::InvalidId));
}

#[test]
fn test_execute_datalog_lines() {
    let graph = sample_graph();
    let result = Query.execute_datalog(&graph, "Inc(3)\n// Inc(4)\n\n  Inc(99)  \nType(3, 1)\r\nbogus\nInc(5)");
    assert_eq!(result.predicate_count, 4);
    let ids: Vec<String> = result.incidences.iter().map(|t| t.id.clone()).collect();
    assert_eq!(ids, vec!["3", "5"]);
}

#[test]
fn test_graph_structure_walk_order() {
    let graph = sample_graph();
    let s = Query.graph_structure(&graph, &vec!["5".to_string(), "nope".to_string()], 1);
    let node_ids: Vec<String> = s.nodes.iter().map(|n| n.id.clone()).collect();
    assert_eq!(node_ids, vec!["5", "4", "3"]);
    assert_eq!(
        s.edges,
        vec![
            GraphEdge { from: "5".to_string(), to: "3".to_string(), role: 1 },
            GraphEdge { from: "5".to_string(), to: "4".to_string(), role: 1 },
        ]
    );
    assert_eq!(s.nodes[0].type_id, Some("2".to_string()));

    let shallow = Query.graph_structure(&graph, &vec!["5".to_string()], 0);
    assert_eq!(shallow.nodes.len(), 1);
    assert_eq!(shallow.edges.len(), 2);

    let unlimited = Query.graph_structure(&graph, &vec!["6".to_string()], -1);
    let ids: Vec<String> = unlimited.nodes.iter().map(|n| n.id.clone()).collect();
    assert_eq!(ids, vec!["6", "5", "4", "3"]);
}

#[test]
fn test_graph_structure_missing_role_is_zero() {
    let mut graph = WorldGraph::new();
    let mut inc = Incidence::new(IId(1), Level::zero());
    inc.args.push(IId(2));
    graph.add_incidence(inc);
    let s = Query.graph_structure(&graph, &vec!["1".to_string()], 2);
    assert_eq!(s.edges, vec![GraphEdge { from: "1".to_string(), to: "2".to_string(), role: 0 }]);
    assert_eq!(s.nodes.len(), 1);
}

#[test]
fn test_vector_candidates_match_dimension() {
    let graph = sample_graph();
    let c = Query.vector_candidates(&graph, 5);
    let ids: Vec<IId> = c.iter().map(|p| p.0).collect();
    assert_eq!(ids, vec![IId(3), IId(4), IId(5)]);
    assert!(Query.vector_candidates(&graph, 4).is_empty());
}

#[test]
fn test_value_type_shapes() {
    assert_eq!(
        ValueType::from_value(&Value::integer(5)),
        ValueType { str: None, int: Some(5), float: None, bool: None, vector: None }
    );
    assert_eq!(
        ValueType::from_value(&Value::List(vec![])),
        ValueType { str: None, int: None, float: None, bool: None, vector: None }
    );
    let t = IncidenceType::from_incidence(&Incidence::new(IId(9), Level(3)).add_arg(IId(2), RoleId(4)));
    assert_eq!(t.id, "9");
    assert_eq!(t.level, 3);
    assert_eq!(t.args, vec!["2".to_string()]);
    assert_eq!(t.roles, vec![4]);
}

#[test]
fn test_convert_value_input_first_field_wins() {
    let both = ValueInput { str: Some("s".to_string()), int: Some(1), float: None, bool: None, vector: None };
    assert_eq!(convert_value_input(both), Value::Str("s".to_string()));
    let f = ValueInput { str: None, int: None, float: Some(2.5f64.to_bits()), bool: Some(true), vector: None };
    assert_eq!(convert_value_input(f), Value::Float(2.5f64.to_bits()));
    let none = ValueInput { str: None, int: None, float: None, bool: None, vector: None };
    assert_eq!(convert_value_input(none), Value::Null);
}

#[test]
fn test_mutation_add_incidence() {
    let mut graph = WorldGraph::new();
    let m = Mutation::default();
    let t = m
        .add_incidence(
            &mut graph,
            None,
            300,
            Some("7".to_string()),
            Some(vec!["1".to_string(), "2".to_string(), "3".to_string()]),
            Some(vec![5, 6]),
            Some(ValueInput { str: Some("v".to_string()), int: None, float: None, bool: None, vector: None }),
            None,
        )
        .unwrap();
    assert_eq!(t.id, "1");
    assert_eq!(t.level, 44);
    assert_eq!(t.type_id, Some("7".to_string()));
    assert_eq!(t.args, vec!["1".to_string(), "2".to_string()]);
    assert_eq!(t.roles, vec![5, 6]);
    assert_eq!(graph.len(), 1);
    assert_eq!(graph.get(IId(1)).unwrap().val, Some(Value::string("v")));
    assert_eq!(graph.new_id(), IId(2));
}

#[test]
fn test_mutation_add_incidence_errors() {
    let mut graph = WorldGraph::new();
    let m = Mutation::default();
    let r = m.add_incidence(&mut graph, Some("abc".to_string()), 0, None, None, None, None, None);
    assert_eq!(r, Err(ApiError::InvalidId));
    assert_eq!(graph.len(), 0);

    let r = m.add_incidence(&mut graph, None, 0, Some("t".to_string()), None, None, None, None);
    assert_eq!(r, Err(ApiError::InvalidTypeId));
    assert_eq!(graph.len(), 0);
    assert_eq!(graph.new_id(), IId(2));

    let r = m.add_incidence(
        &mut graph,
        Some("10".to_string()),
        0,
        None,
        Some(vec!["1".to_string(), "q".to_string()]),
        Some(vec![1, 2]),
        None,
        None,
    );
    assert_eq!(r, Err(ApiError::InvalidArgId));

    let ok = m
        .add_incidence(
            &mut graph,
            Some("10".to_string()),
            0,
            None,
            Some(vec!["1".to_string(), "q".to_string()]),
            Some(vec![1]),
            None,
            Some(bits(&[1.0])),
        )
        .unwrap();
    assert_eq!(ok.args, vec!["1".to_string()]);
    assert_eq!(ok.embedding, Some(bits(&[1.0])));
    assert_eq!(graph.len(), 1);
}

#[test]
fn test_load_sample_data() {
    let mut graph = WorldGraph::new();
    let r = Mutation::default().load_sample_data(&mut graph);
    assert_eq!(r.created_count, 6);
    assert_eq!(r.created_ids, vec!["1", "2", "3", "4", "5", "6"]);
    let acme = graph.get(IId(5)).unwrap();
    assert_eq!(acme.ty, Some(IId(2)));
    assert_eq!(acme.args, vec![IId(3), IId(4)]);
    assert_eq!(acme.roles, vec![RoleId(1), RoleId(1)]);
    assert_eq!(acme.embedding, Some(bits(&[0.15, 0.25, 0.35, 0.45, 0.55])));
    let works_at = graph.get(IId(6)).unwrap();
    assert_eq!(works_at.val, Some(Value::string("works_at")));
    assert_eq!(works_at.args, vec![IId(3), IId(5)]);
    assert_eq!(works_at.roles, vec![RoleId(1), RoleId(2)]);
}

#[test]
fn test_load_crypto_investigation_data() {
    let mut graph = WorldGraph::new();
    graph.new_id();
    let r = load_crypto_investigation_data(&mut graph);
    assert_eq!(r.created_count, 20);
    assert_eq!(r.created_ids.first().map(|s| s.as_str()), Some("2"));
    assert_eq!(r.created_ids.last().map(|s| s.as_str()), Some("21"));
    let suspect = graph.get(IId(5)).unwrap();
    assert_eq!(suspect.val, Some(Value::string("タカシ・ヤマダ")));
    assert_eq!(suspect.ty, Some(IId(2)));
    assert_eq!(suspect.embedding, Some(bits(&[0.9, 0.8, 0.7, 0.6, 0.5, 0.4, 0.3])));
    let tx1 = graph.get(IId(16)).unwrap();
    assert_eq!(tx1.val, Some(Value::string("TX001: 100 BTC")));
    assert_eq!(tx1.ty, Some(IId(4)));
    assert_eq!(tx1.args, vec![IId(12), IId(9)]);
    assert_eq!(tx1.embedding, Some(bits(&[0.6, 0.5, 0.4, 0.3, 0.2, 0.1, 0.0])));
    let investigates = graph.get(IId(21)).unwrap();
    assert_eq!(investigates.args, vec![IId(7), IId(6)]);
    assert_eq!(graph.len(), 20);
}

#[test]
fn test_benchmark_write_rows() {
    let mut graph = WorldGraph::new();
    let config = WriteBenchmarkConfig { data_size: 5, batch_size: Some(2), vector_dim: Some(3), args_per_incidence: None };
    let embeddings: Vec<Vec<u32>> = (0..5u32).map(|i| vec![i, i + 1, i + 2]).collect();
    let report = BenchmarkMutation.benchmark_write(&mut graph, &config, embeddings);
    assert_eq!(report.total_written, 5);
    assert_eq!(
        report.metadata,
        vec![entry("batch_size", "2"), entry("vector_dim", "3"), entry("args_per_incidence", "2")]
    );
    assert_eq!(graph.len(), 5);
    assert!(graph.get(IId(1)).unwrap().args.is_empty());
    let row2 = graph.get(IId(3)).unwrap();
    assert_eq!(row2.args, vec![IId(2), IId(1)]);
    assert_eq!(row2.roles, vec![RoleId(0), RoleId(1)]);
    assert_eq!(row2.embedding, Some(vec![2, 3, 4]));
    let row1 = graph.get(IId(2)).unwrap();
    assert_eq!(row1.args, vec![IId(1)]);
}

#[test]
fn test_benchmark_write_huge_batch() {
    let mut graph = WorldGraph::new();
    let config = WriteBenchmarkConfig { data_size: 4, batch_size: Some(-1), vector_dim: Some(0), args_per_incidence: Some(0) };
    let report = BenchmarkMutation.benchmark_write(&mut graph, &config, Vec::new());
    assert_eq!(report.total_written, 4);
    assert!(graph.get(IId(4)).unwrap().args.is_empty());
    assert_eq!(graph.get(IId(4)).unwrap().embedding, None);
}

#[test]
fn test_benchmark_write_args_preservation() {
    let graph = written_graph(100, 2, 128);
    for i in 0..100u64 {
        let inc = graph.get(IId(i + 1)).unwrap();
        let expected = if i > 0 { std::cmp::min(2, i) } else { 0 } as usize;
        assert_eq!(inc.args.len(), expected);
        for j in 0..expected as u64 {
            assert!(inc.args.contains(&IId(i - j)));
        }
        assert_eq!(inc.embedding.as_ref().map(|e| e.len()), Some(128));
    }
}

#[test]
fn test_benchmark_read_counts() {
    let graph = written_graph(10, 2, 0);
    let config = ReadBenchmarkConfig { data_size: 10, query_count: Some(5) };
    let report = BenchmarkMutation.benchmark_read(&graph, &config, &[0, 1, 9, 10, 19]).unwrap();
    assert_eq!(report.graph_size, 10);
    assert_eq!(report.successful_reads, 5);
    assert_eq!(report.metadata, vec![entry("query_count", "5"), entry("successful_reads", "5")]);

    let mut sparse = WorldGraph::new();
    sparse.add_incidence(Incidence::new(IId(5), Level::zero()));
    let one = ReadBenchmarkConfig { data_size: 1, query_count: Some(2) };
    let r = BenchmarkMutation.benchmark_read(&sparse, &one, &[0, 3]).unwrap();
    assert_eq!(r.successful_reads, 0);

    let empty = WorldGraph::new();
    assert_eq!(BenchmarkMutation.benchmark_read(&empty, &one, &[0, 0]), Err(ApiError::EmptyGraph));
}

#[test]
fn test_benchmark_multi_hop_counts() {
    let graph = written_graph(10, 2, 0);
    let config = MultiHopBenchmarkConfig { start_nodes: 2, depth: 3, avg_edges: None };
    let report = BenchmarkMutation.benchmark_multi_hop(&graph, &config).unwrap();
    assert_eq!(report.total_hops, 1);
    assert_eq!(report.total_nodes_visited, 3);
    assert_eq!(
        report.metadata,
        vec![
            entry("start_nodes", "2"),
            entry("depth", "3"),
            entry("total_hops", "1"),
            entry("total_nodes_visited", "3"),
        ]
    );
    let empty = WorldGraph::new();
    assert_eq!(BenchmarkMutation.benchmark_multi_hop(&empty, &config), Err(ApiError::EmptyGraph));
}

#[test]
fn test_benchmark_multi_hop_levels() {
    let mut graph = WorldGraph::new();
    for i in 1..=10u64 {
        let mut inc = Incidence::new(IId(i), Level::zero());
        if i > 1 {
            inc = inc.add_arg(IId(i - 1), RoleId(0));
        }
        if i > 2 {
            inc = inc.add_arg(IId(i - 2), RoleId(1));
        }
        graph.add_incidence(inc);
    }
    let start_last = {
        let mut g = WorldGraph::new();
        for i in (1..=10u64).rev() {
            let mut inc = Incidence::new(IId(i), Level::zero());
            if i > 1 {
                inc = inc.add_arg(IId(i - 1), RoleId(0));
            }
            if i > 2 {
                inc = inc.add_arg(IId(i - 2), RoleId(1));
            }
            g.add_incidence(inc);
        }
        g
    };
    let config = MultiHopBenchmarkConfig { start_nodes: 1, depth: 3, avg_edges: Some(3) };
    let report = BenchmarkMutation.benchmark_multi_hop(&start_last, &config).unwrap();
    assert_eq!(report.total_hops, 6);
    assert_eq!(report.total_nodes_visited, 7);
    let one_edge = MultiHopBenchmarkConfig { start_nodes: 1, depth: 20, avg_edges: Some(1) };
    let chain = BenchmarkMutation.benchmark_multi_hop(&start_last, &one_edge).unwrap();
    assert_eq!(chain.total_hops, 9);
    assert_eq!(chain.total_nodes_visited, 10);
    let all = MultiHopBenchmarkConfig { start_nodes: 100, depth: 0, avg_edges: None };
    let none = BenchmarkMutation.benchmark_multi_hop(&graph, &all).unwrap();
    assert_eq!(none.total_hops, 0);
    assert_eq!(none.total_nodes_visited, 10);
}

#[test]
fn test_benchmark_write_multi_hop_integration() {
    let graph = written_graph(100, 2, 128);
    assert!(graph.len() > 0);
    let config = MultiHopBenchmarkConfig { start_nodes: 10, depth: 3, avg_edges: Some(3) };
    let report = BenchmarkMutation.benchmark_multi_hop(&graph, &config).unwrap();
    assert!(report.total_nodes_visited > 0);
    assert!(report.total_hops > 0);
    assert_eq!(report.total_nodes_visited, 10 + report.total_hops);
}

#[test]
fn test_vector_hop_data() {
    let graph = written_graph(4, 0, 2);
    let config = VectorHopBenchmarkConfig { data_size: 3, vector_dim: 2, depth: 2, k_per_hop: 1 };
    let data = BenchmarkMutation.vector_hop_data(&graph, &config).unwrap();
    let ids: Vec<IId> = data.iter().map(|p| p.0).collect();
    assert_eq!(ids, vec![IId(1), IId(2), IId(3)]);
    assert_eq!(data[1].1.len(), 2);
    let plain = written_graph(4, 0, 0);
    assert_eq!(BenchmarkMutation.vector_hop_data(&plain, &config), Err(ApiError::NoVectors));
}

#[test]
fn test_clear_graph() {
    let mut graph = sample_graph();
    assert!(BenchmarkMutation.clear_graph(&mut graph));
    assert_eq!(graph.len(), 0);
    assert_eq!(graph.new_id(), IId(1));
}

#[test]
fn test_event_sourced_requests() {
    let q = EventSourcedQuery;
    assert_eq!(q.entity_filter(None), Ok(None));
    assert_eq!(q.entity_filter(Some("12".to_string())), Ok(Some(IId(12))));
    assert_eq!(q.entity_filter(Some("x".to_string())), Err(ApiError::InvalidEntityId));

    let m = EventSourcedMutation::default();
    let inc = m
        .requested_incidence(
            IId(4),
            None,
            Some("2".to_string()),
            None,
            Some(vec!["7".to_string(), "8".to_string()]),
            Some(vec![3]),
            None,
        )
        .unwrap();
    assert_eq!(inc.level, Level(0));
    assert_eq!(inc.ty, Some(IId(2)));
    assert_eq!(inc.args, vec![IId(7)]);
    assert_eq!(inc.roles, vec![RoleId(3)]);
    let without_roles = m
        .requested_incidence(IId(4), Some(2), None, None, Some(vec!["zz".to_string()]), None, None)
        .unwrap();
    assert!(without_roles.args.is_empty());
    assert_eq!(without_roles.level, Level(2));
    assert_eq!(
        m.requested_incidence(IId(4), None, None, None, Some(vec!["zz".to_string()]), Some(vec![1]), None),
        Err(ApiError::InvalidArgId)
    );
    assert_eq!(
        m.requested_incidence(IId(4), None, Some("t".to_string()), None, None, None, None),
        Err(ApiError::InvalidTypeId)
    );

    assert_eq!(m.start_ids(Some(vec![IId(9), IId(8), IId(7)]), 3, 2), vec![IId(9), IId(8)]);
    assert_eq!(m.start_ids(Some(vec![IId(9)]), 3, 2), vec![IId(1), IId(2)]);
    assert_eq!(m.start_ids(None, 1, 5), vec![IId(1)]);
}

#[test]
fn test_event_sourced_graph_builder() {
    let b = EventSourcedGraphBuilder::new();
    assert_eq!(b.storage_path, None);
    assert_eq!(b.vector_dim, 128);
    assert_eq!(b.snapshot_interval, std::time::Duration::from_secs(3600));
    let b = b
        .with_storage_path("/tmp/incdb")
        .with_vector_dim(64)
        .with_snapshot_interval(std::time::Duration::from_secs(60));
    assert_eq!(b.storage_path, Some("/tmp/incdb".to_string()));
    assert_eq!(b.vector_dim, 64);
    assert_eq!(b.snapshot_interval, std::time::Duration::from_secs(60));
    let d = EventSourcedGraphBuilder::default();
    assert_eq!(d.vector_dim, 128);
}

#[test]
fn test_graph_structure_reports_each_incidence_once() {
    let mut graph = WorldGraph::new();
    graph.add_incidence(Incidence::new(IId(1), Level::zero()).add_arg(IId(2), RoleId(1)).add_arg(IId(1), RoleId(2)));
    graph.add_incidence(Incidence::new(IId(2), Level::zero()).add_arg(IId(1), RoleId(1)));
    let s = Query.graph_structure(&graph, &vec!["1".to_string(), "2".to_string(), "1".to_string()], 10);
    let ids: Vec<String> = s.nodes.iter().map(|n| n.id.clone()).collect();
    assert_eq!(ids, vec!["1", "2"]);
    assert_eq!(s.edges.len(), 3);
}

#[test]
fn test_benchmark_row_links_and_roles() {
    let row = benchmark_row(IId(40), 12, 11, Some(vec![7]));
    assert_eq!(row.id, IId(40));
    assert_eq!(row.args.len(), 11);
    assert_eq!(row.args[0], IId(12));
    assert_eq!(row.args[10], IId(2));
    assert_eq!(row.roles[9], RoleId(9));
    assert_eq!(row.roles[10], RoleId(0));
    assert_eq!(row.embedding, Some(vec![7]));
    let first = benchmark_row(IId(1), 0, 5, None);
    assert!(first.args.is_empty());
}

#[test]
fn test_hop_walk_matches_multi_hop() {
    let graph = written_graph(30, 2, 0);
    let starts: Vec<IId> = (1..=5u64).map(IId).collect();
    let mut walk = HopWalk::new(starts, 3, 3);
    let mut lookups = 0;
    loop {
        assert!(walk.total_nodes().checked_add(walk.pending_count()).is_some());
        match walk.request() {
            None => break,
            Some(id) => {
                lookups += 1;
                walk.answer(graph.get(id).map(|inc| inc.args.clone()));
            }
        }
    }
    let config = MultiHopBenchmarkConfig { start_nodes: 5, depth: 3, avg_edges: Some(3) };
    let report = BenchmarkMutation.benchmark_multi_hop(&graph, &config).unwrap();
    assert_eq!(walk.total_hops(), report.total_hops);
    assert_eq!(walk.total_nodes(), report.total_nodes_visited);
    assert!(lookups > 0);

    let mut flat = HopWalk::new(vec![IId(1), IId(2)], 0, 3);
    assert_eq!(flat.request(), None);
    assert_eq!(flat.total_nodes(), 2);
    assert_eq!(flat.total_hops(), 0);
}

#[test]
fn test_event_sourced_read_probes() {
    let m = EventSourcedMutation::default();
    assert_eq!(m.read_probes(&[0, 4, 9, 10], 5), Ok(vec![IId(1), IId(5), IId(5), IId(1)]));
    assert_eq!(m.read_probes(&[1], 0), Err(ApiError::EmptyGraph));
}

#[test]
fn test_embedded_data_takes_first_embedded() {
    let incs = vec![
        Incidence::new(IId(1), Level::zero()).with_embedding(vec![1]),
        Incidence::new(IId(2), Level::zero()),
        Incidence::new(IId(3), Level::zero()).with_embedding(vec![3]),
        Incidence::new(IId(4), Level::zero()).with_embedding(vec![4]),
    ];
    assert_eq!(embedded_data(&incs, 2), vec![(IId(1), vec![1]), (IId(3), vec![3])]);
    assert!(embedded_data(&incs, 0).is_empty());
}

#[test]
fn test_benchmark_metadata_lists() {
    assert_eq!(
        write_metadata(100, 0, 2),
        vec![entry("batch_size", "100"), entry("vector_dim", "0"), entry("args_per_incidence", "2")]
    );
    assert_eq!(read_metadata(3, 0), vec![entry("query_count", "3"), entry("successful_reads", "0")]);
    assert_eq!(
        multi_hop_metadata(1, 2, 3, 4),
        vec![
            entry("start_nodes", "1"),
            entry("depth", "2"),
            entry("total_hops", "3"),
            entry("total_nodes_visited", "4"),
        ]
    );
}

#[test]
fn test_mutation_benchmark_operations() {
    let m = Mutation::default();
    let mut graph = WorldGraph::new();
    let config = WriteBenchmarkConfig { data_size: 4, batch_size: Some(3), vector_dim: None, args_per_incidence: Some(1) };
    let written = m.benchmark_write(&mut graph, &config, Vec::new());
    assert_eq!(written.total_written, 4);
    assert_eq!(graph.len(), 4);

    let read = m.benchmark_read(&graph, &ReadBenchmarkConfig { data_size: 4, query_count: Some(3) }, &[0, 1, 7]).unwrap();
    assert_eq!(read.graph_size, 4);
    assert_eq!(read.successful_reads, 3);

    let hops = m
        .benchmark_multi_hop(&graph, &MultiHopBenchmarkConfig { start_nodes: 1, depth: 2, avg_edges: None })
        .unwrap();
    assert_eq!(hops.total_nodes_visited, 1 + hops.total_hops);

    assert!(m.benchmark_clear_graph(&mut graph));
    assert_eq!(graph.len(), 0);
    assert_eq!(m.benchmark_read(&graph, &ReadBenchmarkConfig { data_size: 4, query_count: Some(3) }, &[0, 1, 7]), Err(ApiError::EmptyGraph));
}

#[test]
fn test_vector_hop_counts() {
    assert_eq!(incdb::api::benchmark::vector_hop_counts(3, 5, 2), (3, 6));
    assert_eq!(incdb::api::benchmark::vector_hop_counts(4, 2, 10), (4, 8));
    assert_eq!(incdb::api::benchmark::vector_hop_counts(0, 2, 10), (0, 0));
}

#[test]
fn test_event_sourced_vector_probe_ids() {
    let m = EventSourcedMutation::default();
    assert_eq!(m.vector_probe_ids(5, 2), vec![IId(1), IId(2), IId(3), IId(4), IId(5)]);
    assert_eq!(m.vector_probe_ids(100, 1).len(), 10);
    assert_eq!(m.vector_probe_ids(100, 0), Vec::<IId>::new());
}

#[test]
fn test_service_add_and_get_incidence() {
    let service = IncDBServiceImpl::new();
    let mut graph = WorldGraph::new();
    let req = AddIncidenceRequest {
        id: String::new(),
        level: 1,
        type_id: Some("7".to_string()),
        args: vec!["2".to_string(), "3".to_string(), "x".to_string()],
        roles: vec![4, 5],
        value: Some(ProtoValue { value: Some(ProtoKind::Int(42)) }),
        embedding: bits(&[0.5, 1.0]),
    };
    let resp = service.add_incidence(&mut graph, req).unwrap();
    assert_eq!(resp.id, "1");
    assert!(resp.success);

    let got = service.get_incidence(&graph, &GetIncidenceRequest { id: "1".to_string() }).unwrap();
    assert_eq!(
        got.incidence,
        Some(ProtoIncidence {
            id: "1".to_string(),
            level: 1,
            type_id: Some("7".to_string()),
            args: vec!["2".to_string(), "3".to_string()],
            roles: vec![4, 5],
            value: Some(ProtoValue { value: Some(ProtoKind::Int(42)) }),
            embedding: bits(&[0.5, 1.0]),
        })
    );
    assert_eq!(service.get_incidence(&graph, &GetIncidenceRequest { id: "9".to_string() }).unwrap().incidence, None);
    assert_eq!(service.get_incidence(&graph, &GetIncidenceRequest { id: "a".to_string() }), Err(ServiceError::InvalidId));

    // Errors, in field order; an empty id still takes a fresh identifier.
    let bad_value = AddIncidenceRequest {
        id: String::new(),
        level: 0,
        type_id: None,
        args: vec![],
        roles: vec![],
        value: Some(ProtoValue { value: None }),
        embedding: vec![],
    };
    assert_eq!(service.add_incidence(&mut graph, bad_value), Err(ServiceError::InvalidValue));
    assert_eq!(graph.peek_next_id(), 3);
    let bad_arg = AddIncidenceRequest {
        id: "5".to_string(),
        level: 0,
        type_id: None,
        args: vec!["y".to_string()],
        roles: vec![0],
        value: None,
        embedding: vec![],
    };
    assert_eq!(service.add_incidence(&mut graph, bad_arg), Err(ServiceError::InvalidArgId));
    assert_eq!(ServiceError::InvalidArgId.message(), "Invalid arg ID");

    let all = service.query_incidence(&graph);
    assert_eq!(all.results.len(), 1);
    assert_eq!(all.results[0].embedding, bits(&[0.5, 1.0]));
}
