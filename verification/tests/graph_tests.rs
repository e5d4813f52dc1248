use std::collections::HashMap;
use ycg_core::adjacency::{expand_adjacency, optimize_graph};
use ycg_core::anchor::{generate_anchor, hash_uri, AnchorRegistry};
use ycg_core::builder::{
    convert_scip_to_ycg, ScipDocument, ScipIndex, ScipOccurrence, ScipSymbolInfo,
};
use ycg_core::model::{
    AdHocGranularity, EdgeType, LevelOfDetail, LogicMetadata, OutputFormat, ProjectMetadata,
    ReferenceEdge, ScipSymbolKind, SymbolNode, YcgConfig, YcgGraph,
};
use ycg_core::serializer::AdHocSerializerV2;
use ycg_core::builder::{find_enclosing_scope, validate_variable_signature, Scope};
use ycg_core::semantic::SemanticFilter;
use ycg_core::uri::{extract_name_from_uri, infer_kind_from_uri, map_kind};

fn sample_config(lod: LevelOfDetail) -> YcgConfig {
    YcgConfig {
        lod,
        project_root: ".".to_string(),
        compact: false,
        output_format: OutputFormat::Yaml,
        ignore_framework_noise: false,
        file_filter: ycg_core::model::FileFilterConfig {
            include_patterns: vec![],
            exclude_patterns: vec![],
            use_gitignore: false,
        },
        adhoc_granularity: AdHocGranularity::Default,
    }
}

fn def_occurrence(symbol: &str, line: i32, end_line: i32) -> ScipOccurrence {
    ScipOccurrence {
        symbol: symbol.to_string(),
        symbol_roles: 1,
        range: vec![line, 0, end_line, 0],
    }
}

fn ref_occurrence(symbol: &str, line: i32) -> ScipOccurrence {
    ScipOccurrence {
        symbol: symbol.to_string(),
        symbol_roles: 0,
        range: vec![line, 0, line, 5],
    }
}

fn sample_index() -> ScipIndex {
    ScipIndex {
        documents: vec![
            ScipDocument {
                relative_path: "src/a.ts".to_string(),
                occurrences: vec![
                    def_occurrence("pkg/A#", 0, 20),
                    def_occurrence("pkg/A#run().", 2, 10),
                    ref_occurrence("pkg/B#help().", 5),
                ],
                symbols: vec![ScipSymbolInfo {
                    symbol: "pkg/A#".to_string(),
                    kind: 7,
                }],
            },
            ScipDocument {
                relative_path: "src/b.ts".to_string(),
                occurrences: vec![
                    def_occurrence("pkg/B#", 0, 20),
                    def_occurrence("pkg/B#help().", 1, 8),
                    ref_occurrence("pkg/A#run().", 4),
                ],
                symbols: vec![ScipSymbolInfo {
                    symbol: "pkg/B#".to_string(),
                    kind: 7,
                }],
            },
        ],
        external_symbols: vec![],
    }
}

#[test]
fn test_hash_is_deterministic_across_runs() {
    let a = hash_uri("pkg/A#run().");
    let b = hash_uri("pkg/A#run().");
    assert_eq!(a, b);
    assert_ne!(hash_uri("pkg/A#run()."), hash_uri("pkg/B#help()."));
}

#[test]
fn test_generate_anchor_format() {
    assert_eq!(generate_anchor("user", 0x12345678), "user_1234");
    assert_eq!(generate_anchor("user", 0xab), "user_ab");
    assert_eq!(generate_anchor("def", 0), "def_0");
}

#[test]
fn test_registry_first_writer_wins() {
    let mut registry = AnchorRegistry::new();
    let id = hash_uri("pkg/A#");
    registry.register(id, "first_0001".to_string());
    registry.register(id, "second_0002".to_string());
    assert_eq!(registry.get(id), Some(&"first_0001".to_string()));
}

#[test]
fn test_same_uri_in_two_documents_maps_to_same_anchor() {
    let index = sample_index();
    let trees = vec![None, None];
    let config = sample_config(LevelOfDetail::Medium);
    let graph = convert_scip_to_ycg(&index, &trees, &config);

    // the class defined in one document is referenced from the other; its
    // node id and the edge target must agree
    let run_node = graph
        .definitions
        .iter()
        .find(|n| n.name == "A#run")
        .expect("run() node");
    assert!(graph
        .references
        .iter()
        .any(|e| e.to == run_node.id || e.from == run_node.id));
}

#[test]
fn test_builder_emits_no_self_loops_and_only_calls() {
    let index = sample_index();
    let trees = vec![None, None];
    let config = sample_config(LevelOfDetail::High);
    let graph = convert_scip_to_ycg(&index, &trees, &config);

    assert!(!graph.references.is_empty());
    for e in &graph.references {
        assert_ne!(e.from, e.to);
        assert_eq!(e.edge_type, EdgeType::Calls);
    }
}

#[test]
fn test_builder_logic_only_on_methods_and_functions() {
    let index = sample_index();
    let trees = vec![None, None];
    let config = sample_config(LevelOfDetail::High);
    let graph = convert_scip_to_ycg(&index, &trees, &config);

    for n in &graph.definitions {
        if let Some(l) = &n.logic {
            assert!(
                n.kind == ScipSymbolKind::Method || n.kind == ScipSymbolKind::Function
            );
            assert!(!l.preconditions.is_empty());
        }
    }
}

#[test]
fn test_adjacency_round_trip_preserves_edge_set() {
    let graph = YcgGraph {
        metadata: ProjectMetadata {
            name: "test".to_string(),
            version: "1.0".to_string(),
        },
        definitions: vec![],
        references: vec![
            ReferenceEdge {
                from: "b_1".to_string(),
                to: "a_1".to_string(),
                edge_type: EdgeType::Calls,
            },
            ReferenceEdge {
                from: "a_1".to_string(),
                to: "c_1".to_string(),
                edge_type: EdgeType::Imports,
            },
            ReferenceEdge {
                from: "a_1".to_string(),
                to: "b_1".to_string(),
                edge_type: EdgeType::Calls,
            },
            ReferenceEdge {
                from: "a_1".to_string(),
                to: "a_2".to_string(),
                edge_type: EdgeType::Calls,
            },
        ],
    };
    let mut expected: Vec<(String, String, EdgeType)> = graph
        .references
        .iter()
        .map(|e| (e.from.clone(), e.to.clone(), e.edge_type))
        .collect();

    let optimized = optimize_graph(graph);
    let expanded = expand_adjacency(&optimized.adjacency);

    let mut actual: Vec<(String, String, EdgeType)> = expanded
        .iter()
        .map(|e| (e.from.clone(), e.to.clone(), e.edge_type))
        .collect();
    let key = |t: &(String, String, EdgeType)| {
        (t.0.clone(), t.1.clone(), t.2.rank())
    };
    expected.sort_by_key(key);
    actual.sort_by_key(key);
    assert_eq!(expected, actual);

    // entries are grouped by source, in order
    assert_eq!(optimized.adjacency.len(), 2);
    assert_eq!(optimized.adjacency[0].from, "a_1");
    assert_eq!(optimized.adjacency[1].from, "b_1");
}

#[test]
fn test_adhoc_level_counts_per_level() {
    let nodes = vec![
        SymbolNode {
            id: "User_01a2".to_string(),
            name: "User".to_string(),
            kind: ScipSymbolKind::Class,
            parent_id: None,
            documentation: None,
            signature: None,
            logic: None,
        },
        SymbolNode {
            id: "check_9f".to_string(),
            name: "check".to_string(),
            kind: ScipSymbolKind::Method,
            parent_id: Some("User_01a2".to_string()),
            documentation: None,
            signature: Some("check(id: number): boolean".to_string()),
            logic: Some(LogicMetadata {
                preconditions: vec!["must avoid: id < 0".to_string()],
            }),
        },
    ];
    let graph = YcgGraph {
        metadata: ProjectMetadata {
            name: "test".to_string(),
            version: "1.0".to_string(),
        },
        definitions: nodes,
        references: vec![],
    };
    let sources = HashMap::new();

    let level0 = AdHocSerializerV2::new(AdHocGranularity::Default).serialize_graph(&graph, &sources);
    for def in &level0.definitions {
        assert_eq!(def.split('|').count(), 3, "Level 0 line: {}", def);
    }

    let level1 =
        AdHocSerializerV2::new(AdHocGranularity::InlineSignatures).serialize_graph(&graph, &sources);
    for def in &level1.definitions {
        assert_eq!(def.split('|').count(), 3, "Level 1 line: {}", def);
    }
    assert!(level1.definitions[1].contains("check(id:num):bool"));

    let level2 =
        AdHocSerializerV2::new(AdHocGranularity::InlineLogic).serialize_graph(&graph, &sources);
    let fields0 = level2.definitions[0].split('|').count();
    assert_eq!(fields0, 3);
    let parts: Vec<&str> = level2.definitions[1].split('|').collect();
    assert_eq!(parts.len(), 4);
    assert!(parts[3].starts_with("logic:"));
    assert!(parts[3].contains("check("));
}

#[test]
fn test_count_tokens_counts_text() {
    let short = ycg_core::count_tokens("hello");
    let longer = ycg_core::count_tokens("hello world, this is a longer sentence with many words");
    assert!(short >= 1);
    assert!(longer > short);
}

#[test]
fn test_validate_variable_signature_rejects_method_shapes() {
    assert_eq!(
        validate_variable_signature(Some("userId: number".to_string()), "u"),
        Some("userId: number".to_string())
    );
    assert_eq!(
        validate_variable_signature(
            Some("async function getData(): Promise<Data>".to_string()),
            "u"
        ),
        None
    );
    assert_eq!(
        validate_variable_signature(Some("a => b".to_string()), "u"),
        None
    );
    assert_eq!(
        validate_variable_signature(Some("findOne(id: number): Promise<X>".to_string()), "u"),
        None
    );
}

#[test]
fn test_find_enclosing_scope_prefers_smallest() {
    let scopes = vec![
        Scope {
            id: 1,
            start_line: 0,
            end_line: 100,
        },
        Scope {
            id: 2,
            start_line: 10,
            end_line: 20,
        },
        Scope {
            id: 3,
            start_line: 12,
            end_line: 14,
        },
    ];
    assert_eq!(find_enclosing_scope(&scopes, 13), Some(3));
    assert_eq!(find_enclosing_scope(&scopes, 15), Some(2));
    assert_eq!(find_enclosing_scope(&scopes, 50), Some(1));
    assert_eq!(find_enclosing_scope(&scopes, 200), None);
}

#[test]
fn test_uri_helpers() {
    assert_eq!(extract_name_from_uri("pkg/A#run()."), "A#run");
    assert_eq!(extract_name_from_uri("pkg/run()."), "run");
    assert_eq!(extract_name_from_uri("pkg/A#"), "A");
    assert_eq!(extract_name_from_uri("pkg/`mod`/x."), "x");
    assert_eq!(extract_name_from_uri("pkg/<constructor>()."), "constructor");
    assert_eq!(extract_name_from_uri(""), "unknown");

    assert_eq!(infer_kind_from_uri("pkg/A#run()."), ScipSymbolKind::Method);
    assert_eq!(infer_kind_from_uri("pkg/A#"), ScipSymbolKind::Class);
    assert_eq!(infer_kind_from_uri("src/lib/"), ScipSymbolKind::File);
    assert_eq!(infer_kind_from_uri("localx"), ScipSymbolKind::Variable);

    assert_eq!(map_kind(7), ScipSymbolKind::Class);
    assert_eq!(map_kind(26), ScipSymbolKind::Method);
    assert_eq!(map_kind(17), ScipSymbolKind::Function);
    assert_eq!(map_kind(61), ScipSymbolKind::Variable);
    assert_eq!(map_kind(21), ScipSymbolKind::Interface);
    assert_eq!(map_kind(29), ScipSymbolKind::Module);
    assert_eq!(map_kind(999), ScipSymbolKind::Variable);
}

#[test]
fn test_semantic_filter_idempotent_on_sample_graph() {
    let mut graph = YcgGraph {
        metadata: ProjectMetadata {
            name: "test".to_string(),
            version: "1.0".to_string(),
        },
        definitions: vec![
            SymbolNode {
                id: "User_01a2".to_string(),
                name: "User".to_string(),
                kind: ScipSymbolKind::Class,
                parent_id: None,
                documentation: None,
                signature: None,
                logic: None,
            },
            SymbolNode {
                id: "local_11_6d84".to_string(),
                name: "temp".to_string(),
                kind: ScipSymbolKind::Variable,
                parent_id: None,
                documentation: None,
                signature: None,
                logic: None,
            },
        ],
        references: vec![ReferenceEdge {
            from: "User_01a2".to_string(),
            to: "local_11_6d84".to_string(),
            edge_type: EdgeType::Calls,
        }],
    };
    SemanticFilter::filter_graph(&mut graph);
    let after_once: Vec<String> = graph.definitions.iter().map(|n| n.id.clone()).collect();
    let edges_once = graph.references.len();
    SemanticFilter::filter_graph(&mut graph);
    let after_twice: Vec<String> = graph.definitions.iter().map(|n| n.id.clone()).collect();
    assert_eq!(after_once, after_twice);
    assert_eq!(graph.references.len(), edges_once);
}

#[test]
fn test_hash_matches_published_digest() {
    // the 64-bit digest of the empty input with seed zero
    assert_eq!(hash_uri(""), 0xef46db3751d8e999);
}
