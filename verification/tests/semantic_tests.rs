use ycg_core::model::{EdgeType, ProjectMetadata, ReferenceEdge, ScipSymbolKind, SymbolNode, YcgGraph};
use ycg_core::semantic::SemanticFilter;

fn create_test_node(id: &str, name: &str, kind: ScipSymbolKind) -> SymbolNode {
    SymbolNode {
        id: id.to_string(),
        name: name.to_string(),
        kind,
        parent_id: None,
        documentation: None,
        signature: None,
        logic: None,
    }
}

#[test]
fn test_is_local_variable() {
    assert!(SemanticFilter::is_local_variable(
        "local_11_6d84",
        "local_11_6d84"
    ));
    assert!(SemanticFilter::is_local_variable("local_5_abc3", "temp"));

    assert!(SemanticFilter::is_local_variable("func().(param)", "param"));

    assert!(!SemanticFilter::is_local_variable("User_01a2", "User"));
    assert!(!SemanticFilter::is_local_variable(
        "myFunction_3f4a",
        "myFunction"
    ));
}

#[test]
fn test_is_anonymous_block() {
    assert!(SemanticFilter::is_anonymous_block(""));
    assert!(SemanticFilter::is_anonymous_block("unknown"));
    assert!(SemanticFilter::is_anonymous_block("anonymous"));
    assert!(SemanticFilter::is_anonymous_block("block_123"));
    assert!(SemanticFilter::is_anonymous_block("anon_456"));

    assert!(!SemanticFilter::is_anonymous_block("User"));
    assert!(!SemanticFilter::is_anonymous_block("myFunction"));
}

#[test]
fn test_is_significant_symbol() {
    let class_node = create_test_node("User_01a2", "User", ScipSymbolKind::Class);
    assert!(SemanticFilter::is_significant_symbol(&class_node));

    let interface_node = create_test_node("IUser_02b3", "IUser", ScipSymbolKind::Interface);
    assert!(SemanticFilter::is_significant_symbol(&interface_node));

    let func_node = create_test_node("getUser_03c4", "getUser", ScipSymbolKind::Function);
    assert!(SemanticFilter::is_significant_symbol(&func_node));

    let method_node = create_test_node("save_04d5", "save", ScipSymbolKind::Method);
    assert!(SemanticFilter::is_significant_symbol(&method_node));

    let local_var = create_test_node("local_11_6d84", "temp", ScipSymbolKind::Variable);
    assert!(!SemanticFilter::is_significant_symbol(&local_var));

    let anon_block = create_test_node("block_123", "unknown", ScipSymbolKind::Variable);
    assert!(!SemanticFilter::is_significant_symbol(&anon_block));
}

#[test]
fn test_filter_graph() {
    let mut graph = YcgGraph {
        metadata: ProjectMetadata {
            name: "test".to_string(),
            version: "1.0".to_string(),
        },
        definitions: vec![
            create_test_node("User_01a2", "User", ScipSymbolKind::Class),
            create_test_node("local_11_6d84", "temp", ScipSymbolKind::Variable),
            create_test_node("getUser_03c4", "getUser", ScipSymbolKind::Function),
            create_test_node("unknown", "unknown", ScipSymbolKind::Variable),
        ],
        references: vec![
            ReferenceEdge {
                from: "User_01a2".to_string(),
                to: "getUser_03c4".to_string(),
                edge_type: EdgeType::Calls,
            },
            ReferenceEdge {
                from: "getUser_03c4".to_string(),
                to: "local_11_6d84".to_string(),
                edge_type: EdgeType::Calls,
            },
            ReferenceEdge {
                from: "local_11_6d84".to_string(),
                to: "unknown".to_string(),
                edge_type: EdgeType::Calls,
            },
        ],
    };

    SemanticFilter::filter_graph(&mut graph);

    assert_eq!(graph.definitions.len(), 2);
    assert!(graph.definitions.iter().any(|n| n.id == "User_01a2"));
    assert!(graph.definitions.iter().any(|n| n.id == "getUser_03c4"));

    assert_eq!(graph.references.len(), 1);
    assert_eq!(graph.references[0].from, "User_01a2");
    assert_eq!(graph.references[0].to, "getUser_03c4");
}

#[test]
fn test_filter_preserves_module_level_variables() {
    let module_var = create_test_node("CONFIG_5a6b", "CONFIG", ScipSymbolKind::Variable);
    assert!(SemanticFilter::is_significant_symbol(&module_var));
}
