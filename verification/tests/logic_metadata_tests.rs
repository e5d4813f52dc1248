use ycg_core::model::{LogicMetadata, ProjectMetadata, ScipSymbolKind, SymbolNode, YcgGraph};

#[test]
fn test_method_has_logic_metadata() {
    let method_node = SymbolNode {
        id: "UsersController_findOne_13b7".to_string(),
        name: "findOne".to_string(),
        kind: ScipSymbolKind::Method,
        parent_id: Some("UsersController_4702".to_string()),
        documentation: None,
        signature: Some("async findOne(id: number): Promise<UserDto>".to_string()),
        logic: Some(LogicMetadata {
            preconditions: vec!["must avoid: user".to_string()],
        }),
    };

    assert!(
        method_node.logic.is_some(),
        "Method should have logic metadata"
    );
    assert_eq!(
        method_node.logic.as_ref().unwrap().preconditions.len(),
        1,
        "Method should have one precondition"
    );
}

#[test]
fn test_function_has_logic_metadata() {
    let function_node = SymbolNode {
        id: "validateInput_abc123".to_string(),
        name: "validateInput".to_string(),
        kind: ScipSymbolKind::Function,
        parent_id: None,
        documentation: None,
        signature: Some("function validateInput(data: string): boolean".to_string()),
        logic: Some(LogicMetadata {
            preconditions: vec!["must check: data.length > 0".to_string()],
        }),
    };

    assert!(
        function_node.logic.is_some(),
        "Function should have logic metadata"
    );
    assert_eq!(
        function_node.logic.as_ref().unwrap().preconditions.len(),
        1,
        "Function should have one precondition"
    );
}

#[test]
fn test_variable_has_no_logic_metadata() {
    let variable_node = SymbolNode {
        id: "userId0__95a5".to_string(),
        name: "userId0:".to_string(),
        kind: ScipSymbolKind::Variable,
        parent_id: Some("UsersController_findOne_13b7".to_string()),
        documentation: None,
        signature: None,
        logic: None,
    };

    assert!(
        variable_node.logic.is_none(),
        "Variable should NOT have logic metadata"
    );
}

#[test]
fn test_class_has_no_logic_metadata() {
    let class_node = SymbolNode {
        id: "UsersController_4702".to_string(),
        name: "UsersController".to_string(),
        kind: ScipSymbolKind::Class,
        parent_id: Some("file_abc".to_string()),
        documentation: None,
        signature: None,
        logic: None,
    };

    assert!(
        class_node.logic.is_none(),
        "Class should NOT have logic metadata"
    );
}

#[test]
fn test_interface_has_no_logic_metadata() {
    let interface_node = SymbolNode {
        id: "UserDto_698e".to_string(),
        name: "UserDto".to_string(),
        kind: ScipSymbolKind::Interface,
        parent_id: Some("file_abc".to_string()),
        documentation: None,
        signature: None,
        logic: None,
    };

    assert!(
        interface_node.logic.is_none(),
        "Interface should NOT have logic metadata"
    );
}

#[test]
fn test_graph_logic_metadata_restriction() {
    let graph = YcgGraph {
        metadata: ProjectMetadata {
            name: "test".to_string(),
            version: "1.0.0".to_string(),
        },
        definitions: vec![
            SymbolNode {
                id: "UsersController_4702".to_string(),
                name: "UsersController".to_string(),
                kind: ScipSymbolKind::Class,
                parent_id: Some("file_abc".to_string()),
                documentation: None,
                signature: None,
                logic: None,
            },
            SymbolNode {
                id: "UsersController_findOne_13b7".to_string(),
                name: "findOne".to_string(),
                kind: ScipSymbolKind::Method,
                parent_id: Some("UsersController_4702".to_string()),
                documentation: None,
                signature: Some("async findOne(id: number): Promise<UserDto>".to_string()),
                logic: Some(LogicMetadata {
                    preconditions: vec!["must avoid: user".to_string()],
                }),
            },
            SymbolNode {
                id: "userId0__95a5".to_string(),
                name: "userId0:".to_string(),
                kind: ScipSymbolKind::Variable,
                parent_id: Some("UsersController_findOne_13b7".to_string()),
                documentation: None,
                signature: None,
                logic: None,
            },
            SymbolNode {
                id: "username0__e666".to_string(),
                name: "username0:".to_string(),
                kind: ScipSymbolKind::Variable,
                parent_id: Some("UsersController_findOne_13b7".to_string()),
                documentation: None,
                signature: None,
                logic: None,
            },
            SymbolNode {
                id: "validateInput_abc123".to_string(),
                name: "validateInput".to_string(),
                kind: ScipSymbolKind::Function,
                parent_id: None,
                documentation: None,
                signature: Some("function validateInput(data: string): boolean".to_string()),
                logic: Some(LogicMetadata {
                    preconditions: vec!["must check: data.length > 0".to_string()],
                }),
            },
        ],
        references: vec![],
    };

    let methods_with_logic = graph
        .definitions
        .iter()
        .filter(|node| node.kind == ScipSymbolKind::Method && node.logic.is_some())
        .count();

    let functions_with_logic = graph
        .definitions
        .iter()
        .filter(|node| node.kind == ScipSymbolKind::Function && node.logic.is_some())
        .count();

    let variables_with_logic = graph
        .definitions
        .iter()
        .filter(|node| node.kind == ScipSymbolKind::Variable && node.logic.is_some())
        .count();

    let classes_with_logic = graph
        .definitions
        .iter()
        .filter(|node| node.kind == ScipSymbolKind::Class && node.logic.is_some())
        .count();

    assert_eq!(methods_with_logic, 1, "Should have 1 method with logic");
    assert_eq!(functions_with_logic, 1, "Should have 1 function with logic");
    assert_eq!(
        variables_with_logic, 0,
        "Should have 0 variables with logic"
    );
    assert_eq!(classes_with_logic, 0, "Should have 0 classes with logic");
}

#[test]
fn test_variables_in_method_with_guard_clauses() {
    let method_node = SymbolNode {
        id: "UsersController_findOne_13b7".to_string(),
        name: "findOne".to_string(),
        kind: ScipSymbolKind::Method,
        parent_id: Some("UsersController_4702".to_string()),
        documentation: None,
        signature: Some("async findOne(id: number): Promise<UserDto>".to_string()),
        logic: Some(LogicMetadata {
            preconditions: vec![
                "must avoid: user".to_string(),
                "must check: id > 0".to_string(),
            ],
        }),
    };

    let var1 = SymbolNode {
        id: "userId0__95a5".to_string(),
        name: "userId0:".to_string(),
        kind: ScipSymbolKind::Variable,
        parent_id: Some("UsersController_findOne_13b7".to_string()),
        documentation: None,
        signature: None,
        logic: None,
    };

    let var2 = SymbolNode {
        id: "username0__e666".to_string(),
        name: "username0:".to_string(),
        kind: ScipSymbolKind::Variable,
        parent_id: Some("UsersController_findOne_13b7".to_string()),
        documentation: None,
        signature: None,
        logic: None,
    };

    assert!(
        method_node.logic.is_some(),
        "Method should have logic metadata"
    );
    assert_eq!(
        method_node.logic.as_ref().unwrap().preconditions.len(),
        2,
        "Method should have 2 preconditions"
    );

    assert!(
        var1.logic.is_none(),
        "Variable 1 should NOT have logic metadata"
    );
    assert!(
        var2.logic.is_none(),
        "Variable 2 should NOT have logic metadata"
    );
}
