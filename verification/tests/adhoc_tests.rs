use std::collections::HashMap;
use ycg_core::model::{AdHocGranularity, ProjectMetadata, ScipSymbolKind, SymbolNode, YcgGraph};
use ycg_core::serializer::AdHocSerializerV2;

#[test]
fn test_adhoc_variable_with_none_signature() {
    let variable_node = SymbolNode {
        id: "userId0__95a5".to_string(),
        name: "userId0:".to_string(),
        kind: ScipSymbolKind::Variable,
        parent_id: Some("UsersController_findOne_13b7".to_string()),
        documentation: None,
        signature: None,
        logic: None,
    };

    let method_node = SymbolNode {
        id: "UsersController_findOne_13b7".to_string(),
        name: "findOne".to_string(),
        kind: ScipSymbolKind::Method,
        parent_id: Some("UsersController_4702".to_string()),
        documentation: None,
        signature: Some(
            "findOne(@Param('id', ParseIntPipe) id: number): Promise<UserDto>".to_string(),
        ),
        logic: None,
    };

    let graph = YcgGraph {
        metadata: ProjectMetadata {
            name: "test".to_string(),
            version: "1.0.0".to_string(),
        },
        definitions: vec![method_node, variable_node],
        references: vec![],
    };

    let serializer = AdHocSerializerV2::new(AdHocGranularity::InlineSignatures);
    let sources = HashMap::new();
    let adhoc_graph = serializer.serialize_graph(&graph, &sources);

    let method_def = &adhoc_graph.definitions[0];
    assert!(
        method_def.contains("findOne(id:num):Promise<UserDto>"),
        "Method should have compact signature, got: {}",
        method_def
    );
    assert!(
        method_def.ends_with("|method"),
        "Method should end with |method, got: {}",
        method_def
    );

    let variable_def = &adhoc_graph.definitions[1];
    assert_eq!(
        variable_def, "userId0__95a5|userId0:|variable",
        "Variable should only have its name, not method signature"
    );

    assert!(
        !variable_def.contains("findOne"),
        "Variable should not contain method name"
    );
    assert!(
        !variable_def.contains("@Param"),
        "Variable should not contain decorator"
    );
    assert!(
        !variable_def.contains("Promise<UserDto>"),
        "Variable should not contain return type"
    );
}

#[test]
fn test_adhoc_variable_with_valid_signature() {
    let variable_node = SymbolNode {
        id: "userId_abc123".to_string(),
        name: "userId".to_string(),
        kind: ScipSymbolKind::Variable,
        parent_id: Some("SomeClass_xyz".to_string()),
        documentation: None,
        signature: Some("userId: number".to_string()),
        logic: None,
    };

    let graph = YcgGraph {
        metadata: ProjectMetadata {
            name: "test".to_string(),
            version: "1.0.0".to_string(),
        },
        definitions: vec![variable_node],
        references: vec![],
    };

    let serializer = AdHocSerializerV2::new(AdHocGranularity::InlineSignatures);
    let sources = HashMap::new();
    let adhoc_graph = serializer.serialize_graph(&graph, &sources);

    let variable_def = &adhoc_graph.definitions[0];

    assert_eq!(
        variable_def, "userId_abc123|userId|variable",
        "Variable should fall back to name when signature can't be parsed as method signature"
    );
}

#[test]
fn test_adhoc_multiple_variables_no_inheritance() {
    let method_node = SymbolNode {
        id: "AuthController_login_8ec4".to_string(),
        name: "login".to_string(),
        kind: ScipSymbolKind::Method,
        parent_id: Some("AuthController_6ba5".to_string()),
        documentation: None,
        signature: Some(
            "async login(loginDto: LoginDto): Promise<{ access_token: string }>".to_string(),
        ),
        logic: None,
    };

    let var1 = SymbolNode {
        id: "access_token0__c899".to_string(),
        name: "access_token0:".to_string(),
        kind: ScipSymbolKind::Variable,
        parent_id: Some("AuthController_login_8ec4".to_string()),
        documentation: None,
        signature: None,
        logic: None,
    };

    let var2 = SymbolNode {
        id: "user0__f10b".to_string(),
        name: "user0:".to_string(),
        kind: ScipSymbolKind::Variable,
        parent_id: Some("AuthController_login_8ec4".to_string()),
        documentation: None,
        signature: None,
        logic: None,
    };

    let var3 = SymbolNode {
        id: "message0__2f87".to_string(),
        name: "message0:".to_string(),
        kind: ScipSymbolKind::Variable,
        parent_id: Some("AuthController_login_8ec4".to_string()),
        documentation: None,
        signature: None,
        logic: None,
    };

    let graph = YcgGraph {
        metadata: ProjectMetadata {
            name: "test".to_string(),
            version: "1.0.0".to_string(),
        },
        definitions: vec![method_node, var1, var2, var3],
        references: vec![],
    };

    let serializer = AdHocSerializerV2::new(AdHocGranularity::InlineSignatures);
    let sources = HashMap::new();
    let adhoc_graph = serializer.serialize_graph(&graph, &sources);

    let method_def = &adhoc_graph.definitions[0];
    assert!(
        method_def.contains("login"),
        "Method should have its signature, got: {}",
        method_def
    );

    for i in 1..=3 {
        let var_def = &adhoc_graph.definitions[i];

        assert!(
            !var_def.contains("login"),
            "Variable {} should not contain method name, got: {}",
            i,
            var_def
        );
        assert!(
            !var_def.contains("async"),
            "Variable {} should not contain 'async', got: {}",
            i,
            var_def
        );
        assert!(
            !var_def.contains("Promise"),
            "Variable {} should not contain 'Promise', got: {}",
            i,
            var_def
        );
        assert!(
            !var_def.contains("LoginDto"),
            "Variable {} should not contain parameter type, got: {}",
            i,
            var_def
        );

        assert!(
            var_def.ends_with("|variable"),
            "Variable {} should end with |variable, got: {}",
            i,
            var_def
        );
    }
}

#[test]
fn test_adhoc_level_0_variable_with_none_signature() {
    let variable_node = SymbolNode {
        id: "userId0__95a5".to_string(),
        name: "userId0:".to_string(),
        kind: ScipSymbolKind::Variable,
        parent_id: Some("method_id".to_string()),
        documentation: None,
        signature: None,
        logic: None,
    };

    let graph = YcgGraph {
        metadata: ProjectMetadata {
            name: "test".to_string(),
            version: "1.0.0".to_string(),
        },
        definitions: vec![variable_node],
        references: vec![],
    };

    let serializer = AdHocSerializerV2::new(AdHocGranularity::Default);
    let sources = HashMap::new();
    let adhoc_graph = serializer.serialize_graph(&graph, &sources);

    let variable_def = &adhoc_graph.definitions[0];
    assert_eq!(
        variable_def, "userId0__95a5|userId0:|variable",
        "Level 0 should use ID|Name|Type format"
    );
}
