use ycg_core::framework::FrameworkNoiseFilter;
use ycg_core::model::{EdgeType, ProjectMetadata, ReferenceEdge, ScipSymbolKind, SymbolNode, YcgGraph};

fn create_test_node(
    id: &str,
    name: &str,
    kind: ScipSymbolKind,
    signature: Option<String>,
) -> SymbolNode {
    SymbolNode {
        id: id.to_string(),
        name: name.to_string(),
        kind,
        parent_id: None,
        documentation: None,
        signature,
        logic: None,
    }
}

#[test]
fn test_is_dto_file() {
    assert!(FrameworkNoiseFilter::is_dto_file("src/users/dto/user.dto.ts"));
    assert!(FrameworkNoiseFilter::is_dto_file("src/dto/create-user.ts"));

    assert!(FrameworkNoiseFilter::is_dto_file("src/users/user.dto.ts"));

    assert!(!FrameworkNoiseFilter::is_dto_file("src/users/user.service.ts"));
    assert!(!FrameworkNoiseFilter::is_dto_file("src/users/user.controller.ts"));
}

#[test]
fn test_strip_decorators() {
    let input = "@ApiProperty() name: string";
    let expected = "name: string";
    assert_eq!(FrameworkNoiseFilter::strip_decorators(input), expected);

    let input = "@IsString() @IsOptional() email?: string";
    let expected = "email?: string";
    assert_eq!(FrameworkNoiseFilter::strip_decorators(input), expected);

    let input = "@Column({ type: 'varchar', length: 255 }) username: string";
    let expected = "username: string";
    assert_eq!(FrameworkNoiseFilter::strip_decorators(input), expected);

    let input = "@ApiProperty()\n@IsString()\nname: string";
    let expected = "name: string";
    assert_eq!(FrameworkNoiseFilter::strip_decorators(input), expected);

    let input = "name: string";
    assert_eq!(FrameworkNoiseFilter::strip_decorators(input), input);
}

#[test]
fn test_strip_decorators_multi_line() {
    let input = "@OneToMany(\n    () => User,\n    (user) => user.profile\n)\nuser: User";
    let expected = "user: User";
    assert_eq!(FrameworkNoiseFilter::strip_decorators(input), expected);

    let input = "@ManyToOne(\n    () => DoctorCrmSpecialty,\n    (doctorCrmSpecialty) => doctorCrmSpecialty.doctorCrm\n)\ndoctorSpecialties: DoctorCrmSpecialty[]";
    let expected = "doctorSpecialties: DoctorCrmSpecialty[]";
    assert_eq!(FrameworkNoiseFilter::strip_decorators(input), expected);

    let input =
        "@Column({\n    type: 'varchar',\n    length: 255\n})\n@Index()\nusername: string";
    let expected = "username: string";
    assert_eq!(FrameworkNoiseFilter::strip_decorators(input), expected);

    let input = "@PrimaryGeneratedColumn\nid: number";
    let expected = "id: number";
    assert_eq!(FrameworkNoiseFilter::strip_decorators(input), expected);
}

#[test]
fn test_count_parens() {
    assert_eq!(FrameworkNoiseFilter::count_parens("()"), 0);
    assert_eq!(FrameworkNoiseFilter::count_parens("(a, b)"), 0);
    assert_eq!(FrameworkNoiseFilter::count_parens("((a))"), 0);

    assert_eq!(FrameworkNoiseFilter::count_parens("("), 1);
    assert_eq!(FrameworkNoiseFilter::count_parens("(("), 2);
    assert_eq!(FrameworkNoiseFilter::count_parens("(a, (b"), 2);

    assert_eq!(FrameworkNoiseFilter::count_parens(")"), -1);
    assert_eq!(FrameworkNoiseFilter::count_parens("))"), -2);

    assert_eq!(FrameworkNoiseFilter::count_parens("abc"), 0);
    assert_eq!(FrameworkNoiseFilter::count_parens(""), 0);

    assert_eq!(
        FrameworkNoiseFilter::count_parens("@Column({ type: 'varchar' })"),
        0
    );
    assert_eq!(FrameworkNoiseFilter::count_parens("() => User,"), 0);
}

#[test]
fn test_is_di_only_constructor() {
    let node = create_test_node(
        "ctor_1",
        "constructor",
        ScipSymbolKind::Method,
        Some("constructor(private userService: UserService)".to_string()),
    );
    assert!(FrameworkNoiseFilter::is_di_only_constructor(&node));

    let node = create_test_node(
        "ctor_2",
        "constructor",
        ScipSymbolKind::Method,
        Some(
            "constructor(private userService: UserService, public config: Config)".to_string(),
        ),
    );
    assert!(FrameworkNoiseFilter::is_di_only_constructor(&node));

    let node = create_test_node(
        "ctor_3",
        "constructor",
        ScipSymbolKind::Method,
        Some("constructor(private readonly logger: Logger)".to_string()),
    );
    assert!(FrameworkNoiseFilter::is_di_only_constructor(&node));

    let node = create_test_node(
        "ctor_4",
        "constructor",
        ScipSymbolKind::Method,
        Some(
            "constructor(private service: Service) { if (condition) { doSomething(); } }"
                .to_string(),
        ),
    );
    assert!(!FrameworkNoiseFilter::is_di_only_constructor(&node));

    let node = create_test_node(
        "ctor_5",
        "constructor",
        ScipSymbolKind::Method,
        Some("constructor(name: string, age: number)".to_string()),
    );
    assert!(!FrameworkNoiseFilter::is_di_only_constructor(&node));

    let node = create_test_node(
        "method_1",
        "save",
        ScipSymbolKind::Method,
        Some("save(data: any)".to_string()),
    );
    assert!(!FrameworkNoiseFilter::is_di_only_constructor(&node));
}

#[test]
fn test_simplify_dto_property() {
    let mut node = create_test_node(
        "prop_1",
        "name",
        ScipSymbolKind::Variable,
        Some("@ApiProperty() @IsString() name: string".to_string()),
    );

    FrameworkNoiseFilter::simplify_dto_property(&mut node);

    assert_eq!(node.signature, Some("name: string".to_string()));
}

#[test]
fn test_filter_graph_removes_di_constructors() {
    let mut graph = YcgGraph {
        metadata: ProjectMetadata {
            name: "test".to_string(),
            version: "1.0".to_string(),
        },
        definitions: vec![
            create_test_node("User_01a2", "User", ScipSymbolKind::Class, None),
            create_test_node(
                "ctor_1",
                "constructor",
                ScipSymbolKind::Method,
                Some("constructor(private userService: UserService)".to_string()),
            ),
            create_test_node(
                "save_03c4",
                "save",
                ScipSymbolKind::Method,
                Some("save(data: any)".to_string()),
            ),
        ],
        references: vec![
            ReferenceEdge {
                from: "User_01a2".to_string(),
                to: "ctor_1".to_string(),
                edge_type: EdgeType::Calls,
            },
            ReferenceEdge {
                from: "User_01a2".to_string(),
                to: "save_03c4".to_string(),
                edge_type: EdgeType::Calls,
            },
        ],
    };

    FrameworkNoiseFilter::filter_graph(&mut graph);

    assert_eq!(graph.definitions.len(), 2);
    assert!(graph.definitions.iter().any(|n| n.id == "User_01a2"));
    assert!(graph.definitions.iter().any(|n| n.id == "save_03c4"));
    assert!(!graph.definitions.iter().any(|n| n.id == "ctor_1"));

    assert_eq!(graph.references.len(), 1);
    assert_eq!(graph.references[0].from, "User_01a2");
    assert_eq!(graph.references[0].to, "save_03c4");
}

#[test]
fn test_filter_graph_simplifies_dto_properties() {
    let mut graph = YcgGraph {
        metadata: ProjectMetadata {
            name: "test".to_string(),
            version: "1.0".to_string(),
        },
        definitions: vec![
            create_test_node("UserDto_01a2", "UserDto", ScipSymbolKind::Class, None),
            create_test_node(
                "name_prop",
                "name",
                ScipSymbolKind::Variable,
                Some("@ApiProperty() @IsString() name: string".to_string()),
            ),
        ],
        references: vec![],
    };

    graph.definitions[1].parent_id = Some("UserDto_01a2".to_string());

    FrameworkNoiseFilter::filter_graph(&mut graph);

    let name_prop = graph
        .definitions
        .iter()
        .find(|n| n.id == "name_prop")
        .unwrap();
    assert_eq!(name_prop.signature, Some("name: string".to_string()));
}

#[test]
fn test_filter_graph_preserves_non_boilerplate() {
    let mut graph = YcgGraph {
        metadata: ProjectMetadata {
            name: "test".to_string(),
            version: "1.0".to_string(),
        },
        definitions: vec![
            create_test_node("User_01a2", "User", ScipSymbolKind::Class, None),
            create_test_node(
                "ctor_complex",
                "constructor",
                ScipSymbolKind::Method,
                Some(
                    "constructor(name: string) { this.name = name.toUpperCase(); }".to_string(),
                ),
            ),
            create_test_node(
                "save_03c4",
                "save",
                ScipSymbolKind::Method,
                Some("save(data: any)".to_string()),
            ),
        ],
        references: vec![],
    };

    FrameworkNoiseFilter::filter_graph(&mut graph);

    assert_eq!(graph.definitions.len(), 3);
    assert!(graph.definitions.iter().any(|n| n.id == "ctor_complex"));
}

#[test]
fn test_is_dto_file_any_extension() {
    assert!(FrameworkNoiseFilter::is_dto_file("src/users/user.dto.js"));
    assert!(FrameworkNoiseFilter::is_dto_file("src/users/user.dto.tsx"));
    assert!(!FrameworkNoiseFilter::is_dto_file("src/users/user.dto"));
    assert!(!FrameworkNoiseFilter::is_dto_file("src/users/userdto.ts"));
}
