use ycg_core::framework_filter::FrameworkNoiseFilter;
use ycg_core::model::{
    EdgeType, ProjectMetadata, ReferenceEdge, ScipSymbolKind, SymbolNode, YcgGraph,
};

fn create_test_node(
    id: &str,
    name: &str,
    kind: ScipSymbolKind,
    signature: Option<String>,
) -> SymbolNode {
    SymbolNode {
        id: id.to_string(),
        name: name.to_string(),
        kind,
        parent_id: None,
        documentation: None,
        signature,
        logic: None,
    }
}

#[test]
fn test_is_dto_file() {
    // Test path with /dto/
    assert!(FrameworkNoiseFilter::is_dto_file("src/users/dto/user.dto.ts"));
    assert!(FrameworkNoiseFilter::is_dto_file("src/dto/create-user.ts"));

    // Test filename ending with .dto.ts
    assert!(FrameworkNoiseFilter::is_dto_file("src/users/user.dto.ts"));

    // Test non-DTO files
    assert!(!FrameworkNoiseFilter::is_dto_file("src/users/user.service.ts"));
    assert!(!FrameworkNoiseFilter::is_dto_file("src/users/user.controller.ts"));
}

#[test]
fn test_strip_decorators() {
    // Test single decorator
    let input = "@ApiProperty() name: string";
    let expected = "name: string";
    assert_eq!(FrameworkNoiseFilter::strip_decorators(input), expected);

    // Test multiple decorators
    let input = "@IsString() @IsOptional() email?: string";
    let expected = "email?: string";
    assert_eq!(FrameworkNoiseFilter::strip_decorators(input), expected);

    // Test decorator with arguments
    let input = "@Column({ type: 'varchar', length: 255 }) username: string";
    let expected = "username: string";
    assert_eq!(FrameworkNoiseFilter::strip_decorators(input), expected);

    // Test multiple decorators on multiple lines
    let input = "@ApiProperty()\n@IsString()\nname: string";
    let expected = "name: string";
    assert_eq!(FrameworkNoiseFilter::strip_decorators(input), expected);

    // Test no decorators
    let input = "name: string";
    assert_eq!(FrameworkNoiseFilter::strip_decorators(input), input);
}

#[test]
fn test_is_di_only_constructor() {
    // Test DI-only constructor with private
    let node = create_test_node(
        "ctor_1",
        "constructor",
        ScipSymbolKind::Method,
        Some("constructor(private userService: UserService)".to_string()),
    );
    assert!(FrameworkNoiseFilter::is_di_only_constructor(&node));

    // Test DI-only constructor with multiple parameters
    let node = create_test_node(
        "ctor_2",
        "constructor",
        ScipSymbolKind::Method,
        Some(
            "constructor(private userService: UserService, public config: Config)".to_string(),
        ),
    );
    assert!(FrameworkNoiseFilter::is_di_only_constructor(&node));

    // Test DI-only constructor with readonly
    let node = create_test_node(
        "ctor_3",
        "constructor",
        ScipSymbolKind::Method,
        Some("constructor(private readonly logger: Logger)".to_string()),
    );
    assert!(FrameworkNoiseFilter::is_di_only_constructor(&node));

    // Test constructor with complex logic (should not be DI-only)
    let node = create_test_node(
        "ctor_4",
        "constructor",
        ScipSymbolKind::Method,
        Some(
            "constructor(private service: Service) { if (condition) { doSomething(); } }"
                .to_string(),
        ),
    );
    assert!(!FrameworkNoiseFilter::is_di_only_constructor(&node));

    // Test regular constructor without access modifiers
    let node = create_test_node(
        "ctor_5",
        "constructor",
        ScipSymbolKind::Method,
        Some("constructor(name: string, age: number)".to_string()),
    );
    assert!(!FrameworkNoiseFilter::is_di_only_constructor(&node));

    // Test non-constructor method
    let node = create_test_node(
        "method_1",
        "save",
        ScipSymbolKind::Method,
        Some("save(data: any)".to_string()),
    );
    assert!(!FrameworkNoiseFilter::is_di_only_constructor(&node));
}

#[test]
fn test_simplify_dto_property() {
    let mut node = create_test_node(
        "prop_1",
        "name",
        ScipSymbolKind::Variable,
        Some("@ApiProperty() @IsString() name: string".to_string()),
    );

    FrameworkNoiseFilter::simplify_dto_property(&mut node);

    assert_eq!(node.signature, Some("name: string".to_string()));
}

#[test]
fn test_filter_graph_removes_di_constructors() {
    let mut graph = YcgGraph {
        metadata: ProjectMetadata {
            name: "test".to_string(),
            version: "1.0".to_string(),
        },
        definitions: vec![
            create_test_node("User_01a2", "User", ScipSymbolKind::Class, None),
            create_test_node(
                "ctor_1",
                "constructor",
                ScipSymbolKind::Method,
                Some("constructor(private userService: UserService)".to_string()),
            ),
            create_test_node(
                "save_03c4",
                "save",
                ScipSymbolKind::Method,
                Some("save(data: any)".to_string()),
            ),
        ],
        references: vec![
            ReferenceEdge {
                from: "User_01a2".to_string(),
                to: "ctor_1".to_string(),
                edge_type: EdgeType::Calls,
            },
            ReferenceEdge {
                from: "User_01a2".to_string(),
                to: "save_03c4".to_string(),
                edge_type: EdgeType::Calls,
            },
        ],
    };

    FrameworkNoiseFilter::filter_graph(&mut graph);

    // Should remove DI-only constructor
    assert_eq!(graph.definitions.len(), 2);
    assert!(graph.definitions.iter().any(|n| n.id == "User_01a2"));
    assert!(graph.definitions.iter().any(|n| n.id == "save_03c4"));
    assert!(!graph.definitions.iter().any(|n| n.id == "ctor_1"));

    // Should remove edges referencing removed constructor
    assert_eq!(graph.references.len(), 1);
    assert_eq!(graph.references[0].from, "User_01a2");
    assert_eq!(graph.references[0].to, "save_03c4");
}

#[test]
fn test_filter_graph_simplifies_dto_properties() {
    let mut graph = YcgGraph {
        metadata: ProjectMetadata {
            name: "test".to_string(),
            version: "1.0".to_string(),
        },
        definitions: vec![
            create_test_node("UserDto_01a2", "UserDto", ScipSymbolKind::Class, None),
            create_test_node(
                "name_prop",
                "name",
                ScipSymbolKind::Variable,
                Some("@ApiProperty() @IsString() name: string".to_string()),
            ),
        ],
        references: vec![],
    };

    // Set parent_id for the property
    graph.definitions[1].parent_id = Some("UserDto_01a2".to_string());

    FrameworkNoiseFilter::filter_graph(&mut graph);

    // Should simplify DTO property signature
    let name_prop = graph
        .definitions
        .iter()
        .find(|n| n.id == "name_prop")
        .unwrap();
    assert_eq!(name_prop.signature, Some("name: string".to_string()));
}

#[test]
fn test_filter_graph_preserves_non_boilerplate() {
    let mut graph = YcgGraph {
        metadata: ProjectMetadata {
            name: "test".to_string(),
            version: "1.0".to_string(),
        },
        definitions: vec![
            create_test_node("User_01a2", "User", ScipSymbolKind::Class, None),
            create_test_node(
                "ctor_complex",
                "constructor",
                ScipSymbolKind::Method,
                Some(
                    "constructor(name: string) { this.name = name.toUpperCase(); }".to_string(),
                ),
            ),
            create_test_node(
                "save_03c4",
                "save",
                ScipSymbolKind::Method,
                Some("save(data: any)".to_string()),
            ),
        ],
        references: vec![],
    };

    FrameworkNoiseFilter::filter_graph(&mut graph);

    // Should preserve constructor with complex logic
    assert_eq!(graph.definitions.len(), 3);
    assert!(graph.definitions.iter().any(|n| n.id == "ctor_complex"));
}

#[test]
fn dto_paths_at_the_edges() {
    assert!(FrameworkNoiseFilter::is_dto_file("a.dto.ts"));
    assert!(FrameworkNoiseFilter::is_dto_file(".dto.ts"));
    assert!(FrameworkNoiseFilter::is_dto_file("src/a.dto.ts/"));
    assert!(FrameworkNoiseFilter::is_dto_file("src/a.dto.ts/."));
    assert!(FrameworkNoiseFilter::is_dto_file("src/a.dto.ts//./"));
    assert!(FrameworkNoiseFilter::is_dto_file("a.dto.ts/./."));
    assert!(!FrameworkNoiseFilter::is_dto_file("src/a.dto.ts/.."));
    assert!(!FrameworkNoiseFilter::is_dto_file("src/a.dto.ts/x."));
    assert!(!FrameworkNoiseFilter::is_dto_file("a.dto.ts."));
    assert!(!FrameworkNoiseFilter::is_dto_file("."));
    assert!(!FrameworkNoiseFilter::is_dto_file("/."));
    assert!(FrameworkNoiseFilter::is_dto_file("x/dto/y"));
    assert!(!FrameworkNoiseFilter::is_dto_file("dto/y"));
    assert!(!FrameworkNoiseFilter::is_dto_file("a.dto.ts/b"));
    assert!(!FrameworkNoiseFilter::is_dto_file("a.dto.tsx"));
    assert!(!FrameworkNoiseFilter::is_dto_file(""));
}

#[test]
fn decorators_are_stripped_by_the_pattern() {
    assert_eq!(FrameworkNoiseFilter::strip_decorators("  @A(1) x @B y  "), "x y");
    assert_eq!(FrameworkNoiseFilter::strip_decorators("a@b.c"), "a.c");
    assert_eq!(FrameworkNoiseFilter::strip_decorators("@"), "@");
    assert_eq!(FrameworkNoiseFilter::strip_decorators(""), "");
}

#[test]
fn a_node_with_the_id_of_a_removed_constructor_goes_too() {
    let mut graph = YcgGraph {
        metadata: ProjectMetadata { name: "t".to_string(), version: "1".to_string() },
        definitions: vec![
            create_test_node("same", "keep", ScipSymbolKind::Class, None),
            create_test_node(
                "same",
                "constructor",
                ScipSymbolKind::Method,
                Some("constructor(public a: A)".to_string()),
            ),
            create_test_node(
                "fn",
                "constructor",
                ScipSymbolKind::Function,
                Some("constructor(public a: A)".to_string()),
            ),
            create_test_node(
                "doc",
                "d",
                ScipSymbolKind::Variable,
                Some("@X() d: string".to_string()),
            ),
        ],
        references: vec![
            ReferenceEdge { from: "fn".to_string(), to: "same".to_string(), edge_type: EdgeType::Calls },
            ReferenceEdge { from: "same".to_string(), to: "fn".to_string(), edge_type: EdgeType::Calls },
            ReferenceEdge { from: "fn".to_string(), to: "doc".to_string(), edge_type: EdgeType::Imports },
        ],
    };
    graph.definitions[3].documentation = Some("see @link(x) here".to_string());
    FrameworkNoiseFilter::filter_graph(&mut graph);
    let ids: Vec<&str> = graph.definitions.iter().map(|n| n.id.as_str()).collect();
    assert_eq!(ids, vec!["fn", "doc"]);
    // without a parent nothing is simplified
    assert_eq!(graph.definitions[1].signature, Some("@X() d: string".to_string()));
    assert_eq!(graph.references.len(), 1);
    assert_eq!(graph.references[0].to, "doc");

    graph.definitions[1].parent_id = Some("fn".to_string());
    FrameworkNoiseFilter::filter_graph(&mut graph);
    assert_eq!(graph.definitions[1].signature, Some("d: string".to_string()));
    assert_eq!(graph.definitions[1].documentation, Some("see here".to_string()));
}

#[test]
fn dto_file_names_are_those_of_the_path() {
    let paths = [
        "", ".", "..", "/", "//", "/.", "./", "./.", "a.dto.ts", "a.dto.ts/", "a.dto.ts//",
        "a.dto.ts/.", "a.dto.ts/./", "a.dto.ts/././/", "a.dto.ts/..", "a.dto.ts/../", "./a.dto.ts",
        "../a.dto.ts", "x/./a.dto.ts", "x/a.dto.ts/.x", "x/a.dto.ts/x.", "x/.dto.ts", "/.dto.ts",
        "x/a.dto.ts.", "x/a.dto.ts/...", "x/a.dto.ts /.", "x\\a.dto.ts", "dto/a.ts", "/dto/a.ts",
        "x/dto", "x/dto/", "x/dto/.", "x/.dto.ts/.", ".dto.ts/.", "a.dto.ts./", "a/.dto.tsx/.",
    ];
    for p in paths {
        let name = std::path::Path::new(p).file_name().map(|n| n.to_string_lossy().into_owned());
        let expected = p.contains("/dto/") || name.map_or(false, |n| n.ends_with(".dto.ts"));
        assert_eq!(FrameworkNoiseFilter::is_dto_file(p), expected, "for {:?}", p);
    }
}
