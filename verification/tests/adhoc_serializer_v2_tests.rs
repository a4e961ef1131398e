use ycg_core::adhoc_serializer_v2::{AdHocSerializerV2, SourceMap};
use ycg_core::model::{
    AdHocGranularity, EdgeType, ProjectMetadata, ReferenceEdge, ScipSymbolKind, SymbolNode,
    YcgGraph,
};

fn create_test_node(
    id: &str,
    name: &str,
    kind: ScipSymbolKind,
    signature: Option<String>,
) -> SymbolNode {
    SymbolNode {
        id: id.to_string(),
        name: name.to_string(),
        kind,
        parent_id: None,
        documentation: None,
        signature,
        logic: None,
    }
}

// Level 0: Default Format Tests

#[test]
fn test_serialize_default_level_0_simple() {
    // Level 0 format is ID|Name|Type
    let serializer = AdHocSerializerV2::new(AdHocGranularity::Default);
    let node = create_test_node("User_b8c1", "User", ScipSymbolKind::Class, None);

    let result = serializer.serialize_node(&node, "");
    assert_eq!(result, "User_b8c1|User|class");
}

#[test]
fn test_serialize_default_level_0_function() {
    let serializer = AdHocSerializerV2::new(AdHocGranularity::Default);
    let node = create_test_node("greet_a3f2", "greet", ScipSymbolKind::Function, None);

    let result = serializer.serialize_node(&node, "");
    assert_eq!(result, "greet_a3f2|greet|function");
}

#[test]
fn test_serialize_default_level_0_method() {
    let serializer = AdHocSerializerV2::new(AdHocGranularity::Default);
    let node = create_test_node("findOne_7fed", "findOne", ScipSymbolKind::Method, None);

    let result = serializer.serialize_node(&node, "");
    assert_eq!(result, "findOne_7fed|findOne|method");
}

#[test]
fn test_serialize_default_level_0_all_kinds() {
    // Test all symbol kinds
    let serializer = AdHocSerializerV2::new(AdHocGranularity::Default);

    let kinds = vec![
        (ScipSymbolKind::File, "file"),
        (ScipSymbolKind::Module, "module"),
        (ScipSymbolKind::Class, "class"),
        (ScipSymbolKind::Method, "method"),
        (ScipSymbolKind::Function, "function"),
        (ScipSymbolKind::Variable, "variable"),
        (ScipSymbolKind::Interface, "interface"),
    ];

    for (kind, expected_str) in kinds {
        let node = create_test_node("test_id", "testName", kind, None);
        let result = serializer.serialize_node(&node, "");
        assert_eq!(result, format!("test_id|testName|{}", expected_str));
    }
}

// Level 1: Inline Signatures Tests

#[test]
fn test_serialize_level_1_with_signature() {
    // Level 1 format includes signatures
    let serializer = AdHocSerializerV2::new(AdHocGranularity::InlineSignatures);
    let node = create_test_node(
        "findOne_7fed",
        "findOne",
        ScipSymbolKind::Method,
        Some("findOne(id: string): User".to_string()),
    );

    let result = serializer.serialize_node(&node, "");

    // Should contain abbreviated signature
    assert!(result.starts_with("findOne_7fed|"));
    assert!(result.contains("findOne"));
    assert!(result.contains("str")); // string abbreviated
    assert!(result.ends_with("|method"));
}

#[test]
fn test_serialize_level_1_without_signature_fallback() {
    // Fall back to simple name if no signature
    let serializer = AdHocSerializerV2::new(AdHocGranularity::InlineSignatures);
    let node = create_test_node("findOne_7fed", "findOne", ScipSymbolKind::Method, None);

    let result = serializer.serialize_node(&node, "");
    assert_eq!(result, "findOne_7fed|findOne|method");
}

#[test]
fn test_serialize_level_1_complex_signature() {
    let serializer = AdHocSerializerV2::new(AdHocGranularity::InlineSignatures);
    let node = create_test_node(
        "purchase_99a1",
        "purchase",
        ScipSymbolKind::Method,
        Some("purchase(user: User, itemId: string): Promise<Order>".to_string()),
    );

    let result = serializer.serialize_node(&node, "");

    assert!(result.starts_with("purchase_99a1|"));
    assert!(result.contains("purchase"));
    assert!(result.contains("str")); // string abbreviated
    assert!(result.contains("Promise<Order>"));
    assert!(result.ends_with("|method"));
}

#[test]
fn test_serialize_level_1_void_return() {
    // Omit void return type
    let serializer = AdHocSerializerV2::new(AdHocGranularity::InlineSignatures);
    let node = create_test_node(
        "delete_1234",
        "delete",
        ScipSymbolKind::Method,
        Some("delete(id: string): void".to_string()),
    );

    let result = serializer.serialize_node(&node, "");

    // Should not include ":void" in output
    assert!(result.contains("delete(id:str)"));
    assert!(!result.contains(":void"));
}

// Level 2: Inline Logic Tests

#[test]
fn test_serialize_level_2_with_logic() {
    // Level 2 format includes logic field
    let serializer = AdHocSerializerV2::new(AdHocGranularity::InlineLogic);

    let node = create_test_node(
        "checkStock_7fed",
        "checkStock",
        ScipSymbolKind::Method,
        Some("checkStock(itemId: string): boolean".to_string()),
    );

    let result = serializer.serialize_node(&node, "");

    assert!(result.starts_with("checkStock_7fed|"));
    assert!(result.contains("checkStock"));
    assert!(result.ends_with("|method"));
}

#[test]
fn test_serialize_level_2_without_logic_fallback() {
    // Fall back to Level 1 format if no logic
    let serializer = AdHocSerializerV2::new(AdHocGranularity::InlineLogic);
    let node = create_test_node(
        "findOne_7fed",
        "findOne",
        ScipSymbolKind::Method,
        Some("findOne(id: string): User".to_string()),
    );

    let result = serializer.serialize_node(&node, "");

    // Should have 3 fields (no logic field)
    let field_count = result.matches('|').count();
    assert_eq!(field_count, 2); // 3 fields = 2 pipes
}

#[test]
fn test_serialize_level_2_non_method_no_logic() {
    // Only extract logic for methods and functions
    let serializer = AdHocSerializerV2::new(AdHocGranularity::InlineLogic);
    let node = create_test_node("User_b8c1", "User", ScipSymbolKind::Class, None);

    let result = serializer.serialize_node(&node, "");

    // Should not have logic field for classes
    assert_eq!(result, "User_b8c1|User|class");
}

// Pipe Escaping Tests

#[test]
fn test_escape_pipes_in_name() {
    // Escape pipe characters in content
    let serializer = AdHocSerializerV2::new(AdHocGranularity::Default);
    let node = create_test_node("test_id", "name|with|pipes", ScipSymbolKind::Function, None);

    let result = serializer.serialize_node(&node, "");
    assert_eq!(result, r"test_id|name\|with\|pipes|function");
}

#[test]
fn test_escape_pipes_in_id() {
    let serializer = AdHocSerializerV2::new(AdHocGranularity::Default);
    let node = create_test_node("id|with|pipes", "testName", ScipSymbolKind::Function, None);

    let result = serializer.serialize_node(&node, "");
    assert_eq!(result, r"id\|with\|pipes|testName|function");
}

#[test]
fn test_escape_pipes_in_signature() {
    let serializer = AdHocSerializerV2::new(AdHocGranularity::InlineSignatures);
    let node = create_test_node(
        "test_id",
        "method",
        ScipSymbolKind::Method,
        Some("method(param: Type|OtherType): Result".to_string()),
    );

    let result = serializer.serialize_node(&node, "");

    // Debug: print the result to see what we get
    println!("Result: {}", result);

    // Union types are simplified to first type only (for compactness)
    // So "Type|OtherType" becomes "Type"
    // The result should be: test_id|method(param:Type):Result|method
    assert!(result.contains("method(param:Type):Result"));
}

// Graph Serialization Tests

#[test]
fn test_serialize_graph_level_0() {
    let serializer = AdHocSerializerV2::new(AdHocGranularity::Default);

    let graph = YcgGraph {
        metadata: ProjectMetadata {
            name: "test".to_string(),
            version: "1.0".to_string(),
        },
        definitions: vec![
            create_test_node("A_0001", "ClassA", ScipSymbolKind::Class, None),
            create_test_node("B_0002", "methodB", ScipSymbolKind::Method, None),
        ],
        references: vec![ReferenceEdge {
            from: "B_0002".to_string(),
            to: "A_0001".to_string(),
            edge_type: EdgeType::Calls,
        }],
    };

    let sources = SourceMap::new();
    let adhoc = serializer.serialize_graph(&graph, &sources);

    assert_eq!(adhoc.definitions.len(), 2);
    assert_eq!(adhoc.definitions[0], "A_0001|ClassA|class");
    assert_eq!(adhoc.definitions[1], "B_0002|methodB|method");
    assert_eq!(adhoc.metadata.name, "test");
}

#[test]
fn test_serialize_graph_level_1() {
    let serializer = AdHocSerializerV2::new(AdHocGranularity::InlineSignatures);

    let graph = YcgGraph {
        metadata: ProjectMetadata {
            name: "test".to_string(),
            version: "1.0".to_string(),
        },
        definitions: vec![
            create_test_node("A_0001", "ClassA", ScipSymbolKind::Class, None),
            create_test_node(
                "B_0002",
                "methodB",
                ScipSymbolKind::Method,
                Some("methodB(id: string): User".to_string()),
            ),
        ],
        references: vec![],
    };

    let sources = SourceMap::new();
    let adhoc = serializer.serialize_graph(&graph, &sources);

    assert_eq!(adhoc.definitions.len(), 2);
    assert_eq!(adhoc.definitions[0], "A_0001|ClassA|class");
    // Second definition should have signature
    assert!(adhoc.definitions[1].contains("methodB"));
    assert!(adhoc.definitions[1].contains("str")); // abbreviated
}

#[test]
fn test_serialize_graph_adjacency_list() {
    let serializer = AdHocSerializerV2::new(AdHocGranularity::Default);

    let graph = YcgGraph {
        metadata: ProjectMetadata {
            name: "test".to_string(),
            version: "1.0".to_string(),
        },
        definitions: vec![
            create_test_node("A_0001", "ClassA", ScipSymbolKind::Class, None),
            create_test_node("B_0002", "methodB", ScipSymbolKind::Method, None),
            create_test_node("C_0003", "methodC", ScipSymbolKind::Method, None),
        ],
        references: vec![
            ReferenceEdge {
                from: "B_0002".to_string(),
                to: "A_0001".to_string(),
                edge_type: EdgeType::Calls,
            },
            ReferenceEdge {
                from: "B_0002".to_string(),
                to: "C_0003".to_string(),
                edge_type: EdgeType::Calls,
            },
        ],
    };

    let sources = SourceMap::new();
    let adhoc = serializer.serialize_graph(&graph, &sources);

    // Check adjacency list structure
    assert!(adhoc.adjacency.contains_key("B_0002"));
    let b_edges = adhoc.adjacency.get("B_0002").unwrap();
    assert!(b_edges.contains_key(&EdgeType::Calls));

    let calls = b_edges.get(&EdgeType::Calls).unwrap();
    assert_eq!(calls.len(), 2);
    // Should be sorted
    assert_eq!(calls[0], "A_0001");
    assert_eq!(calls[1], "C_0003");
}

#[test]
fn test_serialize_graph_empty() {
    let serializer = AdHocSerializerV2::new(AdHocGranularity::Default);

    let graph = YcgGraph {
        metadata: ProjectMetadata {
            name: "empty".to_string(),
            version: "1.0".to_string(),
        },
        definitions: vec![],
        references: vec![],
    };

    let sources = SourceMap::new();
    let adhoc = serializer.serialize_graph(&graph, &sources);

    assert_eq!(adhoc.definitions.len(), 0);
    assert_eq!(adhoc.adjacency.len(), 0);
}

// Helper Function Tests

#[test]
fn test_escape_pipes_helper() {
    assert_eq!(AdHocSerializerV2::escape_pipes("no pipes"), "no pipes");
    assert_eq!(AdHocSerializerV2::escape_pipes("one|pipe"), r"one\|pipe");
    assert_eq!(
        AdHocSerializerV2::escape_pipes("multiple|pipes|here"),
        r"multiple\|pipes\|here"
    );
}

#[test]
fn test_kind_to_string_all_kinds() {
    assert_eq!(
        AdHocSerializerV2::kind_to_string(&ScipSymbolKind::File),
        "file"
    );
    assert_eq!(
        AdHocSerializerV2::kind_to_string(&ScipSymbolKind::Module),
        "module"
    );
    assert_eq!(
        AdHocSerializerV2::kind_to_string(&ScipSymbolKind::Class),
        "class"
    );
    assert_eq!(
        AdHocSerializerV2::kind_to_string(&ScipSymbolKind::Method),
        "method"
    );
    assert_eq!(
        AdHocSerializerV2::kind_to_string(&ScipSymbolKind::Function),
        "function"
    );
    assert_eq!(
        AdHocSerializerV2::kind_to_string(&ScipSymbolKind::Variable),
        "variable"
    );
    assert_eq!(
        AdHocSerializerV2::kind_to_string(&ScipSymbolKind::Interface),
        "interface"
    );
}
