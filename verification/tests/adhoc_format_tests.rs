use ycg_core::adhoc_format::{
    escape_pipes, kind_to_string, split_escaped, string_to_kind, unescape_pipes, AdHocParser,
    AdHocSerializer,
};
use ycg_core::model::{
    EdgeType, ProjectMetadata, ReferenceEdge, ScipSymbolKind, SymbolNode, YcgGraph,
};

#[test]
fn test_serialize_node_basic() {
    let node = SymbolNode {
        id: "User_b8c1".to_string(),
        name: "User".to_string(),
        kind: ScipSymbolKind::Class,
        parent_id: None,
        documentation: None,
        signature: None,
        logic: None,
    };

    let result = AdHocSerializer::serialize_node(&node);
    assert_eq!(result, "User_b8c1|User|class");
}

#[test]
fn test_serialize_node_with_pipes() {
    let node = SymbolNode {
        id: "weird|id".to_string(),
        name: "name|with|pipes".to_string(),
        kind: ScipSymbolKind::Function,
        parent_id: None,
        documentation: None,
        signature: None,
        logic: None,
    };

    let result = AdHocSerializer::serialize_node(&node);
    assert_eq!(result, r"weird\|id|name\|with\|pipes|function");
}

#[test]
fn test_parse_node_basic() {
    let input = "greet_a3f2|greet|function";
    let result = AdHocParser::parse_node(input).unwrap();

    assert_eq!(result.id, "greet_a3f2");
    assert_eq!(result.name, "greet");
    assert_eq!(result.kind, ScipSymbolKind::Function);
}

#[test]
fn test_parse_node_with_escaped_pipes() {
    let input = r"weird\|id|name\|with\|pipes|method";
    let result = AdHocParser::parse_node(input).unwrap();

    assert_eq!(result.id, "weird|id");
    assert_eq!(result.name, "name|with|pipes");
    assert_eq!(result.kind, ScipSymbolKind::Method);
}

#[test]
fn test_parse_node_invalid_field_count() {
    let input = "only|two";
    let result = AdHocParser::parse_node(input);
    assert!(result.is_err());
    assert!(
        result
            .unwrap_err()
            .to_string()
            .contains("expected 3 fields")
    );
}

#[test]
fn test_parse_node_invalid_kind() {
    let input = "id|name|invalid_kind";
    let result = AdHocParser::parse_node(input);
    assert!(result.is_err());
    assert!(
        result
            .unwrap_err()
            .to_string()
            .contains("Invalid symbol kind")
    );
}

#[test]
fn test_round_trip_single_node() {
    let initial = SymbolNode {
        id: "Test_1234".to_string(),
        name: "TestClass".to_string(),
        kind: ScipSymbolKind::Class,
        parent_id: None,
        documentation: None,
        signature: None,
        logic: None,
    };

    let serialized = AdHocSerializer::serialize_node(&initial);
    let parsed = AdHocParser::parse_node(&serialized).unwrap();

    assert_eq!(initial.id, parsed.id);
    assert_eq!(initial.name, parsed.name);
    assert_eq!(initial.kind, parsed.kind);
}

#[test]
fn test_serialize_graph() {
    let graph = YcgGraph {
        metadata: ProjectMetadata {
            name: "test".to_string(),
            version: "1.0".to_string(),
        },
        definitions: vec![
            SymbolNode {
                id: "A_0001".to_string(),
                name: "ClassA".to_string(),
                kind: ScipSymbolKind::Class,
                parent_id: None,
                documentation: None,
                signature: None,
                logic: None,
            },
            SymbolNode {
                id: "B_0002".to_string(),
                name: "methodB".to_string(),
                kind: ScipSymbolKind::Method,
                parent_id: Some("A_0001".to_string()),
                documentation: None,
                signature: None,
                logic: None,
            },
        ],
        references: vec![ReferenceEdge {
            from: "B_0002".to_string(),
            to: "A_0001".to_string(),
            edge_type: EdgeType::Calls,
        }],
    };

    let adhoc = AdHocSerializer::serialize_graph(&graph);

    assert_eq!(adhoc.definitions.len(), 2);
    assert_eq!(adhoc.definitions[0], "A_0001|ClassA|class");
    assert_eq!(adhoc.definitions[1], "B_0002|methodB|method");
    assert_eq!(adhoc.metadata.name, "test");
}

#[test]
fn test_parse_graph_round_trip() {
    let initial = YcgGraph {
        metadata: ProjectMetadata {
            name: "test".to_string(),
            version: "1.0".to_string(),
        },
        definitions: vec![
            SymbolNode {
                id: "User_b8c1".to_string(),
                name: "User".to_string(),
                kind: ScipSymbolKind::Class,
                parent_id: None,
                documentation: None,
                signature: None,
                logic: None,
            },
            SymbolNode {
                id: "greet_a3f2".to_string(),
                name: "greet".to_string(),
                kind: ScipSymbolKind::Function,
                parent_id: None,
                documentation: None,
                signature: None,
                logic: None,
            },
        ],
        references: vec![ReferenceEdge {
            from: "greet_a3f2".to_string(),
            to: "User_b8c1".to_string(),
            edge_type: EdgeType::References,
        }],
    };

    let adhoc = AdHocSerializer::serialize_graph(&initial);
    let parsed = AdHocParser::parse_graph(&adhoc).unwrap();

    assert_eq!(initial.definitions.len(), parsed.definitions.len());
    assert_eq!(initial.references.len(), parsed.references.len());
    assert_eq!(initial.metadata.name, parsed.metadata.name);

    // Check first definition
    assert_eq!(initial.definitions[0].id, parsed.definitions[0].id);
    assert_eq!(initial.definitions[0].name, parsed.definitions[0].name);
    assert_eq!(initial.definitions[0].kind, parsed.definitions[0].kind);
}

#[test]
fn test_split_escaped() {
    let result = split_escaped("a|b|c").unwrap();
    assert_eq!(result, vec!["a", "b", "c"]);

    let result = split_escaped(r"a\|b|c").unwrap();
    assert_eq!(result, vec![r"a\|b", "c"]);

    let result = split_escaped(r"a\|b\|c|d").unwrap();
    assert_eq!(result, vec![r"a\|b\|c", "d"]);
}

#[test]
fn test_escape_unescape_pipes() {
    let initial = "test|with|pipes";
    let escaped = escape_pipes(initial);
    assert_eq!(escaped, r"test\|with\|pipes");

    let unescaped = unescape_pipes(&escaped);
    assert_eq!(unescaped, initial);
}

#[test]
fn test_kind_conversion() {
    assert_eq!(kind_to_string(&ScipSymbolKind::Class), "class");
    assert_eq!(kind_to_string(&ScipSymbolKind::Function), "function");

    assert_eq!(string_to_kind("class").unwrap(), ScipSymbolKind::Class);
    assert_eq!(string_to_kind("CLASS").unwrap(), ScipSymbolKind::Class);
    assert_eq!(
        string_to_kind("function").unwrap(),
        ScipSymbolKind::Function
    );

    assert!(string_to_kind("invalid").is_err());
}
