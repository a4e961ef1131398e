use ycg_core::adjacency::{AdjacencyGraph, EdgeMap};
use ycg_core::model::{
    AdHocGranularity, EdgeType, ProjectMetadata, ReferenceEdge, ScipSymbolKind, SymbolNode,
    YcgGraph, YcgGraphAdHoc, YcgGraphOptimized,
};
use ycg_core::validators::{
    count_unescaped_pipes, split_unescaped_pipes, validate_adhoc_granularity,
    validate_graph_integrity, validate_graph_integrity_adhoc, validate_graph_integrity_optimized,
    AdHocValidator,
};

#[test]
fn test_adhoc_validator_valid_format() {
    let graph = YcgGraphAdHoc {
        metadata: ProjectMetadata {
            name: "test".to_string(),
            version: "1.0".to_string(),
        },
        definitions: vec![
            "A_0001|ClassA|class".to_string(),
            "B_0002|methodB|method".to_string(),
        ],
        adjacency: AdjacencyGraph::new(),
    };

    assert!(AdHocValidator::validate(&graph).is_ok());
}

#[test]
fn test_adhoc_validator_invalid_field_count() {
    let graph = YcgGraphAdHoc {
        metadata: ProjectMetadata {
            name: "test".to_string(),
            version: "1.0".to_string(),
        },
        definitions: vec![
            "A_0001|ClassA|class".to_string(),
            "B_0002|only_two".to_string(), // Invalid: only 2 fields
        ],
        adjacency: AdjacencyGraph::new(),
    };

    let result = AdHocValidator::validate(&graph);
    assert!(result.is_err());
    assert!(
        result
            .unwrap_err()
            .to_string()
            .contains("expected 3 fields")
    );
}

#[test]
fn test_adhoc_validator_with_escaped_pipes() {
    let graph = YcgGraphAdHoc {
        metadata: ProjectMetadata {
            name: "test".to_string(),
            version: "1.0".to_string(),
        },
        definitions: vec![
            r"A\|0001|Class\|A|class".to_string(), // Escaped pipes should not count
        ],
        adjacency: AdjacencyGraph::new(),
    };

    assert!(AdHocValidator::validate(&graph).is_ok());
}

#[test]
fn test_validate_graph_integrity_valid() {
    let graph = YcgGraph {
        metadata: ProjectMetadata {
            name: "test".to_string(),
            version: "1.0".to_string(),
        },
        definitions: vec![
            SymbolNode {
                id: "A_0001".to_string(),
                name: "ClassA".to_string(),
                kind: ScipSymbolKind::Class,
                parent_id: None,
                documentation: None,
                signature: None,
                logic: None,
            },
            SymbolNode {
                id: "B_0002".to_string(),
                name: "methodB".to_string(),
                kind: ScipSymbolKind::Method,
                parent_id: None,
                documentation: None,
                signature: None,
                logic: None,
            },
        ],
        references: vec![ReferenceEdge {
            from: "B_0002".to_string(),
            to: "A_0001".to_string(),
            edge_type: EdgeType::Calls,
        }],
    };

    assert!(validate_graph_integrity(&graph).is_ok());
}

#[test]
fn test_validate_graph_integrity_invalid_source() {
    let graph = YcgGraph {
        metadata: ProjectMetadata {
            name: "test".to_string(),
            version: "1.0".to_string(),
        },
        definitions: vec![SymbolNode {
            id: "A_0001".to_string(),
            name: "ClassA".to_string(),
            kind: ScipSymbolKind::Class,
            parent_id: None,
            documentation: None,
            signature: None,
            logic: None,
        }],
        references: vec![ReferenceEdge {
            from: "INVALID_ID".to_string(),
            to: "A_0001".to_string(),
            edge_type: EdgeType::Calls,
        }],
    };

    let result = validate_graph_integrity(&graph);
    assert!(result.is_err());
    assert!(
        result
            .unwrap_err()
            .to_string()
            .contains("source ID not found")
    );
}

#[test]
fn test_validate_graph_integrity_invalid_target() {
    let graph = YcgGraph {
        metadata: ProjectMetadata {
            name: "test".to_string(),
            version: "1.0".to_string(),
        },
        definitions: vec![SymbolNode {
            id: "A_0001".to_string(),
            name: "ClassA".to_string(),
            kind: ScipSymbolKind::Class,
            parent_id: None,
            documentation: None,
            signature: None,
            logic: None,
        }],
        references: vec![ReferenceEdge {
            from: "A_0001".to_string(),
            to: "INVALID_TARGET".to_string(),
            edge_type: EdgeType::Calls,
        }],
    };

    let result = validate_graph_integrity(&graph);
    assert!(result.is_err());
    assert!(
        result
            .unwrap_err()
            .to_string()
            .contains("target ID not found")
    );
}

#[test]
fn test_validate_graph_integrity_optimized_valid() {
    let mut adjacency = AdjacencyGraph::new();
    let mut edges = EdgeMap::new();
    edges.insert(EdgeType::Calls, vec!["A_0001".to_string()]);
    adjacency.insert("B_0002".to_string(), edges);

    let graph = YcgGraphOptimized {
        metadata: ProjectMetadata {
            name: "test".to_string(),
            version: "1.0".to_string(),
        },
        definitions: vec![
            SymbolNode {
                id: "A_0001".to_string(),
                name: "ClassA".to_string(),
                kind: ScipSymbolKind::Class,
                parent_id: None,
                documentation: None,
                signature: None,
                logic: None,
            },
            SymbolNode {
                id: "B_0002".to_string(),
                name: "methodB".to_string(),
                kind: ScipSymbolKind::Method,
                parent_id: None,
                documentation: None,
                signature: None,
                logic: None,
            },
        ],
        adjacency,
    };

    assert!(validate_graph_integrity_optimized(&graph).is_ok());
}

#[test]
fn test_validate_graph_integrity_optimized_invalid() {
    let mut adjacency = AdjacencyGraph::new();
    let mut edges = EdgeMap::new();
    edges.insert(EdgeType::Calls, vec!["INVALID_ID".to_string()]);
    adjacency.insert("B_0002".to_string(), edges);

    let graph = YcgGraphOptimized {
        metadata: ProjectMetadata {
            name: "test".to_string(),
            version: "1.0".to_string(),
        },
        definitions: vec![SymbolNode {
            id: "B_0002".to_string(),
            name: "methodB".to_string(),
            kind: ScipSymbolKind::Method,
            parent_id: None,
            documentation: None,
            signature: None,
            logic: None,
        }],
        adjacency,
    };

    let result = validate_graph_integrity_optimized(&graph);
    assert!(result.is_err());
    assert!(
        result
            .unwrap_err()
            .to_string()
            .contains("target ID not found")
    );
}

#[test]
fn test_validate_graph_integrity_adhoc_valid() {
    let mut adjacency = AdjacencyGraph::new();
    let mut edges = EdgeMap::new();
    edges.insert(EdgeType::Calls, vec!["A_0001".to_string()]);
    adjacency.insert("B_0002".to_string(), edges);

    let graph = YcgGraphAdHoc {
        metadata: ProjectMetadata {
            name: "test".to_string(),
            version: "1.0".to_string(),
        },
        definitions: vec![
            "A_0001|ClassA|class".to_string(),
            "B_0002|methodB|method".to_string(),
        ],
        adjacency,
    };

    assert!(validate_graph_integrity_adhoc(&graph).is_ok());
}

#[test]
fn test_validate_graph_integrity_adhoc_invalid() {
    let mut adjacency = AdjacencyGraph::new();
    let mut edges = EdgeMap::new();
    edges.insert(EdgeType::Calls, vec!["INVALID_ID".to_string()]);
    adjacency.insert("B_0002".to_string(), edges);

    let graph = YcgGraphAdHoc {
        metadata: ProjectMetadata {
            name: "test".to_string(),
            version: "1.0".to_string(),
        },
        definitions: vec!["B_0002|methodB|method".to_string()],
        adjacency,
    };

    let result = validate_graph_integrity_adhoc(&graph);
    assert!(result.is_err());
    assert!(
        result
            .unwrap_err()
            .to_string()
            .contains("target ID not found")
    );
}

#[test]
fn test_count_unescaped_pipes() {
    assert_eq!(count_unescaped_pipes("a|b|c"), 2);
    assert_eq!(count_unescaped_pipes(r"a\|b|c"), 1);
    assert_eq!(count_unescaped_pipes(r"a\|b\|c"), 0);
    assert_eq!(count_unescaped_pipes("no pipes here"), 0);
    assert_eq!(count_unescaped_pipes(r"one\|escaped|one|not"), 2);
}

#[test]
fn test_adhoc_validator_referential_integrity() {
    let mut adjacency = AdjacencyGraph::new();
    let mut edges = EdgeMap::new();
    edges.insert(EdgeType::Calls, vec!["NONEXISTENT".to_string()]);
    adjacency.insert("A_0001".to_string(), edges);

    let graph = YcgGraphAdHoc {
        metadata: ProjectMetadata {
            name: "test".to_string(),
            version: "1.0".to_string(),
        },
        definitions: vec!["A_0001|ClassA|class".to_string()],
        adjacency,
    };

    let result = AdHocValidator::validate(&graph);
    assert!(result.is_err());
    assert!(
        result
            .unwrap_err()
            .to_string()
            .contains("referential integrity")
    );
}

// --- GRANULARITY VALIDATION TESTS ---

#[test]
fn test_validate_adhoc_granularity_level0_valid() {
    let graph = YcgGraphAdHoc {
        metadata: ProjectMetadata {
            name: "test".to_string(),
            version: "1.0".to_string(),
        },
        definitions: vec![
            "A_0001|ClassA|class".to_string(),
            "B_0002|methodB|method".to_string(),
        ],
        adjacency: AdjacencyGraph::new(),
    };

    let result = validate_adhoc_granularity(&graph, AdHocGranularity::Default);
    assert!(result.is_ok());
}

#[test]
fn test_validate_adhoc_granularity_level0_invalid_field_count() {
    let graph = YcgGraphAdHoc {
        metadata: ProjectMetadata {
            name: "test".to_string(),
            version: "1.0".to_string(),
        },
        definitions: vec![
            "A_0001|ClassA|class".to_string(),
            "B_0002|methodB|method|extra_field".to_string(), // 4 fields - invalid for Level 0
        ],
        adjacency: AdjacencyGraph::new(),
    };

    let result = validate_adhoc_granularity(&graph, AdHocGranularity::Default);
    assert!(result.is_err());
    let err_msg = result.unwrap_err().to_string();
    assert!(err_msg.contains("expected 3 fields"));
    assert!(err_msg.contains("got 4"));
}

#[test]
fn test_validate_adhoc_granularity_level1_valid() {
    let graph = YcgGraphAdHoc {
        metadata: ProjectMetadata {
            name: "test".to_string(),
            version: "1.0".to_string(),
        },
        definitions: vec![
            "A_0001|ClassA|class".to_string(),
            "B_0002|methodB(param:str):bool|method".to_string(),
        ],
        adjacency: AdjacencyGraph::new(),
    };

    let result = validate_adhoc_granularity(&graph, AdHocGranularity::InlineSignatures);
    assert!(result.is_ok());
}

#[test]
fn test_validate_adhoc_granularity_level1_invalid_field_count() {
    let graph = YcgGraphAdHoc {
        metadata: ProjectMetadata {
            name: "test".to_string(),
            version: "1.0".to_string(),
        },
        definitions: vec![
            "A_0001|ClassA|class".to_string(),
            "B_0002|methodB(param:str):bool".to_string(), // Only 2 fields - invalid
        ],
        adjacency: AdjacencyGraph::new(),
    };

    let result = validate_adhoc_granularity(&graph, AdHocGranularity::InlineSignatures);
    assert!(result.is_err());
    let err_msg = result.unwrap_err().to_string();
    assert!(err_msg.contains("expected 3 fields"));
    assert!(err_msg.contains("got 2"));
}

#[test]
fn test_validate_adhoc_granularity_level2_valid_with_logic() {
    let graph = YcgGraphAdHoc {
        metadata: ProjectMetadata {
            name: "test".to_string(),
            version: "1.0".to_string(),
        },
        definitions: vec![
            "A_0001|ClassA|class".to_string(),
            "B_0002|methodB(param:str):bool|method|logic:check(param);return(true)".to_string(),
        ],
        adjacency: AdjacencyGraph::new(),
    };

    let result = validate_adhoc_granularity(&graph, AdHocGranularity::InlineLogic);
    assert!(result.is_ok());
}

#[test]
fn test_validate_adhoc_granularity_level2_valid_without_logic() {
    let graph = YcgGraphAdHoc {
        metadata: ProjectMetadata {
            name: "test".to_string(),
            version: "1.0".to_string(),
        },
        definitions: vec![
            "A_0001|ClassA|class".to_string(),
            "B_0002|methodB(param:str):bool|method".to_string(), // 3 fields - valid (logic optional)
        ],
        adjacency: AdjacencyGraph::new(),
    };

    let result = validate_adhoc_granularity(&graph, AdHocGranularity::InlineLogic);
    assert!(result.is_ok());
}

#[test]
fn test_validate_adhoc_granularity_level2_invalid_field_count() {
    let graph = YcgGraphAdHoc {
        metadata: ProjectMetadata {
            name: "test".to_string(),
            version: "1.0".to_string(),
        },
        definitions: vec![
            "A_0001|ClassA|class".to_string(),
            "B_0002|methodB(param:str):bool|method|logic:check(param)|extra".to_string(), // 5 fields - invalid
        ],
        adjacency: AdjacencyGraph::new(),
    };

    let result = validate_adhoc_granularity(&graph, AdHocGranularity::InlineLogic);
    assert!(result.is_err());
    let err_msg = result.unwrap_err().to_string();
    assert!(err_msg.contains("expected 3 or 4 fields"));
    assert!(err_msg.contains("got 5"));
}

#[test]
fn test_validate_logic_field_format_missing_prefix() {
    let graph = YcgGraphAdHoc {
        metadata: ProjectMetadata {
            name: "test".to_string(),
            version: "1.0".to_string(),
        },
        definitions: vec![
            "B_0002|methodB(param:str):bool|method|check(param);return(true)".to_string(), // Missing "logic:" prefix
        ],
        adjacency: AdjacencyGraph::new(),
    };

    let result = validate_adhoc_granularity(&graph, AdHocGranularity::InlineLogic);
    assert!(result.is_err());
    let err_msg = result.unwrap_err().to_string();
    assert!(err_msg.contains("logic field must start with 'logic:'"));
}

#[test]
fn test_validate_logic_keywords_valid() {
    let graph = YcgGraphAdHoc {
        metadata: ProjectMetadata {
            name: "test".to_string(),
            version: "1.0".to_string(),
        },
        definitions: vec![
            "B_0002|methodB|method|logic:check(x>0);action(save);get(data);match(x)?a:b;return(result)".to_string(),
        ],
        adjacency: AdjacencyGraph::new(),
    };

    let result = validate_adhoc_granularity(&graph, AdHocGranularity::InlineLogic);
    assert!(result.is_ok());
}

#[test]
fn test_validate_logic_keywords_invalid() {
    let graph = YcgGraphAdHoc {
        metadata: ProjectMetadata {
            name: "test".to_string(),
            version: "1.0".to_string(),
        },
        definitions: vec![
            "B_0002|methodB|method|logic:check(x>0);invalid_keyword(data);return(result)"
                .to_string(),
        ],
        adjacency: AdjacencyGraph::new(),
    };

    let result = validate_adhoc_granularity(&graph, AdHocGranularity::InlineLogic);
    assert!(result.is_err());
    let err_msg = result.unwrap_err().to_string();
    assert!(err_msg.contains("Invalid logic keyword"));
    assert!(err_msg.contains("invalid_keyword"));
    assert!(err_msg.contains("check, action, return, match, get"));
}

#[test]
fn test_validate_logic_keywords_truncated() {
    // Truncated logic (ending with "...") should be accepted
    let graph = YcgGraphAdHoc {
        metadata: ProjectMetadata {
            name: "test".to_string(),
            version: "1.0".to_string(),
        },
        definitions: vec![
            "B_0002|methodB|method|logic:check(x>0);action(save);get(data);match(x)?a:b;return(res...".to_string(),
        ],
        adjacency: AdjacencyGraph::new(),
    };

    let result = validate_adhoc_granularity(&graph, AdHocGranularity::InlineLogic);
    assert!(result.is_ok());
}

#[test]
fn test_validate_with_granularity_level0() {
    let graph = YcgGraphAdHoc {
        metadata: ProjectMetadata {
            name: "test".to_string(),
            version: "1.0".to_string(),
        },
        definitions: vec![
            "A_0001|ClassA|class".to_string(),
            "B_0002|methodB|method".to_string(),
        ],
        adjacency: AdjacencyGraph::new(),
    };

    let result = AdHocValidator::validate_with_granularity(&graph, AdHocGranularity::Default);
    assert!(result.is_ok());
}

#[test]
fn test_validate_with_granularity_level1() {
    let graph = YcgGraphAdHoc {
        metadata: ProjectMetadata {
            name: "test".to_string(),
            version: "1.0".to_string(),
        },
        definitions: vec![
            "A_0001|ClassA|class".to_string(),
            "B_0002|methodB(x:num):str|method".to_string(),
        ],
        adjacency: AdjacencyGraph::new(),
    };

    let result =
        AdHocValidator::validate_with_granularity(&graph, AdHocGranularity::InlineSignatures);
    assert!(result.is_ok());
}

#[test]
fn test_validate_with_granularity_level2() {
    let graph = YcgGraphAdHoc {
        metadata: ProjectMetadata {
            name: "test".to_string(),
            version: "1.0".to_string(),
        },
        definitions: vec![
            "A_0001|ClassA|class".to_string(),
            "B_0002|methodB(x:num):str|method|logic:check(x>0);return(x.toString())"
                .to_string(),
        ],
        adjacency: AdjacencyGraph::new(),
    };

    let result =
        AdHocValidator::validate_with_granularity(&graph, AdHocGranularity::InlineLogic);
    assert!(result.is_ok());
}

#[test]
fn test_split_unescaped_pipes() {
    let parts = split_unescaped_pipes("a|b|c");
    assert_eq!(parts, vec!["a", "b", "c"]);

    let parts = split_unescaped_pipes(r"a\|b|c");
    assert_eq!(parts, vec![r"a\|b", "c"]);

    let parts = split_unescaped_pipes(r"a\|b\|c");
    assert_eq!(parts, vec![r"a\|b\|c"]);

    let parts = split_unescaped_pipes("id|name(x:str):bool|method|logic:check(x)");
    assert_eq!(
        parts,
        vec!["id", "name(x:str):bool", "method", "logic:check(x)"]
    );
}

#[test]
fn test_validate_logic_keywords_with_complex_conditions() {
    let graph = YcgGraphAdHoc {
        metadata: ProjectMetadata {
            name: "test".to_string(),
            version: "1.0".to_string(),
        },
        definitions: vec![
            "B_0002|methodB|method|logic:check(x>0 && y<10);action(save);return(result)"
                .to_string(),
        ],
        adjacency: AdjacencyGraph::new(),
    };

    let result = validate_adhoc_granularity(&graph, AdHocGranularity::InlineLogic);
    assert!(result.is_ok());
}

#[test]
fn test_validate_logic_keywords_empty_steps() {
    // Empty steps (e.g., from trailing semicolons) should be handled gracefully
    let graph = YcgGraphAdHoc {
        metadata: ProjectMetadata {
            name: "test".to_string(),
            version: "1.0".to_string(),
        },
        definitions: vec!["B_0002|methodB|method|logic:check(x>0);;return(result)".to_string()],
        adjacency: AdjacencyGraph::new(),
    };

    let result = validate_adhoc_granularity(&graph, AdHocGranularity::InlineLogic);
    assert!(result.is_ok());
}
