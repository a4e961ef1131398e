use ycg_core::errors::{ConfigError, FileFilterError, ParseError, ValidationError, YcgError};

#[test]
fn test_config_error_display() {
    let err = ConfigError::MalformedJson {
        path: "ycg.config.json".to_string(),
        line: 5,
        column: 12,
        message: "expected comma".to_string(),
    };

    let display = err.to_string();
    assert!(display.contains("ycg.config.json"));
    assert!(display.contains("line 5"));
    assert!(display.contains("column 12"));
}

#[test]
fn test_invalid_output_format_error() {
    let err = ConfigError::invalid_output_format("xml".to_string());
    let display = err.to_string();
    assert!(display.contains("xml"));
    assert!(display.contains("yaml"));
    assert!(display.contains("adhoc"));
}

#[test]
fn test_conflicting_flags_error() {
    let err = ConfigError::conflicting_flags_with_suggestion(
        "--compact".to_string(),
        "--no-compact".to_string(),
        "Use only one of these flags".to_string(),
    );

    let display = err.to_string();
    assert!(display.contains("--compact"));
    assert!(display.contains("--no-compact"));
    assert!(display.contains("Use only one"));
}

#[test]
fn test_parse_error_display() {
    let err = ParseError::scip_not_found("index.scip".to_string());
    let display = err.to_string();
    assert!(display.contains("index.scip"));
    assert!(display.contains("not found"));
}

#[test]
fn test_validation_error_referential_integrity() {
    let invalid_edges = vec![
        ("A".to_string(), "B".to_string(), false, true),
        ("C".to_string(), "D".to_string(), true, false),
    ];

    let err = ValidationError::referential_integrity(invalid_edges);
    let display = err.to_string();
    assert!(display.contains("2 invalid edge"));
    assert!(display.contains("target ID not found"));
    assert!(display.contains("source ID not found"));
}

#[test]
fn test_file_filter_error_display() {
    let err =
        FileFilterError::no_files_matched(vec!["**/*.rs".to_string(), "**/*.ts".to_string()]);

    let display = err.to_string();
    assert!(display.contains("**/*.rs"));
    assert!(display.contains("**/*.ts"));
}

#[test]
fn test_ycg_error_from_config_error() {
    let config_err = ConfigError::invalid_output_format("json".to_string());
    let ycg_err: YcgError = config_err.into();

    let display = ycg_err.to_string();
    assert!(display.contains("Configuration error"));
    assert!(display.contains("json"));
}

#[test]
fn test_validation_error_invalid_adhoc() {
    let err = ValidationError::invalid_adhoc_format(3, "expected 3 fields, got 2".to_string());

    let display = err.to_string();
    assert!(display.contains("definition 3"));
    assert!(display.contains("expected 3 fields"));
    assert!(display.contains("id|name|type"));
}

#[test]
fn test_empty_graph_error() {
    let err = ValidationError::EmptyGraph;
    let display = err.to_string();
    assert!(display.contains("empty"));
    assert!(display.contains("filters"));
}

#[test]
fn test_all_files_excluded_error() {
    let err = FileFilterError::AllFilesExcluded {
        include_patterns: vec!["**/*.rs".to_string()],
        exclude_patterns: vec!["**/*".to_string()],
    };

    let display = err.to_string();
    assert!(display.contains("All files were excluded"));
    assert!(display.contains("**/*.rs"));
    assert!(display.contains("**/*"));
}
