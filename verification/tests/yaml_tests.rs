use ycg_core::errors::ValidationError;
use ycg_core::validators::YamlValidator;
use ycg_core::yaml::{conforms, parse_document, YamlNode};

const FLAT: &str = "_meta:\n  name: test\n  version: '1.0'\n_defs:\n- id: A_0001\n  n: ClassA\n  t: class\n";

#[test]
fn test_yaml_validator_valid_graph() {
    let result = YamlValidator::validate(FLAT);
    if let Err(e) = &result {
        println!("Validation error: {}", e.to_string());
        println!("YAML content:\n{}", FLAT);
    }
    assert!(result.is_ok());
}

#[test]
fn test_yaml_validator_invalid_yaml() {
    let invalid_yaml = "this is not: valid: yaml: structure";
    assert!(YamlValidator::validate(invalid_yaml).is_err());
}

#[test]
fn the_error_says_that_the_text_does_not_conform() {
    match YamlValidator::validate("just a string") {
        Err(e) => {
            assert!(matches!(&e, ValidationError::InvalidYaml { reason }
                if reason == "does not conform to YcgGraph or YcgGraphOptimized structure"));
            assert_eq!(
                e.to_string(),
                "Invalid YAML output: does not conform to YcgGraph or YcgGraphOptimized structure. The output does not conform to YAML 1.2 specification."
            );
        }
        Ok(_) => panic!("a string is no graph"),
    }
}

#[test]
fn written_graphs_are_accepted() {
    let ok = |text: &str| assert!(YamlValidator::validate(text).is_ok(), "{}", text);
    ok("_meta: {name: a, version: 1}\n_defs: []\n");
    ok("_meta: {name: a, version: 1.0, extra: [1]}\n_defs: []\ngraph: []\n");
    ok("_meta: {name: a, version: b}\n_defs:\n- {id: x, n: y, t: method, parent_id: p, doc: d, sig: s, logic: {pre: [a, b]}}\n- {id: 1, n: true, t: file, parent_id: ~, logic: ~}\ngraph:\n- {from: x, to: y, type: calls}\n- {from: x, to: y, type: imports, more: 1}\n");
    ok("_meta: {name: a, version: b}\n_defs: []\ngraph: {}\n");
    ok("_meta: {name: a, version: b}\n_defs: []\ngraph:\n  x:\n    calls: [a, b]\n    references: []\n  y: {}\n  3: {imports: [q]}\n");
    ok("other: 1\n_defs: []\n_meta: {version: b, name: a}\n");
}

#[test]
fn other_documents_are_rejected() {
    let bad = |text: &str| assert!(YamlValidator::validate(text).is_err(), "{}", text);
    bad("");
    bad("[]");
    bad("_defs: []\n");
    bad("_meta: {name: a, version: b}\n");
    bad("_meta: {name: a}\n_defs: []\n");
    bad("_meta: {name: [a], version: b}\n_defs: []\n");
    bad("_meta: [name, version]\n_defs: []\n");
    bad("_meta: {name: a, version: b}\n_defs: {}\n");
    bad("_meta: {name: a, version: b}\n_defs: [x]\n");
    bad("_meta: {name: a, version: b}\n_defs: [{id: x, n: y}]\n");
    bad("_meta: {name: a, version: b}\n_defs: [{id: x, n: y, t: Class}]\n");
    bad("_meta: {name: a, version: b}\n_defs: [{id: x, n: y, t: 1}]\n");
    bad("_meta: {name: a, version: b}\n_defs: [{id: x, n: y, t: class, sig: [s]}]\n");
    bad("_meta: {name: a, version: b}\n_defs: [{id: x, n: y, t: class, logic: yes}]\n");
    bad("_meta: {name: a, version: b}\n_defs: [{id: x, n: y, t: class, logic: {}}]\n");
    bad("_meta: {name: a, version: b}\n_defs: [{id: x, n: y, t: class, logic: {pre: [[a]]}}]\n");
    bad("_meta: {name: a, version: b}\n_defs: []\ngraph: 1\n");
    bad("_meta: {name: a, version: b}\n_defs: []\ngraph: [{from: x, to: y}]\n");
    bad("_meta: {name: a, version: b}\n_defs: []\ngraph: [{from: x, to: y, type: uses}]\n");
    bad("_meta: {name: a, version: b}\n_defs: []\ngraph: {x: [a]}\n");
    bad("_meta: {name: a, version: b}\n_defs: []\ngraph: {x: {uses: [a]}}\n");
    bad("_meta: {name: a, version: b}\n_defs: []\ngraph: {x: {calls: a}}\n");
    bad("_meta: {name: a, version: b}\n_defs: []\ngraph: {x: {calls: [[a]]}}\n");
    bad("_meta: {name: a, version: b}\n_defs: []\ngraph: {[x]: {calls: [a]}}\n");
}

#[test]
fn documents_as_plain_values() {
    assert!(parse_document(": :").is_none());
    assert!(matches!(parse_document("~"), Some(YamlNode::Null)));
    assert!(matches!(parse_document("12"), Some(YamlNode::Plain)));
    assert!(matches!(parse_document("false"), Some(YamlNode::Plain)));
    assert!(matches!(parse_document("'12'"), Some(YamlNode::Text(t)) if t == "12"));
    assert!(matches!(parse_document("!tag x"), Some(YamlNode::Other)));
    match parse_document("a: [1, {b: c}]") {
        Some(YamlNode::Mapping(entries)) => {
            assert_eq!(entries.len(), 1);
            assert!(entries[0].0.is_name("a"));
            assert!(!entries[0].0.is_name("b"));
            assert!(entries[0].0.is_scalar());
            match &entries[0].1 {
                YamlNode::Sequence(items) => {
                    assert!(matches!(items[0], YamlNode::Plain));
                    assert!(matches!(&items[1], YamlNode::Mapping(m) if m.len() == 1));
                    assert!(!items[1].is_scalar());
                }
                other => panic!("expected a sequence, got {:?}", other),
            }
        }
        other => panic!("expected a mapping, got {:?}", other),
    }
    match parse_document("[[[[[[[x]]]]]]]") {
        Some(YamlNode::Sequence(a)) => match &a[0] {
            YamlNode::Sequence(b) => match &b[0] {
                YamlNode::Sequence(c) => match &c[0] {
                    YamlNode::Sequence(d) => match &d[0] {
                        YamlNode::Sequence(e) => match &e[0] {
                            YamlNode::Sequence(f) => assert!(matches!(f[0], YamlNode::Other)),
                            other => panic!("unexpected {:?}", other),
                        },
                        other => panic!("unexpected {:?}", other),
                    },
                    other => panic!("unexpected {:?}", other),
                },
                other => panic!("unexpected {:?}", other),
            },
            other => panic!("unexpected {:?}", other),
        },
        other => panic!("unexpected {:?}", other),
    }
}

#[test]
fn the_first_entry_of_a_key_counts() {
    let text = |s: &str| YamlNode::Text(s.to_string());
    let meta = YamlNode::Mapping(vec![(text("name"), text("a")), (text("version"), text("b"))]);
    let doc = YamlNode::Mapping(vec![
        (text("_meta"), meta),
        (text("_defs"), YamlNode::Sequence(vec![])),
        (text("_defs"), YamlNode::Plain),
        (YamlNode::Plain, YamlNode::Plain),
    ]);
    assert!(conforms(&doc));
    assert!(YamlValidator::validate_document(&doc).is_ok());
    let doc = YamlNode::Mapping(vec![
        (text("_defs"), YamlNode::Plain),
        (text("_meta"), YamlNode::Mapping(vec![(text("name"), text("a")), (text("version"), text("b"))])),
        (text("_defs"), YamlNode::Sequence(vec![])),
    ]);
    assert!(!conforms(&doc));
    assert!(YamlValidator::validate_document(&doc).is_err());
    assert!(!conforms(&YamlNode::Null));
    assert!(!conforms(&YamlNode::Other));
}
