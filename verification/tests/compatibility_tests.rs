use ycg_core::model::AdHocGranularity;
use ycg_core::LevelOfDetail;

/// Splits a baseline's name into the example directory and the level of
/// detail that it names.
fn parse_test_case_name(name: &str) -> (&str, LevelOfDetail) {
    let lod = if name.ends_with("_low") {
        LevelOfDetail::Low
    } else if name.ends_with("_medium") {
        LevelOfDetail::Medium
    } else {
        LevelOfDetail::High
    };

    let example_dir = if name.starts_with("simple_ts") {
        "simple-ts"
    } else if name.starts_with("nestjs") {
        "nestjs-api-ts"
    } else {
        "simple-ts"
    };

    (example_dir, lod)
}

#[test]
fn test_parse_test_case_name() {
    let (dir, lod) = parse_test_case_name("simple_ts_low");
    assert_eq!(dir, "simple-ts");
    assert!(matches!(lod, LevelOfDetail::Low));

    let (dir, lod) = parse_test_case_name("nestjs_medium");
    assert_eq!(dir, "nestjs-api-ts");
    assert!(matches!(lod, LevelOfDetail::Medium));

    let (dir, lod) = parse_test_case_name("simple_ts_high");
    assert_eq!(dir, "simple-ts");
    assert!(matches!(lod, LevelOfDetail::High));
}

#[test]
fn test_adhoc_granularity_default_constructor() {
    let granularity = AdHocGranularity::default();
    assert_eq!(
        granularity,
        AdHocGranularity::Default,
        "Default constructor should return Level 0"
    );
}
