use ycg_core::type_abbreviator::TypeAbbreviator;

#[test]
fn test_abbreviate_simple_types() {
    // string → str
    assert_eq!(TypeAbbreviator::abbreviate("string"), "str");

    // number → num
    assert_eq!(TypeAbbreviator::abbreviate("number"), "num");

    // boolean → bool
    assert_eq!(TypeAbbreviator::abbreviate("boolean"), "bool");

    // any → any
    assert_eq!(TypeAbbreviator::abbreviate("any"), "any");

    // void → void
    assert_eq!(TypeAbbreviator::abbreviate("void"), "void");
}

#[test]
fn test_preserve_custom_types() {
    // Preserve custom type names
    assert_eq!(TypeAbbreviator::abbreviate("User"), "User");
    assert_eq!(TypeAbbreviator::abbreviate("InternalUser"), "InternalUser");
    assert_eq!(TypeAbbreviator::abbreviate("MyCustomType"), "MyCustomType");
}

#[test]
fn test_array_types() {
    // Preserve array types
    assert_eq!(TypeAbbreviator::abbreviate("string[]"), "str[]");
    assert_eq!(TypeAbbreviator::abbreviate("number[]"), "num[]");
    assert_eq!(TypeAbbreviator::abbreviate("User[]"), "User[]");
}

#[test]
fn test_optional_types() {
    // Custom extension: optional types
    assert_eq!(TypeAbbreviator::abbreviate("string?"), "str?");
    assert_eq!(TypeAbbreviator::abbreviate("User?"), "User?");
    assert_eq!(TypeAbbreviator::abbreviate("number?"), "num?");
}

#[test]
fn test_generic_types() {
    // Preserve generic type parameters
    assert_eq!(
        TypeAbbreviator::abbreviate("Promise<string>"),
        "Promise<str>"
    );
    assert_eq!(
        TypeAbbreviator::abbreviate("Promise<number>"),
        "Promise<num>"
    );
    assert_eq!(
        TypeAbbreviator::abbreviate("Promise<User>"),
        "Promise<User>"
    );
    assert_eq!(TypeAbbreviator::abbreviate("Array<string>"), "Array<str>");
}

#[test]
fn test_nested_generics() {
    // Apply abbreviations recursively to nested types
    assert_eq!(
        TypeAbbreviator::abbreviate("Promise<Result<string>>"),
        "Promise<Result<str>>"
    );
    assert_eq!(
        TypeAbbreviator::abbreviate("Promise<Array<number>>"),
        "Promise<Array<num>>"
    );
    assert_eq!(
        TypeAbbreviator::abbreviate("Result<Promise<User>>"),
        "Result<Promise<User>>"
    );
}

#[test]
fn test_multiple_generic_params() {
    // Multiple type parameters
    assert_eq!(
        TypeAbbreviator::abbreviate("Map<string,number>"),
        "Map<str,num>"
    );
    assert_eq!(
        TypeAbbreviator::abbreviate("Map<string, number>"),
        "Map<str,num>"
    );
    assert_eq!(
        TypeAbbreviator::abbreviate("Either<string,User>"),
        "Either<str,User>"
    );
}

#[test]
fn test_complex_nested_generics() {
    // Complex nested generics with multiple parameters
    assert_eq!(
        TypeAbbreviator::abbreviate("Promise<Map<string,number>>"),
        "Promise<Map<str,num>>"
    );
    assert_eq!(
        TypeAbbreviator::abbreviate("Result<Either<string,number>>"),
        "Result<Either<str,num>>"
    );
}

#[test]
fn test_array_of_generics() {
    // Array of generic types
    assert_eq!(
        TypeAbbreviator::abbreviate("Promise<string>[]"),
        "Promise<str>[]"
    );
    assert_eq!(
        TypeAbbreviator::abbreviate("Array<User>[]"),
        "Array<User>[]"
    );
}

#[test]
fn test_optional_generics() {
    // Optional generic types
    assert_eq!(
        TypeAbbreviator::abbreviate("Promise<string>?"),
        "Promise<str>?"
    );
    assert_eq!(TypeAbbreviator::abbreviate("User?"), "User?");
}

#[test]
fn test_whitespace_handling() {
    // Should handle whitespace
    assert_eq!(TypeAbbreviator::abbreviate(" string "), "str");
    assert_eq!(TypeAbbreviator::abbreviate("  number  "), "num");
    assert_eq!(
        TypeAbbreviator::abbreviate("Promise< string >"),
        "Promise<str>"
    );
}

#[test]
fn test_case_sensitivity() {
    // Should be case-sensitive (only lowercase matches)
    assert_eq!(TypeAbbreviator::abbreviate("String"), "String"); // Not abbreviated
    assert_eq!(TypeAbbreviator::abbreviate("NUMBER"), "NUMBER"); // Not abbreviated
    assert_eq!(TypeAbbreviator::abbreviate("string"), "str"); // Abbreviated
}

#[test]
fn test_round_trip_preservation() {
    // Verify that abbreviation is consistent
    let types = vec![
        "string",
        "number[]",
        "Promise<User>",
        "Map<string,number>",
        "User?",
    ];

    for type_str in types {
        let abbreviated = TypeAbbreviator::abbreviate(type_str);
        // Abbreviating again should give same result
        let re_abbreviated = TypeAbbreviator::abbreviate(&abbreviated);
        assert_eq!(abbreviated, re_abbreviated);
    }
}
