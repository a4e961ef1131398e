use ycg_core::model::{ScipSymbolKind, SymbolNode};
use ycg_core::signature_extractor::SignatureExtractor;

fn create_test_node(name: &str, signature: Option<String>) -> SymbolNode {
    SymbolNode {
        id: "test_id".to_string(),
        name: name.to_string(),
        kind: ScipSymbolKind::Method,
        parent_id: None,
        documentation: None,
        signature,
        logic: None,
    }
}

#[test]
fn test_extract_signature_with_enricher_data() {
    // Use signature from enricher if available
    let node = create_test_node(
        "findOne",
        Some("async findOne(user: string): Promise<InternalUser>".to_string()),
    );

    let result = SignatureExtractor::extract_signature(&node);
    assert!(result.is_some());
    let sig = result.unwrap();

    // Should contain method name and abbreviated types
    assert!(sig.contains("findOne"));
    assert!(sig.contains("str")); // string abbreviated
}

#[test]
fn test_extract_signature_without_enricher_data() {
    // Fall back to simple name if no signature
    let node = create_test_node("findOne", None);

    let result = SignatureExtractor::extract_signature(&node);
    assert!(result.is_none()); // Should return None for fallback
}

#[test]
fn test_compact_signature_simple() {
    // Format as name(params):return
    let sig = "findOne(id: string): User";
    let result = SignatureExtractor::compact_signature(sig, "findOne");

    assert_eq!(result, "findOne(id:str):User");
}

#[test]
fn test_compact_signature_multiple_params() {
    // Handle multiple parameters
    let sig = "create(name: string, age: number, active: boolean): User";
    let result = SignatureExtractor::compact_signature(sig, "create");

    assert_eq!(result, "create(name:str,age:num,active:bool):User");
}

#[test]
fn test_compact_signature_optional_params() {
    // Handle optional parameters
    let sig = "findOne(id: string, options?: QueryOptions): User";
    let result = SignatureExtractor::compact_signature(sig, "findOne");

    assert!(result.contains("options:QueryOptions?"));
}

#[test]
fn test_compact_signature_with_generics() {
    // Abbreviate types in generics
    let sig = "findAll(query: string): Promise<User[]>";
    let result = SignatureExtractor::compact_signature(sig, "findAll");

    assert_eq!(result, "findAll(query:str):Promise<User[]>");
}

#[test]
fn test_compact_signature_optional_return() {
    // Handle optional return types
    let sig = "findOne(id: string): User | null";
    let result = SignatureExtractor::compact_signature(sig, "findOne");

    assert_eq!(result, "findOne(id:str):User?");
}

#[test]
fn test_compact_signature_void_return() {
    // Omit void return type
    let sig = "deleteUser(id: string): void";
    let result = SignatureExtractor::compact_signature(sig, "deleteUser");

    assert_eq!(result, "deleteUser(id:str)");
}

#[test]
fn test_compact_signature_no_return() {
    // Omit return type if not specified
    let sig = "constructor(service: UserService)";
    let result = SignatureExtractor::compact_signature(sig, "constructor");

    assert_eq!(result, "constructor(service:UserService)");
}

#[test]
fn test_compact_signature_removes_keywords() {
    // Should remove async, export, public, etc.
    let sig = "async public findOne(id: string): Promise<User>";
    let result = SignatureExtractor::compact_signature(sig, "findOne");

    assert!(!result.contains("async"));
    assert!(!result.contains("public"));
    assert_eq!(result, "findOne(id:str):Promise<User>");
}

#[test]
fn test_compact_signature_with_default_values() {
    // Should handle default values
    let sig = "create(name: string, limit: number = 10): User";
    let result = SignatureExtractor::compact_signature(sig, "create");

    assert_eq!(result, "create(name:str,limit:num):User");
}

#[test]
fn test_normalize_optional_type_with_null() {
    let result = SignatureExtractor::normalize_optional_type("User | null");
    assert_eq!(result, "User?");
}

#[test]
fn test_normalize_optional_type_with_undefined() {
    let result = SignatureExtractor::normalize_optional_type("string | undefined");
    assert_eq!(result, "string?");
}

#[test]
fn test_normalize_optional_type_with_both() {
    let result = SignatureExtractor::normalize_optional_type("User | null | undefined");
    assert_eq!(result, "User?");
}

#[test]
fn test_normalize_optional_type_union() {
    // Multiple types with null - for compactness, take first type only
    let result = SignatureExtractor::normalize_optional_type("User | Admin | null");
    assert_eq!(result, "User");
}

#[test]
fn test_parse_parameters_empty() {
    let params = SignatureExtractor::parse_parameters("");
    assert!(params.is_empty());
}

#[test]
fn test_parse_parameters_single() {
    let params = SignatureExtractor::parse_parameters("user: string");
    assert_eq!(params.len(), 1);
    assert_eq!(params[0], ("user".to_string(), "string".to_string()));
}

#[test]
fn test_parse_parameters_multiple() {
    let params = SignatureExtractor::parse_parameters("name: string, age: number");
    assert_eq!(params.len(), 2);
    assert_eq!(params[0], ("name".to_string(), "string".to_string()));
    assert_eq!(params[1], ("age".to_string(), "number".to_string()));
}

#[test]
fn test_parse_parameters_with_generics() {
    let params = SignatureExtractor::parse_parameters("data: Promise<User>, id: string");
    assert_eq!(params.len(), 2);
    assert_eq!(params[0], ("data".to_string(), "Promise<User>".to_string()));
    assert_eq!(params[1], ("id".to_string(), "string".to_string()));
}

#[test]
fn test_parse_parameters_optional() {
    let params = SignatureExtractor::parse_parameters("user?: string");
    assert_eq!(params.len(), 1);
    assert_eq!(params[0], ("user".to_string(), "string?".to_string()));
}

#[test]
fn test_parse_parameters_with_default() {
    let params = SignatureExtractor::parse_parameters("limit: number = 10");
    assert_eq!(params.len(), 1);
    assert_eq!(params[0], ("limit".to_string(), "number".to_string()));
}

#[test]
fn test_format_compact_signature_full() {
    let params = vec![
        ("user".to_string(), "string".to_string()),
        ("id".to_string(), "number".to_string()),
    ];
    let result =
        SignatureExtractor::format_compact_signature("findOne", &params, "Promise<User>");

    assert_eq!(result, "findOne(user:str,id:num):Promise<User>");
}

#[test]
fn test_format_compact_signature_no_params() {
    let params = vec![];
    let result = SignatureExtractor::format_compact_signature("getAll", &params, "User[]");

    assert_eq!(result, "getAll():User[]");
}

#[test]
fn test_format_compact_signature_void_return() {
    let params = vec![("id".to_string(), "string".to_string())];
    let result = SignatureExtractor::format_compact_signature("delete", &params, "void");

    assert_eq!(result, "delete(id:str)");
}

#[test]
fn test_constructor_with_dependency_injection() {
    // Constructors with dependency injection
    let sig = "constructor(userService: UserService, configService: ConfigService)";
    let result = SignatureExtractor::compact_signature(sig, "constructor");

    assert_eq!(
        result,
        "constructor(userService:UserService,configService:ConfigService)"
    );
}

#[test]
fn test_constructor_no_params() {
    // Test constructor with no parameters
    let sig = "constructor()";
    let result = SignatureExtractor::compact_signature(sig, "constructor");

    assert_eq!(result, "constructor()");
}

#[test]
fn test_method_with_array_params() {
    // Handle array types in parameters
    let sig = "processUsers(users: User[], options: string[]): boolean";
    let result = SignatureExtractor::compact_signature(sig, "processUsers");

    assert_eq!(result, "processUsers(users:User[],options:str[]):bool");
}

#[test]
fn test_method_with_nested_generics() {
    // Test nested generic types
    let sig = "transform(data: Promise<Result<User>>): Promise<Response<User>>";
    let result = SignatureExtractor::compact_signature(sig, "transform");

    assert_eq!(
        result,
        "transform(data:Promise<Result<User>>):Promise<Response<User>>"
    );
}

#[test]
fn test_method_with_complex_optional() {
    // Test complex optional parameters
    let sig = "findUser(id: string, options?: { limit: number, offset: number }): User | null";
    let result = SignatureExtractor::compact_signature(sig, "findUser");

    // Should handle complex optional type
    assert!(result.contains("findUser"));
    assert!(result.contains("id:str"));
    assert!(result.contains("User?"));
}

#[test]
fn test_fallback_on_malformed_signature() {
    // Fallback to simple name on parse failure
    let sig = "this is not a valid signature";
    let result = SignatureExtractor::compact_signature(sig, "methodName");

    assert_eq!(result, "methodName");
}

#[test]
fn test_method_with_rest_parameters() {
    // Test rest/spread parameters
    let sig = "combine(first: string, ...rest: string[]): string";
    let result = SignatureExtractor::compact_signature(sig, "combine");

    assert!(result.contains("combine"));
    assert!(result.contains("first:str"));
    assert!(result.contains("str"));
}

#[test]
fn test_method_with_union_types() {
    // Test union types in parameters
    let sig = "process(value: string | number): boolean";
    let result = SignatureExtractor::compact_signature(sig, "process");

    assert!(result.contains("process"));
    assert!(result.contains("bool"));
}

#[test]
fn test_simple_method_no_types() {
    // Test method with no type annotations (edge case)
    let sig = "simpleMethod()";
    let result = SignatureExtractor::compact_signature(sig, "simpleMethod");

    assert_eq!(result, "simpleMethod()");
}

#[test]
fn test_method_with_multiple_optional_params() {
    // Test multiple optional parameters
    let sig = "search(query: string, limit?: number, offset?: number): User[]";
    let result = SignatureExtractor::compact_signature(sig, "search");

    assert_eq!(result, "search(query:str,limit:num?,offset:num?):User[]");
}
