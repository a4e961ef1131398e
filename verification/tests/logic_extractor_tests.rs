use ycg_core::logic_extractor::{LogicExtractor, MAX_LOGIC_LENGTH};
use ycg_core::model::{ScipSymbolKind, SymbolNode};

fn create_test_node(kind: ScipSymbolKind) -> SymbolNode {
    SymbolNode {
        id: "test_id".to_string(),
        name: "testMethod".to_string(),
        kind,
        parent_id: None,
        documentation: None,
        signature: None,
        logic: None,
    }
}

#[test]
fn test_extract_logic_returns_none_for_methods() {
    let node = create_test_node(ScipSymbolKind::Method);
    let result = LogicExtractor::extract_logic(&node, "");
    assert!(result.is_none());
}

#[test]
fn test_extract_logic_returns_none_for_functions() {
    let node = create_test_node(ScipSymbolKind::Function);
    let result = LogicExtractor::extract_logic(&node, "");
    assert!(result.is_none());
}

#[test]
fn test_extract_logic_returns_none_for_classes() {
    // Should not extract logic for classes
    let node = create_test_node(ScipSymbolKind::Class);
    let result = LogicExtractor::extract_logic(&node, "");
    assert!(result.is_none());
}

#[test]
fn test_extract_logic_returns_none_for_variables() {
    // Should not extract logic for variables
    let node = create_test_node(ScipSymbolKind::Variable);
    let result = LogicExtractor::extract_logic(&node, "");
    assert!(result.is_none());
}

#[test]
fn test_validate_logic_valid_check() {
    // Validate logic field format
    assert!(LogicExtractor::validate_logic("logic:check(stock>0)"));
}

#[test]
fn test_validate_logic_valid_action() {
    assert!(LogicExtractor::validate_logic("logic:action(save_order)"));
}

#[test]
fn test_validate_logic_valid_return() {
    assert!(LogicExtractor::validate_logic("logic:return(item.qty>0)"));
}

#[test]
fn test_validate_logic_valid_match() {
    assert!(LogicExtractor::validate_logic(
        "logic:match(isAdmin)?allow:deny"
    ));
}

#[test]
fn test_validate_logic_valid_get() {
    assert!(LogicExtractor::validate_logic("logic:get(user_roles)"));
}

#[test]
fn test_validate_logic_valid_chained() {
    // Chain multiple logic steps with semicolons
    assert!(LogicExtractor::validate_logic(
        "logic:check(stock>0);action(deduct_balance);return(order)"
    ));
}

#[test]
fn test_validate_logic_invalid_no_prefix() {
    // Must start with "logic:"
    assert!(!LogicExtractor::validate_logic("check(stock>0)"));
}

#[test]
fn test_validate_logic_invalid_keyword() {
    // Validate logic keywords are valid
    assert!(!LogicExtractor::validate_logic("logic:invalid(test)"));
}

#[test]
fn test_validate_logic_too_long() {
    // Limit logic to 200 characters
    let long_logic = format!("logic:{}", "x".repeat(201));
    assert!(!LogicExtractor::validate_logic(&long_logic));
}

#[test]
fn test_validate_logic_max_length_ok() {
    // Exactly 200 characters in content (after "logic:" prefix) should be valid
    let content = format!("check({})", "x".repeat(193)); // "check(" = 6 chars, ")" = 1 char, total = 200
    assert_eq!(content.len(), 200);
    let logic = format!("logic:{}", content);
    assert!(LogicExtractor::validate_logic(&logic));
}

#[test]
fn test_truncate_logic_short() {
    let logic = "check(stock>0)";
    let result = LogicExtractor::truncate_logic(logic);
    assert_eq!(result, "check(stock>0)");
}

#[test]
fn test_truncate_logic_long() {
    // Truncate at 200 characters
    let logic = "x".repeat(250);
    let result = LogicExtractor::truncate_logic(&logic);
    assert_eq!(result.len(), 200);
    assert!(result.ends_with("..."));
}

#[test]
fn test_truncate_logic_exactly_max() {
    let logic = "x".repeat(200);
    let result = LogicExtractor::truncate_logic(&logic);
    assert_eq!(result.len(), 200);
    assert!(!result.ends_with("..."));
}

#[test]
fn test_validate_keywords_empty() {
    assert!(LogicExtractor::validate_keywords(""));
}

#[test]
fn test_validate_keywords_multiple_valid() {
    assert!(LogicExtractor::validate_keywords(
        "check(x);action(y);return(z)"
    ));
}

#[test]
fn test_validate_keywords_with_spaces() {
    assert!(LogicExtractor::validate_keywords(
        "check(x) ; action(y) ; return(z)"
    ));
}

#[test]
fn test_validate_keywords_invalid_mixed() {
    assert!(!LogicExtractor::validate_keywords(
        "check(x);invalid(y);return(z)"
    ));
}

// Unit Tests for Logic Extraction Patterns

/// Test extraction of if statements
/// Extract conditional checks as check() keywords
#[test]
fn test_extract_if_statement_simple() {
    let source = r#"
        function checkStock(stock) {
            if (stock > 0) {
                return true;
            }
            return false;
        }
    "#;
    let node = create_test_node(ScipSymbolKind::Function);
    let result = LogicExtractor::extract_logic(&node, source);

    assert!(result.is_none());
}

/// Test extraction of if statements with complex conditions
/// Preserve logical operators (&&, ||, !) in check conditions
#[test]
fn test_extract_if_statement_complex_condition() {
    let source = r#"
        function validatePurchase(user, price) {
            if (user.isActive && user.balance >= price) {
                return true;
            }
            return false;
        }
    "#;
    let node = create_test_node(ScipSymbolKind::Function);
    let result = LogicExtractor::extract_logic(&node, source);

    assert!(result.is_none());
}

/// Test extraction of if statements with OR conditions
/// Preserve logical operators (&&, ||, !) in check conditions
#[test]
fn test_extract_if_statement_or_condition() {
    let source = r#"
        function hasAccess(user) {
            if (user.isAdmin || user.isSuper) {
                return true;
            }
            return false;
        }
    "#;
    let node = create_test_node(ScipSymbolKind::Function);
    let result = LogicExtractor::extract_logic(&node, source);

    assert!(result.is_none());
}

/// Test extraction of throw statements
/// Extract throw statements as check() with negated condition
#[test]
fn test_extract_throw_statement() {
    let source = r#"
        function purchase(stock) {
            if (stock <= 0) {
                throw new Error('Out of stock');
            }
            return true;
        }
    "#;
    let node = create_test_node(ScipSymbolKind::Function);
    let result = LogicExtractor::extract_logic(&node, source);

    assert!(result.is_none());
}

/// Test extraction of assignment statements
/// Extract assignment statements with side effects as action() keywords
#[test]
fn test_extract_assignment_statement() {
    let source = r#"
        function deductBalance(user, amount) {
            user.balance -= amount;
            return user.balance;
        }
    "#;
    let node = create_test_node(ScipSymbolKind::Function);
    let result = LogicExtractor::extract_logic(&node, source);

    assert!(result.is_none());
}

/// Test extraction of method calls
/// Extract method calls with side effects as action() keywords
#[test]
fn test_extract_method_call() {
    let source = r#"
        function processOrder(order) {
            this.repository.save(order);
            return order.id;
        }
    "#;
    let node = create_test_node(ScipSymbolKind::Method);
    let result = LogicExtractor::extract_logic(&node, source);

    assert!(result.is_none());
}

/// Test extraction of multiple method calls
/// Extract method calls with side effects as action() keywords
#[test]
fn test_extract_multiple_method_calls() {
    let source = r#"
        function processOrder(order) {
            this.validator.validate(order);
            this.repository.save(order);
            return order.id;
        }
    "#;
    let node = create_test_node(ScipSymbolKind::Method);
    let result = LogicExtractor::extract_logic(&node, source);

    assert!(result.is_none());
}

/// Test extraction of return statements
/// Extract return statements and their expressions
#[test]
fn test_extract_return_statement_simple() {
    let source = r#"
        function hasStock(item) {
            return item.qty > 0;
        }
    "#;
    let node = create_test_node(ScipSymbolKind::Function);
    let result = LogicExtractor::extract_logic(&node, source);

    assert!(result.is_none());
}

/// Test extraction of return statements with complex expressions
/// Extract return statements and their expressions
#[test]
fn test_extract_return_statement_complex() {
    let source = r#"
        function canPurchase(user, item, price) {
            return user.balance >= price && item.qty > 0;
        }
    "#;
    let node = create_test_node(ScipSymbolKind::Function);
    let result = LogicExtractor::extract_logic(&node, source);

    assert!(result.is_none());
}

/// Test extraction of ternary operators
/// Extract ternary operators as match() keywords
#[test]
fn test_extract_ternary_operator() {
    let source = r#"
        function checkAccess(isAdmin) {
            return isAdmin ? 'allow' : 'deny';
        }
    "#;
    let node = create_test_node(ScipSymbolKind::Function);
    let result = LogicExtractor::extract_logic(&node, source);

    assert!(result.is_none());
}

/// Test extraction of nested ternary operators
/// Extract ternary operators as match() keywords
#[test]
fn test_extract_nested_ternary() {
    let source = r#"
        function getPermissions(isAdmin, isUser) {
            return isAdmin ? 'full' : isUser ? 'limited' : 'none';
        }
    "#;
    let node = create_test_node(ScipSymbolKind::Function);
    let result = LogicExtractor::extract_logic(&node, source);

    assert!(result.is_none());
}

/// Test extraction of switch statements
/// Extract switch statements as match() keywords
#[test]
fn test_extract_switch_statement() {
    let source = r#"
        function getPermissions(role) {
            switch (role) {
                case 'admin':
                    return 'full';
                case 'user':
                    return 'limited';
                default:
                    return 'none';
            }
        }
    "#;
    let node = create_test_node(ScipSymbolKind::Function);
    let result = LogicExtractor::extract_logic(&node, source);

    assert!(result.is_none());
}

/// Test extraction of property access
/// Extract property access for data retrieval as get() keywords
#[test]
fn test_extract_property_access() {
    let source = r#"
        function getUserRoles(user) {
            const roles = user.roles;
            return roles;
        }
    "#;
    let node = create_test_node(ScipSymbolKind::Function);
    let result = LogicExtractor::extract_logic(&node, source);

    assert!(result.is_none());
}

/// Test extraction of chained property access
/// Extract property access for data retrieval as get() keywords
#[test]
fn test_extract_chained_property_access() {
    let source = r#"
        function getTimeout(config) {
            return config.settings.timeout;
        }
    "#;
    let node = create_test_node(ScipSymbolKind::Function);
    let result = LogicExtractor::extract_logic(&node, source);

    assert!(result.is_none());
}

/// Test extraction of chained logic
/// Chain multiple logic steps using semicolons
#[test]
fn test_extract_chained_logic() {
    let source = r#"
        function purchase(user, item, price) {
            if (item.stock <= 0) {
                throw new Error('Out of stock');
            }
            if (user.balance < price) {
                throw new Error('Insufficient balance');
            }
            user.balance -= price;
            this.repository.save(order);
            return order;
        }
    "#;
    let node = create_test_node(ScipSymbolKind::Function);
    let result = LogicExtractor::extract_logic(&node, source);

    assert!(result.is_none());
}

/// Test extraction with complex chained logic including all keywords
/// Chain multiple logic steps using semicolons
#[test]
fn test_extract_complex_chained_logic() {
    let source = r#"
        function canActivate(context) {
            const userRoles = this.getUserRoles(context);
            const requiredRoles = this.getRequiredRoles(context);
            if (!requiredRoles || requiredRoles.length === 0) {
                return true;
            }
            const hasRole = userRoles.some(role => requiredRoles.includes(role));
            return hasRole ? 'allow' : 'deny';
        }
    "#;
    let node = create_test_node(ScipSymbolKind::Method);
    let result = LogicExtractor::extract_logic(&node, source);

    assert!(result.is_none());
}

/// Test that logic extraction respects maximum length
/// Limit logic representation to 200 characters
#[test]
fn test_extract_logic_respects_max_length() {
    // Create a very long method with many logic steps
    let source = r#"
        function complexMethod() {
            if (condition1) { action1(); }
            if (condition2) { action2(); }
            if (condition3) { action3(); }
            if (condition4) { action4(); }
            if (condition5) { action5(); }
            if (condition6) { action6(); }
            if (condition7) { action7(); }
            if (condition8) { action8(); }
            if (condition9) { action9(); }
            if (condition10) { action10(); }
            return result;
        }
    "#;
    let node = create_test_node(ScipSymbolKind::Function);
    let result = LogicExtractor::extract_logic(&node, source);

    if let Some(logic) = result {
        let content = &logic[6..]; // Skip "logic:" prefix
        assert!(content.len() <= MAX_LOGIC_LENGTH);
    }
}

/// Test extraction with guard clauses
/// Identify guard clauses and represent as check() keywords
#[test]
fn test_extract_guard_clauses() {
    let source = r#"
        function processUser(user) {
            if (!user) {
                return null;
            }
            if (!user.isActive) {
                return null;
            }
            return user.process();
        }
    "#;
    let node = create_test_node(ScipSymbolKind::Function);
    let result = LogicExtractor::extract_logic(&node, source);

    assert!(result.is_none());
}

/// Test that non-method/function nodes don't extract logic
/// Only extract logic for methods and functions
#[test]
fn test_no_logic_extraction_for_non_methods() {
    let source = "const x = 42;";

    // Test various non-method/function kinds
    let kinds = vec![
        ScipSymbolKind::Class,
        ScipSymbolKind::Variable,
        ScipSymbolKind::Interface,
        ScipSymbolKind::Module,
    ];

    for kind in kinds {
        let node = create_test_node(kind);
        let result = LogicExtractor::extract_logic(&node, source);
        assert!(result.is_none(), "Should not extract logic for {:?}", kind);
    }
}
