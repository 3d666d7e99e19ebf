use ipe_core::ast::nodes::{
    AggregateFunc, BinaryOp, ComparisonOp, Condition, Expression, FloatLiteral, LogicalOp, Metadata,
    Path, Policy, Requirements, SourceLocation, Value,
};
use ipe_core::ast::types::{Type, TypeChecker, TypeEnv};

#[test]
fn test_policy_creation() {
    let policy = Policy::new(
        "TestPolicy".to_string(),
        "Test intent".to_string(),
        vec![],
        Requirements::require(vec![]),
    );
    assert_eq!(policy.name, "TestPolicy");
    assert_eq!(policy.intent, "Test intent");
    assert!(policy.triggers.is_empty());
    assert!(policy.metadata.is_none());
}

#[test]
fn test_policy_with_metadata() {
    let metadata = Metadata::new().add_field("severity".to_string(), Value::String("high".to_string()));
    let policy = Policy::new("Test".to_string(), "Intent".to_string(), vec![], Requirements::require(vec![]))
        .with_metadata(metadata);
    assert!(policy.metadata.is_some());
    assert_eq!(policy.metadata.unwrap().get("severity"), Some(&Value::String("high".to_string())));
}

#[test]
fn test_requirements_variants() {
    let req1 = Requirements::require(vec![]);
    assert!(matches!(req1, Requirements::Requires { .. }));
    let req2 = Requirements::denies(Some("Not allowed".to_string()));
    assert!(matches!(req2, Requirements::Denies { .. }));
}

#[test]
fn test_condition_creation() {
    let expr = Expression::literal(Value::Bool(true));
    let cond = Condition::new(expr.clone());
    assert_eq!(cond.expr, expr);
}

#[test]
fn test_expression_literal() {
    let expr = Expression::literal(Value::Int(42));
    assert!(matches!(expr, Expression::Literal(Value::Int(42))));
}

#[test]
fn test_expression_path() {
    let expr = Expression::path(vec!["resource".to_string(), "type".to_string()]);
    match expr {
        Expression::Path(path) => {
            assert_eq!(path.segments.len(), 2);
            assert_eq!(path.segments[0], "resource");
            assert_eq!(path.segments[1], "type");
        },
        _ => panic!("Expected path expression"),
    }
}

#[test]
fn test_expression_binary() {
    let left = Expression::literal(Value::Int(1));
    let right = Expression::literal(Value::Int(2));
    let expr = Expression::binary(left.clone(), BinaryOp::Comparison(ComparisonOp::Lt), right.clone());
    match expr {
        Expression::Binary { left: l, op, right: r } => {
            assert_eq!(*l, left);
            assert_eq!(*r, right);
            assert_eq!(op, BinaryOp::Comparison(ComparisonOp::Lt));
        },
        _ => panic!("Expected binary expression"),
    }
}

#[test]
fn test_expression_logical_and() {
    let and_expr = Expression::and(vec![Expression::literal(Value::Bool(true)), Expression::literal(Value::Bool(false))]);
    match and_expr {
        Expression::Logical { op, operands } => {
            assert_eq!(op, LogicalOp::And);
            assert_eq!(operands.len(), 2);
        },
        _ => panic!("Expected logical expression"),
    }
}

#[test]
fn test_expression_logical_or() {
    let or_expr = Expression::or(vec![Expression::literal(Value::Bool(true)), Expression::literal(Value::Bool(false))]);
    match or_expr {
        Expression::Logical { op, .. } => assert_eq!(op, LogicalOp::Or),
        _ => panic!("Expected logical OR"),
    }
}

#[test]
fn test_expression_logical_not() {
    let not_expr = Expression::not(Expression::literal(Value::Bool(true)));
    match not_expr {
        Expression::Logical { op, operands } => {
            assert_eq!(op, LogicalOp::Not);
            assert_eq!(operands.len(), 1);
        },
        _ => panic!("Expected logical NOT"),
    }
}

#[test]
fn test_expression_in() {
    let expr = Expression::path(vec!["env".to_string()]);
    let values = vec![Value::String("prod".to_string()), Value::String("staging".to_string())];
    let in_expr = Expression::in_list(expr.clone(), values.clone());
    match in_expr {
        Expression::In { expr: e, list } => {
            assert_eq!(*e, expr);
            assert_eq!(list, values);
        },
        _ => panic!("Expected IN expression"),
    }
}

#[test]
fn test_path_creation() {
    let path = Path::new(vec!["resource".to_string(), "type".to_string()]);
    assert_eq!(path.segments.len(), 2);
    assert_eq!(path.root(), Some("resource"));
    assert!(!path.is_simple());
}

#[test]
fn test_path_simple() {
    let path = Path::simple("foo".to_string());
    assert_eq!(path.segments.len(), 1);
    assert!(path.is_simple());
}

#[test]
fn test_path_display() {
    let path = Path::new(vec!["resource".to_string(), "type".to_string()]);
    assert_eq!(path.to_string(), "resource.type");
}

#[test]
fn test_value_is_truthy() {
    assert!(Value::Bool(true).is_truthy());
    assert!(!Value::Bool(false).is_truthy());
    assert!(Value::Int(1).is_truthy());
    assert!(!Value::Int(0).is_truthy());
    assert!(Value::String("hello".to_string()).is_truthy());
    assert!(!Value::String("".to_string()).is_truthy());
    assert!(Value::Array(vec![Value::Int(1)]).is_truthy());
    assert!(!Value::Array(vec![]).is_truthy());
    assert!(Value::Float(FloatLiteral::new("0.5")).is_truthy());
    assert!(!Value::Float(FloatLiteral::new("0.000")).is_truthy());
}

#[test]
fn test_value_type_name() {
    assert_eq!(Value::String("test".to_string()).kind_name(), "String");
    assert_eq!(Value::Int(42).kind_name(), "Int");
    assert_eq!(Value::Float(FloatLiteral::new("3.15")).kind_name(), "Float");
    assert_eq!(Value::Bool(true).kind_name(), "Bool");
    assert_eq!(Value::Array(vec![]).kind_name(), "Array");
}

#[test]
fn test_comparison_op_display() {
    assert_eq!(ComparisonOp::Eq.to_string(), "==");
    assert_eq!(ComparisonOp::Neq.to_string(), "!=");
    assert_eq!(ComparisonOp::Lt.to_string(), "<");
    assert_eq!(ComparisonOp::Gt.to_string(), ">");
    assert_eq!(ComparisonOp::LtEq.to_string(), "<=");
    assert_eq!(ComparisonOp::GtEq.to_string(), ">=");
}

#[test]
fn test_logical_op_display() {
    assert_eq!(LogicalOp::And.to_string(), "and");
    assert_eq!(LogicalOp::Or.to_string(), "or");
    assert_eq!(LogicalOp::Not.to_string(), "not");
}

#[test]
fn test_aggregate_func_display() {
    assert_eq!(AggregateFunc::Count.to_string(), "count");
    assert_eq!(AggregateFunc::Any.to_string(), "any");
    assert_eq!(AggregateFunc::All.to_string(), "all");
    assert_eq!(AggregateFunc::Sum.to_string(), "sum");
    assert_eq!(AggregateFunc::Max.to_string(), "max");
    assert_eq!(AggregateFunc::Min.to_string(), "min");
}

#[test]
fn test_metadata_operations() {
    let metadata = Metadata::new()
        .add_field("severity".to_string(), Value::String("high".to_string()))
        .add_field("owner".to_string(), Value::String("security-team".to_string()));
    assert_eq!(metadata.get("severity"), Some(&Value::String("high".to_string())));
    assert_eq!(metadata.get("owner"), Some(&Value::String("security-team".to_string())));
    assert_eq!(metadata.get("nonexistent"), None);
}

#[test]
fn test_source_location() {
    let loc = SourceLocation::new(10, 5, 20);
    assert_eq!(loc.line, 10);
    assert_eq!(loc.column, 5);
    assert_eq!(loc.length, 20);
}

#[test]
fn test_complex_policy_construction() {
    let trigger1 = Condition::new(Expression::binary(
        Expression::path(vec!["resource".to_string(), "type".to_string()]),
        BinaryOp::Comparison(ComparisonOp::Eq),
        Expression::literal(Value::String("Deployment".to_string())),
    ));
    let trigger2 = Condition::new(Expression::in_list(
        Expression::path(vec!["environment".to_string()]),
        vec![Value::String("prod".to_string()), Value::String("staging".to_string())],
    ));
    let requirement = Condition::new(Expression::binary(
        Expression::path(vec!["approvals".to_string(), "count".to_string()]),
        BinaryOp::Comparison(ComparisonOp::GtEq),
        Expression::literal(Value::Int(2)),
    ));
    let policy = Policy::new(
        "RequireApproval".to_string(),
        "Production deployments need 2+ approvals".to_string(),
        vec![trigger1, trigger2],
        Requirements::require(vec![requirement]),
    );
    assert_eq!(policy.name, "RequireApproval");
    assert_eq!(policy.triggers.len(), 2);
    match &policy.requirements {
        Requirements::Requires { conditions, .. } => assert_eq!(conditions.len(), 1),
        _ => panic!("Expected requires"),
    }
}

#[test]
fn test_denies_with_reason() {
    let requirements = Requirements::denies(Some("Access denied".to_string()));
    match requirements {
        Requirements::Denies { reason } => assert_eq!(reason, Some("Access denied".to_string())),
        _ => panic!("Expected denies"),
    }
}

#[test]
fn test_requires_with_where() {
    let conditions = vec![Condition::new(Expression::literal(Value::Bool(true)))];
    let where_clause = vec![Condition::new(Expression::literal(Value::Bool(true)))];
    let requirements = Requirements::requires_where(conditions.clone(), where_clause.clone());
    match requirements {
        Requirements::Requires { conditions: c, where_clause: Some(w) } => {
            assert_eq!(c.len(), 1);
            assert_eq!(w.len(), 1);
        },
        _ => panic!("Expected requires with where"),
    }
}

#[test]
fn test_type_compatibility() {
    assert!(Type::String.is_compatible_with(&Type::String));
    assert!(Type::Int.is_compatible_with(&Type::Int));
    assert!(Type::Int.is_compatible_with(&Type::Float));
    assert!(Type::Float.is_compatible_with(&Type::Int));
    assert!(!Type::String.is_compatible_with(&Type::Int));
    assert!(Type::Any.is_compatible_with(&Type::String));
    assert!(Type::String.is_compatible_with(&Type::Any));
}

#[test]
fn test_type_from_value() {
    assert_eq!(Type::from_value(&Value::String("test".to_string())), Type::String);
    assert_eq!(Type::from_value(&Value::Int(42)), Type::Int);
    assert_eq!(Type::from_value(&Value::Float(FloatLiteral::new("3.14"))), Type::Float);
    assert_eq!(Type::from_value(&Value::Bool(true)), Type::Bool);
}

#[test]
fn test_array_type() {
    let arr = Value::Array(vec![Value::Int(1), Value::Int(2)]);
    let typ = Type::from_value(&arr);
    assert_eq!(typ, Type::Array(Box::new(Type::Int)));
}

#[test]
fn test_empty_array_type() {
    let arr = Value::Array(vec![]);
    assert_eq!(Type::from_value(&arr), Type::Array(Box::new(Type::Any)));
}

#[test]
fn test_type_env_creation() {
    let env = TypeEnv::new();
    assert!(env.lookup("foo").is_none());
}

#[test]
fn test_type_env_binding() {
    let mut env = TypeEnv::new();
    env.bind("x".to_string(), Type::Int);
    assert_eq!(env.lookup("x"), Some(&Type::Int));
}

#[test]
fn test_standard_env() {
    let env = TypeEnv::standard();
    assert!(env.lookup("resource").is_some());
    assert!(env.lookup("action").is_some());
    assert!(env.lookup("request").is_some());
}

#[test]
fn test_check_literal() {
    let mut checker = TypeChecker::new(TypeEnv::new());
    let typ = checker.check_expression(&Expression::literal(Value::Int(42)));
    assert_eq!(typ, Type::Int);
    assert!(!checker.has_errors());
}

#[test]
fn test_check_path() {
    let mut checker = TypeChecker::new(TypeEnv::standard());
    let typ = checker.check_expression(&Expression::path(vec!["resource".to_string(), "type".to_string()]));
    assert_eq!(typ, Type::Resource("Resource".to_string()));
    assert!(!checker.has_errors());
}

#[test]
fn test_check_binary_incompatible() {
    let mut checker = TypeChecker::new(TypeEnv::new());
    let expr = Expression::binary(
        Expression::literal(Value::String("hello".to_string())),
        BinaryOp::Comparison(ComparisonOp::Lt),
        Expression::literal(Value::Int(2)),
    );
    assert_eq!(checker.check_expression(&expr), Type::Bool);
    assert!(checker.has_errors());
    assert_eq!(checker.errors().len(), 1);
}

#[test]
fn test_check_logical_with_non_bool() {
    let mut checker = TypeChecker::new(TypeEnv::new());
    let expr = Expression::and(vec![Expression::literal(Value::Bool(true)), Expression::literal(Value::Int(42))]);
    assert_eq!(checker.check_expression(&expr), Type::Bool);
    assert!(checker.has_errors());
    assert_eq!(checker.errors().len(), 1);
}

#[test]
fn test_check_condition() {
    let mut checker = TypeChecker::new(TypeEnv::new());
    let cond = Condition::new(Expression::literal(Value::Bool(true)));
    assert_eq!(checker.check_condition(&cond), Type::Bool);
    assert!(!checker.has_errors());
}

#[test]
fn test_int_float_coercion() {
    let mut checker = TypeChecker::new(TypeEnv::new());
    let expr = Expression::binary(
        Expression::literal(Value::Int(1)),
        BinaryOp::Comparison(ComparisonOp::Lt),
        Expression::literal(Value::Float(FloatLiteral::new("2.0"))),
    );
    checker.check_expression(&expr);
    assert!(!checker.has_errors());
}

#[test]
fn test_resource_type_equality() {
    let t1 = Type::Resource("Deployment".to_string());
    let t2 = Type::Resource("Deployment".to_string());
    let t3 = Type::Resource("Service".to_string());
    assert!(t1.is_compatible_with(&t2));
    assert!(!t1.is_compatible_with(&t3));
}

#[test]
fn nodes_test_policy_creation() {
    let policy = Policy::new(
        "TestPolicy".to_string(),
        "Test intent".to_string(),
        vec![],
        Requirements::require(vec![]),
    );

    assert_eq!(policy.name, "TestPolicy");
    assert_eq!(policy.intent, "Test intent");
    assert!(policy.triggers.is_empty());
    assert!(policy.metadata.is_none());
}

#[test]
fn nodes_test_requires_with_where() {
    let conditions = vec![Condition::new(Expression::literal(Value::Bool(true)))];
    let where_clause = vec![Condition::new(Expression::literal(Value::Bool(true)))];

    let requirements = Requirements::requires_where(conditions.clone(), where_clause.clone());

    match requirements {
        Requirements::Requires { conditions: c, where_clause: Some(w) } => {
            assert_eq!(c.len(), 1);
            assert_eq!(w.len(), 1);
        },
        _ => panic!("Expected requires with where"),
    }
}
#[test]
fn test_check_binary_compatible() {
    let env = TypeEnv::new();
    let mut checker = TypeChecker::new(env);

    let expr = Expression::binary(
        Expression::literal(Value::Int(1)),
        BinaryOp::Comparison(ComparisonOp::Lt),
        Expression::literal(Value::Int(2)),
    );

    let typ = checker.check_expression(&expr);
    assert_eq!(typ, Type::Bool);
    assert!(!checker.has_errors());
}

#[test]
fn test_check_logical_and() {
    let env = TypeEnv::new();
    let mut checker = TypeChecker::new(env);

    let expr = Expression::and(vec![
        Expression::literal(Value::Bool(true)),
        Expression::literal(Value::Bool(false)),
    ]);

    let typ = checker.check_expression(&expr);
    assert_eq!(typ, Type::Bool);
    assert!(!checker.has_errors());
}

#[test]
fn test_check_in_expression() {
    let env = TypeEnv::new();
    let mut checker = TypeChecker::new(env);

    let expr = Expression::in_list(
        Expression::literal(Value::String("prod".to_string())),
        vec![
            Value::String("prod".to_string()),
            Value::String("staging".to_string()),
        ],
    );

    let typ = checker.check_expression(&expr);
    assert_eq!(typ, Type::Bool);
}
