use ipe_core::ast::nodes::{BinaryOp, ComparisonOp, Condition, Expression, FloatLiteral, Policy, Requirements, Value};
use ipe_core::bytecode::{CompOp, Instruction, Value as BytecodeValue};
use ipe_core::compiler::{CompileError, PolicyCompiler};
use ipe_core::interpreter::Interpreter;
use ipe_core::rar::{EvaluationContext, Resource, ResourceTypeId};
use std::collections::HashMap;

fn create_simple_policy(requirements: Requirements) -> Policy {
    Policy::new("TestPolicy".to_string(), "Test intent".to_string(), vec![], requirements)
}

#[test]
fn test_compile_literal_int() {
    let policy = create_simple_policy(Requirements::require(vec![Condition::new(Expression::literal(Value::Int(42)))]));
    let compiled = PolicyCompiler::new(1).compile(&policy).unwrap();
    assert_eq!(compiled.code.len(), 2);
    assert!(matches!(compiled.code[0], Instruction::LoadConst { idx: 0 }));
    assert!(matches!(compiled.code[1], Instruction::Return { value: true }));
    assert_eq!(compiled.constants.len(), 1);
    assert_eq!(compiled.constants[0], BytecodeValue::Int(42));
    assert_eq!(compiled.header.policy_id, 1);
    assert_eq!(compiled.header.code_size, 2);
    assert_eq!(compiled.header.const_size, 1);
}

#[test]
fn test_compile_literal_bool() {
    let policy = create_simple_policy(Requirements::require(vec![Condition::new(Expression::literal(Value::Bool(true)))]));
    let compiled = PolicyCompiler::new(1).compile(&policy).unwrap();
    assert_eq!(compiled.constants[0], BytecodeValue::Bool(true));
}

#[test]
fn test_compile_literal_string() {
    let policy = create_simple_policy(Requirements::require(vec![Condition::new(Expression::literal(Value::String("test".to_string())))]));
    let compiled = PolicyCompiler::new(1).compile(&policy).unwrap();
    assert_eq!(compiled.constants[0], BytecodeValue::String("test".to_string()));
}

#[test]
fn test_compile_path() {
    let policy = create_simple_policy(Requirements::require(vec![Condition::new(Expression::path(vec!["resource".to_string()]))]));
    let compiled = PolicyCompiler::new(1).compile(&policy).unwrap();
    assert_eq!(compiled.code.len(), 2);
    assert!(matches!(compiled.code[0], Instruction::LoadField { offset: 0 }));
}

#[test]
fn test_compile_binary_comparison() {
    let condition = Condition::new(Expression::binary(
        Expression::path(vec!["x".to_string()]),
        BinaryOp::Comparison(ComparisonOp::Eq),
        Expression::literal(Value::Int(42)),
    ));
    let compiled = PolicyCompiler::new(1).compile(&create_simple_policy(Requirements::require(vec![condition]))).unwrap();
    assert_eq!(compiled.code.len(), 4);
    assert!(matches!(compiled.code[0], Instruction::LoadField { offset: 0 }));
    assert!(matches!(compiled.code[1], Instruction::LoadConst { idx: 0 }));
    assert!(matches!(compiled.code[2], Instruction::Compare { op: CompOp::Eq }));
    assert!(matches!(compiled.code[3], Instruction::Return { value: true }));
}

#[test]
fn test_compile_all_comparison_ops() {
    let ops = vec![
        (ComparisonOp::Eq, CompOp::Eq),
        (ComparisonOp::Neq, CompOp::Neq),
        (ComparisonOp::Lt, CompOp::Lt),
        (ComparisonOp::LtEq, CompOp::Lte),
        (ComparisonOp::Gt, CompOp::Gt),
        (ComparisonOp::GtEq, CompOp::Gte),
    ];
    for (ast_op, bytecode_op) in ops {
        let condition = Condition::new(Expression::binary(
            Expression::literal(Value::Int(1)),
            BinaryOp::Comparison(ast_op),
            Expression::literal(Value::Int(2)),
        ));
        let compiled = PolicyCompiler::new(1).compile(&create_simple_policy(Requirements::require(vec![condition]))).unwrap();
        assert!(matches!(compiled.code[2], Instruction::Compare { op } if op == bytecode_op));
    }
}

#[test]
fn test_compile_logical_and() {
    let condition = Condition::new(Expression::and(vec![Expression::literal(Value::Bool(true)), Expression::literal(Value::Bool(false))]));
    let compiled = PolicyCompiler::new(1).compile(&create_simple_policy(Requirements::require(vec![condition]))).unwrap();
    assert_eq!(compiled.code.len(), 4);
    assert!(matches!(compiled.code[2], Instruction::And));
}

#[test]
fn test_compile_logical_or() {
    let condition = Condition::new(Expression::or(vec![Expression::literal(Value::Bool(true)), Expression::literal(Value::Bool(false))]));
    let compiled = PolicyCompiler::new(1).compile(&create_simple_policy(Requirements::require(vec![condition]))).unwrap();
    assert!(matches!(compiled.code[2], Instruction::Or));
}

#[test]
fn test_compile_logical_not() {
    let condition = Condition::new(Expression::not(Expression::literal(Value::Bool(true))));
    let compiled = PolicyCompiler::new(1).compile(&create_simple_policy(Requirements::require(vec![condition]))).unwrap();
    assert_eq!(compiled.code.len(), 3);
    assert!(matches!(compiled.code[1], Instruction::Not));
}

#[test]
fn test_compile_in_expression() {
    let condition = Condition::new(Expression::in_list(
        Expression::path(vec!["env".to_string()]),
        vec![Value::String("prod".to_string()), Value::String("staging".to_string())],
    ));
    let compiled = PolicyCompiler::new(1).compile(&create_simple_policy(Requirements::require(vec![condition]))).unwrap();
    assert_eq!(
        compiled.code,
        vec![
            Instruction::LoadField { offset: 0 },
            Instruction::LoadConst { idx: 0 },
            Instruction::Compare { op: CompOp::Eq },
            Instruction::LoadField { offset: 0 },
            Instruction::LoadConst { idx: 1 },
            Instruction::Compare { op: CompOp::Eq },
            Instruction::Or,
            Instruction::Return { value: true },
        ]
    );
    assert!(compiled.constants.contains(&BytecodeValue::String("prod".to_string())));
    assert!(compiled.constants.contains(&BytecodeValue::String("staging".to_string())));
}

#[test]
fn test_compile_empty_in_list() {
    let condition = Condition::new(Expression::in_list(Expression::path(vec!["env".to_string()]), vec![]));
    let compiled = PolicyCompiler::new(1).compile(&create_simple_policy(Requirements::require(vec![condition]))).unwrap();
    assert_eq!(compiled.constants, vec![BytecodeValue::Bool(false)]);
    assert_eq!(compiled.code.len(), 3);
}

#[test]
fn test_compile_multiple_conditions() {
    let conditions = vec![
        Condition::new(Expression::binary(Expression::path(vec!["x".to_string()]), BinaryOp::Comparison(ComparisonOp::Eq), Expression::literal(Value::Int(1)))),
        Condition::new(Expression::binary(Expression::path(vec!["y".to_string()]), BinaryOp::Comparison(ComparisonOp::Eq), Expression::literal(Value::Int(2)))),
    ];
    let compiled = PolicyCompiler::new(1).compile(&create_simple_policy(Requirements::require(conditions))).unwrap();
    let and_count = compiled.code.iter().filter(|i| matches!(i, Instruction::And)).count();
    assert_eq!(and_count, 1);
    assert!(matches!(compiled.code[3], Instruction::And));
}

#[test]
fn test_compile_denies() {
    let compiled = PolicyCompiler::new(1).compile(&create_simple_policy(Requirements::denies(Some("Not allowed".to_string())))).unwrap();
    assert_eq!(compiled.code.len(), 1);
    assert!(matches!(compiled.code[0], Instruction::Return { value: false }));
}

#[test]
fn test_compile_with_where_clause() {
    let requirements = Requirements::requires_where(
        vec![Condition::new(Expression::literal(Value::Bool(true)))],
        vec![Condition::new(Expression::literal(Value::Bool(true)))],
    );
    let compiled = PolicyCompiler::new(1).compile(&create_simple_policy(requirements)).unwrap();
    let and_count = compiled.code.iter().filter(|i| matches!(i, Instruction::And)).count();
    assert!(and_count > 0);
}

#[test]
fn test_compile_function_call() {
    let condition = Condition::new(Expression::Call { name: "count".to_string(), args: vec![] });
    let compiled = PolicyCompiler::new(1).compile(&create_simple_policy(Requirements::require(vec![condition]))).unwrap();
    assert!(compiled.code.iter().any(|i| matches!(i, Instruction::Call { func: 0, argc: 0 })));
}

#[test]
fn test_compile_function_call_with_args() {
    let condition = Condition::new(Expression::Call {
        name: "any".to_string(),
        args: vec![Expression::literal(Value::Int(1)), Expression::literal(Value::Int(2))],
    });
    let compiled = PolicyCompiler::new(1).compile(&create_simple_policy(Requirements::require(vec![condition]))).unwrap();
    assert!(compiled.code.iter().any(|i| matches!(i, Instruction::Call { func: 1, argc: 2 })));
}

#[test]
fn test_field_mapping() {
    let conditions = vec![
        Condition::new(Expression::path(vec!["resource".to_string(), "type".to_string()])),
        Condition::new(Expression::path(vec!["resource".to_string(), "type".to_string()])),
        Condition::new(Expression::path(vec!["request".to_string(), "principal".to_string(), "id".to_string()])),
    ];
    let compiled = PolicyCompiler::new(1).compile(&create_simple_policy(Requirements::require(conditions))).unwrap();
    let offsets: Vec<u16> = compiled.code.iter().filter_map(|i| match i {
        Instruction::LoadField { offset } => Some(*offset),
        _ => None,
    }).collect();
    assert_eq!(offsets, vec![0, 0, 1]);
}

#[test]
fn test_error_unsupported_float() {
    let condition = Condition::new(Expression::literal(Value::Float(FloatLiteral::new("3.14"))));
    let result = PolicyCompiler::new(1).compile(&create_simple_policy(Requirements::require(vec![condition])));
    assert!(matches!(result.unwrap_err(), CompileError::UnsupportedExpression(_)));
}

#[test]
fn test_error_unsupported_array() {
    let condition = Condition::new(Expression::literal(Value::Array(vec![Value::Int(1)])));
    let result = PolicyCompiler::new(1).compile(&create_simple_policy(Requirements::require(vec![condition])));
    assert!(matches!(result.unwrap_err(), CompileError::UnsupportedExpression(_)));
}

#[test]
fn test_error_unknown_function() {
    let condition = Condition::new(Expression::Call { name: "unknown_func".to_string(), args: vec![] });
    let result = PolicyCompiler::new(1).compile(&create_simple_policy(Requirements::require(vec![condition])));
    let err = result.unwrap_err();
    assert_eq!(err.to_string(), "Unsupported expression: Unknown function: unknown_func");
}

#[test]
fn test_compile_error_messages() {
    assert_eq!(CompileError::TooManyConstants.to_string(), "Too many constants (max 65536)");
    assert_eq!(
        CompileError::TypeMismatch { expected: "Int".to_string(), got: "Bool".to_string() }.to_string(),
        "Type mismatch: expected Int, got Bool"
    );
}

#[test]
fn test_field_mappings_of_compiler() {
    let compiler = PolicyCompiler::new(3);
    assert_eq!(compiler.field_mappings().len(), 0);
}

#[test]
fn test_compiled_policy_evaluates() {
    let condition = Condition::new(Expression::binary(
        Expression::path(vec!["resource".to_string(), "type".to_string()]),
        BinaryOp::Comparison(ComparisonOp::Eq),
        Expression::literal(Value::Int(7)),
    ));
    let compiled = PolicyCompiler::new(1).compile(&create_simple_policy(Requirements::require(vec![condition]))).unwrap();
    let mut fields = HashMap::new();
    fields.insert(0u16, vec!["resource".to_string(), "type".to_string()]);
    let mut interp = Interpreter::new(fields);
    let mut ctx = EvaluationContext::default();
    ctx.resource = Resource::new(ResourceTypeId(7));
    assert_eq!(interp.evaluate(&compiled, &ctx), Ok(true));
}

#[test]
fn test_compiled_denial_evaluates_to_false() {
    let compiled = PolicyCompiler::new(1).compile(&create_simple_policy(Requirements::denies(None))).unwrap();
    let mut interp = Interpreter::new(HashMap::new());
    assert_eq!(interp.evaluate(&compiled, &EvaluationContext::default()), Ok(false));
}

#[test]
fn test_compile_complex_expression() {
    // (x == 1 OR y == 2) AND z == 3
    let condition = Condition::new(Expression::and(vec![
        Expression::or(vec![
            Expression::binary(
                Expression::path(vec!["x".to_string()]),
                BinaryOp::Comparison(ComparisonOp::Eq),
                Expression::literal(Value::Int(1)),
            ),
            Expression::binary(
                Expression::path(vec!["y".to_string()]),
                BinaryOp::Comparison(ComparisonOp::Eq),
                Expression::literal(Value::Int(2)),
            ),
        ]),
        Expression::binary(
            Expression::path(vec!["z".to_string()]),
            BinaryOp::Comparison(ComparisonOp::Eq),
            Expression::literal(Value::Int(3)),
        ),
    ]));
    let policy = create_simple_policy(Requirements::require(vec![condition]));

    let compiler = PolicyCompiler::new(1);
    let compiled = compiler.compile(&policy).unwrap();

    // Should have both AND and OR instructions
    assert!(compiled.code.iter().any(|i| matches!(i, Instruction::And)));
    assert!(compiled.code.iter().any(|i| matches!(i, Instruction::Or)));
}

#[test]
fn test_compile_rfc_example() {
    // From RFC: resource.type == "Deployment" AND environment in ["production", "staging"]
    //           AND approvals.count >= 2
    let trigger = Expression::and(vec![
        Expression::binary(
            Expression::path(vec!["resource".to_string(), "type".to_string()]),
            BinaryOp::Comparison(ComparisonOp::Eq),
            Expression::literal(Value::String("Deployment".to_string())),
        ),
        Expression::in_list(
            Expression::path(vec!["environment".to_string()]),
            vec![Value::String("production".to_string()), Value::String("staging".to_string())],
        ),
    ]);

    let requirement = Condition::new(Expression::binary(
        Expression::path(vec!["approvals".to_string(), "count".to_string()]),
        BinaryOp::Comparison(ComparisonOp::GtEq),
        Expression::literal(Value::Int(2)),
    ));

    let policy = Policy::new(
        "RequireApproval".to_string(),
        "Production deployments need 2+ approvals".to_string(),
        vec![Condition::new(trigger)],
        Requirements::require(vec![requirement]),
    );

    let compiler = PolicyCompiler::new(1);
    let compiled = compiler.compile(&policy).unwrap();

    // Should successfully compile
    assert!(!compiled.code.is_empty());
    assert!(compiled.code.iter().any(|i| matches!(i, Instruction::Return { value: true })));
}
