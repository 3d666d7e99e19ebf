use ipe_core::bytecode::{CompOp, CompiledPolicy, Instruction, Value};

#[test]
fn test_value_is_truthy_bool() {
    assert!(Value::Bool(true).is_truthy());
    assert!(!Value::Bool(false).is_truthy());
}

#[test]
fn test_value_is_truthy_int() {
    assert!(Value::Int(1).is_truthy());
    assert!(Value::Int(-1).is_truthy());
    assert!(Value::Int(100).is_truthy());
    assert!(!Value::Int(0).is_truthy());
}

#[test]
fn test_value_is_truthy_string() {
    assert!(Value::String("hello".to_string()).is_truthy());
    assert!(Value::String("x".to_string()).is_truthy());
    assert!(!Value::String("".to_string()).is_truthy());
}

#[test]
fn test_value_compare_int_eq() {
    let a = Value::Int(42);
    let b = Value::Int(42);
    let c = Value::Int(10);

    assert_eq!(a.compare(&b, CompOp::Eq).unwrap(), true);
    assert_eq!(a.compare(&c, CompOp::Eq).unwrap(), false);
}

#[test]
fn test_value_compare_int_neq() {
    let a = Value::Int(42);
    let b = Value::Int(10);
    let c = Value::Int(42);

    assert_eq!(a.compare(&b, CompOp::Neq).unwrap(), true);
    assert_eq!(a.compare(&c, CompOp::Neq).unwrap(), false);
}

#[test]
fn test_value_compare_int_lt() {
    let a = Value::Int(10);
    let b = Value::Int(42);
    let c = Value::Int(5);

    assert_eq!(a.compare(&b, CompOp::Lt).unwrap(), true);
    assert_eq!(a.compare(&c, CompOp::Lt).unwrap(), false);
    assert_eq!(a.compare(&a, CompOp::Lt).unwrap(), false);
}

#[test]
fn test_value_compare_int_lte() {
    let a = Value::Int(10);
    let b = Value::Int(42);
    let c = Value::Int(10);

    assert_eq!(a.compare(&b, CompOp::Lte).unwrap(), true);
    assert_eq!(a.compare(&c, CompOp::Lte).unwrap(), true);
    assert_eq!(b.compare(&a, CompOp::Lte).unwrap(), false);
}

#[test]
fn test_value_compare_int_gt() {
    let a = Value::Int(42);
    let b = Value::Int(10);
    let c = Value::Int(100);

    assert_eq!(a.compare(&b, CompOp::Gt).unwrap(), true);
    assert_eq!(a.compare(&c, CompOp::Gt).unwrap(), false);
    assert_eq!(a.compare(&a, CompOp::Gt).unwrap(), false);
}

#[test]
fn test_value_compare_int_gte() {
    let a = Value::Int(42);
    let b = Value::Int(10);
    let c = Value::Int(42);

    assert_eq!(a.compare(&b, CompOp::Gte).unwrap(), true);
    assert_eq!(a.compare(&c, CompOp::Gte).unwrap(), true);
    assert_eq!(b.compare(&a, CompOp::Gte).unwrap(), false);
}

#[test]
fn test_value_compare_string_eq() {
    let a = Value::String("hello".to_string());
    let b = Value::String("hello".to_string());
    let c = Value::String("world".to_string());

    assert_eq!(a.compare(&b, CompOp::Eq).unwrap(), true);
    assert_eq!(a.compare(&c, CompOp::Eq).unwrap(), false);
}

#[test]
fn test_value_compare_string_lt() {
    let a = Value::String("apple".to_string());
    let b = Value::String("banana".to_string());

    assert_eq!(a.compare(&b, CompOp::Lt).unwrap(), true);
    assert_eq!(b.compare(&a, CompOp::Lt).unwrap(), false);
}

#[test]
fn test_value_compare_bool_eq() {
    let a = Value::Bool(true);
    let b = Value::Bool(true);
    let c = Value::Bool(false);

    assert_eq!(a.compare(&b, CompOp::Eq).unwrap(), true);
    assert_eq!(a.compare(&c, CompOp::Eq).unwrap(), false);
}

#[test]
fn test_value_compare_bool_neq() {
    let a = Value::Bool(true);
    let b = Value::Bool(false);

    assert_eq!(a.compare(&b, CompOp::Neq).unwrap(), true);
    assert_eq!(a.compare(&a, CompOp::Neq).unwrap(), false);
}

#[test]
fn test_value_compare_bool_ordering_not_supported() {
    let a = Value::Bool(true);
    let b = Value::Bool(false);

    // Boolean ordering operations should return false
    assert_eq!(a.compare(&b, CompOp::Lt).unwrap(), false);
    assert_eq!(a.compare(&b, CompOp::Lte).unwrap(), false);
    assert_eq!(a.compare(&b, CompOp::Gt).unwrap(), false);
    assert_eq!(a.compare(&b, CompOp::Gte).unwrap(), false);
}

#[test]
fn test_value_compare_type_mismatch() {
    let a = Value::Int(42);
    let b = Value::String("42".to_string());

    assert!(a.compare(&b, CompOp::Eq).is_err());

    let c = Value::Bool(true);
    assert!(a.compare(&c, CompOp::Eq).is_err());
}

#[test]
fn bytecode_test_policy_creation() {
    let mut policy = CompiledPolicy::new(1);

    // Simple policy: load field, load const, compare, return
    policy.emit(Instruction::LoadField { offset: 0 });
    let const_idx = policy.add_constant(Value::Int(42));
    policy.emit(Instruction::LoadConst { idx: const_idx });
    policy.emit(Instruction::Compare { op: CompOp::Eq });
    policy.emit(Instruction::Return { value: true });

    assert_eq!(policy.code.len(), 4);
    assert_eq!(policy.constants.len(), 1);
}
