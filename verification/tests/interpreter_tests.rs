use ipe_core::bytecode::{CompOp, CompiledPolicy, Instruction, Value};
use ipe_core::interpreter::{FieldMapping, Interpreter, Stack};
use ipe_core::rar::{AttributeValue, EvaluationContext};

#[test]
fn test_stack_new() {
    let stack = Stack::new();
    assert_eq!(stack.len(), 0);
    assert!(stack.is_empty());
}

#[test]
fn test_stack_push_pop() {
    let mut stack = Stack::new();

    stack.push(Value::Int(42)).unwrap();
    assert_eq!(stack.len(), 1);
    assert!(!stack.is_empty());

    let val = stack.pop().unwrap();
    assert_eq!(val, Value::Int(42));
    assert_eq!(stack.len(), 0);
    assert!(stack.is_empty());
}

#[test]
fn test_stack_push_multiple() {
    let mut stack = Stack::new();

    stack.push(Value::Int(1)).unwrap();
    stack.push(Value::Int(2)).unwrap();
    stack.push(Value::Int(3)).unwrap();

    assert_eq!(stack.len(), 3);

    assert_eq!(stack.pop().unwrap(), Value::Int(3));
    assert_eq!(stack.pop().unwrap(), Value::Int(2));
    assert_eq!(stack.pop().unwrap(), Value::Int(1));
    assert!(stack.is_empty());
}

#[test]
fn test_stack_peek() {
    let mut stack = Stack::new();

    stack.push(Value::Int(42)).unwrap();
    assert_eq!(*stack.peek().unwrap(), Value::Int(42));
    assert_eq!(stack.len(), 1); // Peek doesn't remove

    stack.push(Value::Int(100)).unwrap();
    assert_eq!(*stack.peek().unwrap(), Value::Int(100));
    assert_eq!(stack.len(), 2);
}

#[test]
fn test_stack_underflow() {
    let mut stack = Stack::new();

    // Pop from empty stack should fail
    assert!(stack.pop().is_err());

    // Peek from empty stack should fail
    assert!(stack.peek().is_err());
}

#[test]
fn test_stack_overflow() {
    let mut stack = Stack::with_capacity(3);

    stack.push(Value::Int(1)).unwrap();
    stack.push(Value::Int(2)).unwrap();
    stack.push(Value::Int(3)).unwrap();

    // Fourth push should fail
    let result = stack.push(Value::Int(4));
    assert!(result.is_err());
    assert!(result.unwrap_err().contains("Stack overflow"));
}

#[test]
fn test_stack_clear() {
    let mut stack = Stack::new();

    stack.push(Value::Int(1)).unwrap();
    stack.push(Value::Int(2)).unwrap();
    stack.push(Value::Int(3)).unwrap();

    assert_eq!(stack.len(), 3);

    stack.clear();

    assert_eq!(stack.len(), 0);
    assert!(stack.is_empty());
}

#[test]
fn test_stack_mixed_types() {
    let mut stack = Stack::new();

    stack.push(Value::Int(42)).unwrap();
    stack.push(Value::Bool(true)).unwrap();
    stack.push(Value::String("hello".to_string())).unwrap();

    assert_eq!(stack.len(), 3);

    assert_eq!(stack.pop().unwrap(), Value::String("hello".to_string()));
    assert_eq!(stack.pop().unwrap(), Value::Bool(true));
    assert_eq!(stack.pop().unwrap(), Value::Int(42));
}

#[test]
fn test_stack_with_capacity() {
    let stack = Stack::with_capacity(100);
    assert_eq!(stack.max_size(), 100);
    assert!(stack.is_empty());
}

#[test]
fn test_interpreter_load_const() {
    let mut policy = CompiledPolicy::new(1);
    let idx = policy.add_constant(Value::Int(42));
    policy.emit(Instruction::LoadConst { idx });
    policy.emit(Instruction::Return { value: true });

    let mut interp = Interpreter::default();
    let ctx = EvaluationContext::default();

    let result = interp.evaluate(&policy, &ctx).unwrap();
    assert!(result);
    assert_eq!(interp.stack().len(), 1);
}

#[test]
fn test_interpreter_compare_eq() {
    let mut policy = CompiledPolicy::new(1);
    let idx1 = policy.add_constant(Value::Int(42));
    let idx2 = policy.add_constant(Value::Int(42));

    policy.emit(Instruction::LoadConst { idx: idx1 });
    policy.emit(Instruction::LoadConst { idx: idx2 });
    policy.emit(Instruction::Compare { op: CompOp::Eq });
    policy.emit(Instruction::Return { value: true });

    let mut interp = Interpreter::default();
    let ctx = EvaluationContext::default();

    let result = interp.evaluate(&policy, &ctx).unwrap();
    assert!(result);
    // Stack should have the comparison result
    assert_eq!(*interp.stack().peek().unwrap(), Value::Bool(true));
}

#[test]
fn test_interpreter_compare_lt() {
    let mut policy = CompiledPolicy::new(1);
    let idx1 = policy.add_constant(Value::Int(10));
    let idx2 = policy.add_constant(Value::Int(42));

    policy.emit(Instruction::LoadConst { idx: idx1 });
    policy.emit(Instruction::LoadConst { idx: idx2 });
    policy.emit(Instruction::Compare { op: CompOp::Lt });
    policy.emit(Instruction::Return { value: true });

    let mut interp = Interpreter::default();
    let ctx = EvaluationContext::default();

    interp.evaluate(&policy, &ctx).unwrap();
    assert_eq!(*interp.stack().peek().unwrap(), Value::Bool(true));
}

#[test]
fn test_interpreter_and() {
    let mut policy = CompiledPolicy::new(1);
    let idx1 = policy.add_constant(Value::Bool(true));
    let idx2 = policy.add_constant(Value::Bool(true));

    policy.emit(Instruction::LoadConst { idx: idx1 });
    policy.emit(Instruction::LoadConst { idx: idx2 });
    policy.emit(Instruction::And);
    policy.emit(Instruction::Return { value: true });

    let mut interp = Interpreter::default();
    let ctx = EvaluationContext::default();

    interp.evaluate(&policy, &ctx).unwrap();
    assert_eq!(*interp.stack().peek().unwrap(), Value::Bool(true));
}

#[test]
fn test_interpreter_and_false() {
    let mut policy = CompiledPolicy::new(1);
    let idx1 = policy.add_constant(Value::Bool(true));
    let idx2 = policy.add_constant(Value::Bool(false));

    policy.emit(Instruction::LoadConst { idx: idx1 });
    policy.emit(Instruction::LoadConst { idx: idx2 });
    policy.emit(Instruction::And);
    policy.emit(Instruction::Return { value: true });

    let mut interp = Interpreter::default();
    let ctx = EvaluationContext::default();

    interp.evaluate(&policy, &ctx).unwrap();
    assert_eq!(*interp.stack().peek().unwrap(), Value::Bool(false));
}

#[test]
fn test_interpreter_or() {
    let mut policy = CompiledPolicy::new(1);
    let idx1 = policy.add_constant(Value::Bool(false));
    let idx2 = policy.add_constant(Value::Bool(true));

    policy.emit(Instruction::LoadConst { idx: idx1 });
    policy.emit(Instruction::LoadConst { idx: idx2 });
    policy.emit(Instruction::Or);
    policy.emit(Instruction::Return { value: true });

    let mut interp = Interpreter::default();
    let ctx = EvaluationContext::default();

    interp.evaluate(&policy, &ctx).unwrap();
    assert_eq!(*interp.stack().peek().unwrap(), Value::Bool(true));
}

#[test]
fn test_interpreter_not() {
    let mut policy = CompiledPolicy::new(1);
    let idx = policy.add_constant(Value::Bool(false));

    policy.emit(Instruction::LoadConst { idx });
    policy.emit(Instruction::Not);
    policy.emit(Instruction::Return { value: true });

    let mut interp = Interpreter::default();
    let ctx = EvaluationContext::default();

    interp.evaluate(&policy, &ctx).unwrap();
    assert_eq!(*interp.stack().peek().unwrap(), Value::Bool(true));
}

#[test]
fn test_interpreter_load_field() {
    let mut policy = CompiledPolicy::new(1);
    policy.emit(Instruction::LoadField { offset: 0 });
    policy.emit(Instruction::Return { value: true });

    let mut field_map = FieldMapping::new();
    field_map.insert(0, vec!["resource".to_string(), "name".to_string()]);

    let mut interp = Interpreter::new(field_map);

    let mut ctx = EvaluationContext::default();
    ctx.resource.attributes.insert(
        "name".to_string(),
        AttributeValue::String("test-resource".to_string()),
    );

    interp.evaluate(&policy, &ctx).unwrap();
    assert_eq!(
        *interp.stack().peek().unwrap(),
        Value::String("test-resource".to_string())
    );
}

#[test]
fn test_interpreter_load_field_principal_id() {
    let mut policy = CompiledPolicy::new(1);
    policy.emit(Instruction::LoadField { offset: 0 });
    policy.emit(Instruction::Return { value: true });

    let mut field_map = FieldMapping::new();
    field_map.insert(0, vec!["request".to_string(), "principal".to_string(), "id".to_string()]);

    let mut interp = Interpreter::new(field_map);

    let mut ctx = EvaluationContext::default();
    ctx.request.principal.id = "user-123".to_string();

    interp.evaluate(&policy, &ctx).unwrap();
    assert_eq!(
        *interp.stack().peek().unwrap(),
        Value::String("user-123".to_string())
    );
}

#[test]
fn test_interpreter_complex_policy() {
    // Policy: resource.priority == 5 AND resource.enabled == true
    let mut policy = CompiledPolicy::new(1);

    // Load resource.priority
    policy.emit(Instruction::LoadField { offset: 0 });
    // Load constant 5
    let idx_five = policy.add_constant(Value::Int(5));
    policy.emit(Instruction::LoadConst { idx: idx_five });
    // Compare ==
    policy.emit(Instruction::Compare { op: CompOp::Eq });

    // Load resource.enabled
    policy.emit(Instruction::LoadField { offset: 1 });
    // Load constant true
    let idx_true = policy.add_constant(Value::Bool(true));
    policy.emit(Instruction::LoadConst { idx: idx_true });
    // Compare ==
    policy.emit(Instruction::Compare { op: CompOp::Eq });

    // AND the two comparisons
    policy.emit(Instruction::And);
    policy.emit(Instruction::Return { value: true });

    let mut field_map = FieldMapping::new();
    field_map.insert(0, vec!["resource".to_string(), "priority".to_string()]);
    field_map.insert(1, vec!["resource".to_string(), "enabled".to_string()]);

    let mut interp = Interpreter::new(field_map);

    let mut ctx = EvaluationContext::default();
    ctx.resource.attributes.insert("priority".to_string(), AttributeValue::Int(5));
    ctx.resource.attributes.insert("enabled".to_string(), AttributeValue::Bool(true));

    interp.evaluate(&policy, &ctx).unwrap();
    assert_eq!(*interp.stack().peek().unwrap(), Value::Bool(true));
}

#[test]
fn test_interpreter_invalid_field_offset() {
    let mut policy = CompiledPolicy::new(1);
    policy.emit(Instruction::LoadField { offset: 999 });
    policy.emit(Instruction::Return { value: true });

    let mut interp = Interpreter::default();
    let ctx = EvaluationContext::default();

    let result = interp.evaluate(&policy, &ctx);
    assert!(result.is_err());
    assert!(result.unwrap_err().contains("Unknown field offset"));
}

#[test]
fn test_interpreter_invalid_constant_index() {
    let mut policy = CompiledPolicy::new(1);
    policy.emit(Instruction::LoadConst { idx: 999 });
    policy.emit(Instruction::Return { value: true });

    let mut interp = Interpreter::default();
    let ctx = EvaluationContext::default();

    let result = interp.evaluate(&policy, &ctx);
    assert!(result.is_err());
    assert!(result.unwrap_err().contains("Invalid constant index"));
}

#[test]
fn test_interpreter_no_return_defaults_false() {
    let policy = CompiledPolicy::new(1);
    // No instructions, should default to false

    let mut interp = Interpreter::default();
    let ctx = EvaluationContext::default();

    let result = interp.evaluate(&policy, &ctx).unwrap();
    assert!(!result); // Should default to deny
}
