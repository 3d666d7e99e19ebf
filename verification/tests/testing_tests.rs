use ipe_core::bytecode::{CompOp, Instruction, Value};
use ipe_core::interpreter::FieldMapping;
use ipe_core::rar::{AttributeValue, ResourceTypeId};
use ipe_core::testing::{
    field_mapping_from_paths, policy_db_with_policy, simple_policy, test_context_with_attr, PolicyBuilder,
};
#[test]
fn test_simple_policy_allow() {
    let policy = simple_policy(1, true);
    assert_eq!(policy.code.len(), 1);
    assert!(matches!(policy.code[0], Instruction::Return { value: true }));
}

#[test]
fn test_simple_policy_deny() {
    let policy = simple_policy(1, false);
    assert_eq!(policy.code.len(), 1);
    assert!(matches!(policy.code[0], Instruction::Return { value: false }));
}

#[test]
fn test_test_context_with_attr() {
    let ctx = test_context_with_attr(
        ResourceTypeId(1),
        "name",
        AttributeValue::String("test".to_string()),
    );
    assert_eq!(ctx.resource.type_id, ResourceTypeId(1));
    assert_eq!(ctx.resource.attributes.len(), 1);
    assert!(ctx.resource.attributes.contains_key("name"));
}

#[test]
fn test_policy_db_with_policy() {
    let policy = simple_policy(1, true);
    let db = policy_db_with_policy(
        "test",
        policy,
        FieldMapping::new(),
        vec![ResourceTypeId(1)],
    );
    assert_eq!(db.len(), 1);
    assert!(db.get_policy_by_name("test").is_some());
}

#[test]
fn test_field_mapping_from_paths() {
    let mapping = field_mapping_from_paths(&[
        (0, vec!["resource", "priority"]),
        (1, vec!["resource", "enabled"]),
    ]);
    assert_eq!(mapping.len(), 2);
    assert_eq!(mapping[&0], vec!["resource", "priority"]);
    assert_eq!(mapping[&1], vec!["resource", "enabled"]);
}

#[test]
fn test_policy_builder() {
    let policy = PolicyBuilder::new(1)
        .load_field(0)
        .load_const(Value::Int(42))
        .compare(CompOp::Eq)
        .return_value(true)
        .build();

    assert_eq!(policy.code.len(), 4);
    assert_eq!(policy.constants.len(), 1);
}

#[test]
fn testing_builder_emits_in_order() {
    let policy = PolicyBuilder::new(9)
        .load_const(Value::Int(1))
        .load_const(Value::Int(2))
        .compare(CompOp::Lt)
        .jump_if_false(2)
        .not()
        .and()
        .or()
        .return_value(false)
        .build();
    assert_eq!(policy.header.policy_id, 9);
    assert_eq!(policy.header.code_size, 8);
    assert_eq!(policy.header.const_size, 2);
    assert!(matches!(policy.code[1], Instruction::LoadConst { idx: 1 }));
    assert!(matches!(policy.code[3], Instruction::JumpIfFalse { offset: 2 }));
    assert!(matches!(policy.code[7], Instruction::Return { value: false }));
}

#[test]
fn testing_field_mapping_later_entry_wins() {
    let mapping = field_mapping_from_paths(&[(0, vec!["resource", "a"]), (0, vec!["action", "b"])]);
    assert_eq!(mapping.len(), 1);
    assert_eq!(mapping[&0], vec!["action", "b"]);
}
