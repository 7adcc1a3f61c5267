use radish::{check_binary, check_unary, concatenate, Action, Function, Operator, RuntimeError, ValueKind};

#[test]
fn string_concatenation_appends() {
    let mut left = String::from("a");
    let right = String::from("b");
    assert_eq!(check_binary(Operator::Add, ValueKind::String, ValueKind::String), Ok(Action::Concatenate));
    concatenate(&mut left, &right);
    assert_eq!(left, "ab");
    assert_eq!(right, "b");
}

#[test]
fn mixed_operands_are_rejected() {
    assert_eq!(
        check_binary(Operator::Add, ValueKind::Number, ValueKind::Boolean),
        Err(RuntimeError::OperandsMustBeNumbers)
    );
    assert_eq!(
        check_binary(Operator::Add, ValueKind::String, ValueKind::Number),
        Err(RuntimeError::OperandsMustBeNumbers)
    );
    assert_eq!(
        check_binary(Operator::Subtract, ValueKind::String, ValueKind::String),
        Err(RuntimeError::OperandsMustBeNumbers)
    );
    assert_eq!(
        check_binary(Operator::Multiply, ValueKind::Nil, ValueKind::Nil),
        Err(RuntimeError::OperandsMustBeNumbers)
    );
}

#[test]
fn numbers_take_arithmetic() {
    for op in [Operator::Add, Operator::Subtract, Operator::Multiply, Operator::Divide] {
        assert_eq!(check_binary(op, ValueKind::Number, ValueKind::Number), Ok(Action::Arithmetic));
    }
}

#[test]
fn unary_operand_rules() {
    assert_eq!(check_unary(Operator::Negate, ValueKind::Number), Ok(Action::Arithmetic));
    assert_eq!(check_unary(Operator::Negate, ValueKind::Boolean), Err(RuntimeError::OperandsMustBeNumbers));
    assert_eq!(check_unary(Operator::Not, ValueKind::Boolean), Ok(Action::Negate));
    assert_eq!(check_unary(Operator::Not, ValueKind::Number), Err(RuntimeError::OperandMustBeBoolean));
    assert_eq!(RuntimeError::OperandMustBeBoolean.message(), "Operand must be boolean");
    assert_eq!(RuntimeError::OperandsMustBeNumbers.message(), "Operands must be numbers");
}

#[test]
fn functions_compare_by_name() {
    let f = Function::new(1, String::from("f"));
    let g = Function::new(2, String::from("f"));
    let h = Function::new(1, String::from("h"));
    assert!(f == g);
    assert!(f != h);
}

#[test]
fn functions_order_by_name() {
    let a = Function::new(3, String::from("apple"));
    let b = Function::new(0, String::from("banana"));
    let ab = Function::new(0, String::from("app"));
    assert_eq!(a.partial_cmp(&b), Some(std::cmp::Ordering::Less));
    assert_eq!(b.partial_cmp(&a), Some(std::cmp::Ordering::Greater));
    assert_eq!(ab.partial_cmp(&a), Some(std::cmp::Ordering::Less));
    assert_eq!(a.partial_cmp(&Function::new(9, String::from("apple"))), Some(std::cmp::Ordering::Equal));
    assert!(a < b);
}
