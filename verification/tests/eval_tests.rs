use alang::ast::{ASTNode, Operator};
use alang::eval::{evaluate, Environment, EvaluateError, NumericObject};
use alang::lexer::extract_token_stream;
use alang::parser::parse;

fn eval_line(line: &str, env: &mut Environment) -> Result<NumericObject, EvaluateError> {
    let tokens = extract_token_stream(line.to_string()).unwrap();
    let tree = parse(tokens).unwrap();
    evaluate(tree, env)
}

#[test]
fn integer_division_by_zero_is_an_error() {
    let mut env = Environment::new();
    assert_eq!(
        eval_line("5 / 0", &mut env),
        Err(EvaluateError::AttemptToDivideByZero)
    );
}

#[test]
fn float_division_by_zero_yields_infinity() {
    let mut env = Environment::new();
    assert_eq!(
        eval_line("5.0 / 0.0", &mut env),
        Ok(NumericObject::F32(f32::INFINITY.to_bits()))
    );
}

#[test]
fn overflowing_integer_quotient_is_an_error() {
    let mut env = Environment::new();
    let tree = ASTNode::BinaryExpr {
        op: Operator::Division,
        lhs: Box::new(ASTNode::I32(i32::MIN)),
        rhs: Box::new(ASTNode::I32(-1)),
    };
    assert_eq!(
        evaluate(tree, &mut env),
        Err(EvaluateError::AttemptToDivideByZero)
    );
}

#[test]
fn variable_round_trip() {
    let mut env = Environment::new();
    assert_eq!(
        eval_line("let a = 1", &mut env),
        Ok(NumericObject::Declared)
    );
    assert_eq!(eval_line("a + 1", &mut env), Ok(NumericObject::I32(2)));
}

#[test]
fn unbound_variable_is_an_error() {
    let mut env = Environment::new();
    assert_eq!(
        eval_line("b + 1", &mut env),
        Err(EvaluateError::ErrUninitializedVariable)
    );
}

#[test]
fn mixed_kind_promotion() {
    let mut env = Environment::new();
    assert_eq!(
        eval_line("1 + 2.0", &mut env),
        Ok(NumericObject::F32(3.0f32.to_bits()))
    );
}

#[test]
fn read_only_evaluation_is_idempotent() {
    let mut env = Environment::new();
    eval_line("let a = 4", &mut env).unwrap();
    let first = eval_line("a * 2 + 1", &mut env);
    let second = eval_line("a * 2 + 1", &mut env);
    assert_eq!(first, Ok(NumericObject::I32(9)));
    assert_eq!(first, second);
}

#[test]
fn float_addition_subtraction_and_multiplication() {
    let mut env = Environment::new();
    assert_eq!(
        eval_line("1.5 + 2.25", &mut env),
        Ok(NumericObject::F32(3.75f32.to_bits()))
    );
    assert_eq!(
        eval_line("5.5 - 0.25", &mut env),
        Ok(NumericObject::F32(5.25f32.to_bits()))
    );
    assert_eq!(
        eval_line("2.5 * 4.0", &mut env),
        Ok(NumericObject::F32(10.0f32.to_bits()))
    );
    assert_eq!(
        eval_line("1.0 / 2.0", &mut env),
        Ok(NumericObject::F32(0.5f32.to_bits()))
    );
}

#[test]
fn unary_negation_keeps_the_kind() {
    let mut env = Environment::new();
    assert_eq!(eval_line("-5", &mut env), Ok(NumericObject::I32(-5)));
    assert_eq!(
        eval_line("-2.5", &mut env),
        Ok(NumericObject::F32((-2.5f32).to_bits()))
    );
}

#[test]
fn integer_power_and_left_to_right_power_chain() {
    let mut env = Environment::new();
    assert_eq!(eval_line("2 ^ 10", &mut env), Ok(NumericObject::I32(1024)));
    // The power chain reduces left to right: (2 ^ 3) ^ 2 = 64.
    assert_eq!(eval_line("2 ^ 3 ^ 2", &mut env), Ok(NumericObject::I32(64)));
}

#[test]
fn integer_arithmetic_wraps_around() {
    let mut env = Environment::new();
    assert_eq!(
        eval_line("2147483647 + 1", &mut env),
        Ok(NumericObject::I32(i32::MIN))
    );
}

#[test]
fn float_power_of_float_base() {
    let mut env = Environment::new();
    let result = eval_line("2.0 ^ 10", &mut env).unwrap();
    match result {
        NumericObject::F32(bits) => assert_eq!(f32::from_bits(bits), 1024.0f32),
        other => panic!("expected a float, got {:?}", other),
    }
}

#[test]
fn fractional_power_is_a_floating_power() {
    let mut env = Environment::new();
    let result = eval_line("2 ^ 0.5", &mut env).unwrap();
    match result {
        NumericObject::F32(bits) => {
            let v = f32::from_bits(bits);
            assert!((v - 2.0f32.sqrt()).abs() < 1e-6);
        },
        other => panic!("expected a float, got {:?}", other),
    }
}

#[test]
fn negative_integer_exponent_falls_back_to_float() {
    let mut env = Environment::new();
    let result = eval_line("2 ^ -1", &mut env).unwrap();
    assert_eq!(result, NumericObject::F32(0.5f32.to_bits()));
}

#[test]
fn assigning_a_valueless_expression_is_an_error() {
    let mut env = Environment::new();
    assert_eq!(
        eval_line("let a = (let b = 1)", &mut env),
        Err(EvaluateError::VariableDoesNotHaveAValue)
    );
}

#[test]
fn stray_operators_in_hand_built_trees_are_rejected() {
    let mut env = Environment::new();
    let bad_unary = ASTNode::UnaryExpr {
        op: Operator::Plus,
        inner: Box::new(ASTNode::I32(1)),
    };
    assert_eq!(
        evaluate(bad_unary, &mut env),
        Err(EvaluateError::UnexpectedUnaryOperator)
    );
    let bad_binary = ASTNode::BinaryExpr {
        op: Operator::Sentinel,
        lhs: Box::new(ASTNode::I32(1)),
        rhs: Box::new(ASTNode::I32(2)),
    };
    assert_eq!(
        evaluate(bad_binary, &mut env),
        Err(EvaluateError::UnexpectedBinaryOperator)
    );
}

#[test]
fn hand_built_assignment_to_a_literal_is_rejected() {
    let mut env = Environment::new();
    let bad_assign = ASTNode::BinaryExpr {
        op: Operator::Assign,
        lhs: Box::new(ASTNode::I32(1)),
        rhs: Box::new(ASTNode::I32(2)),
    };
    assert_eq!(
        evaluate(bad_assign, &mut env),
        Err(EvaluateError::ExpectedIdentifier)
    );
}

#[test]
fn environment_insert_and_get() {
    let mut env = Environment::new();
    assert_eq!(env.get("x"), None);
    env.insert("x".to_string(), NumericObject::I32(7));
    assert_eq!(env.get("x"), Some(NumericObject::I32(7)));
    env.insert("x".to_string(), NumericObject::F32(1.5f32.to_bits()));
    assert_eq!(env.get("x"), Some(NumericObject::F32(1.5f32.to_bits())));
}

#[test]
fn assignment_overwrites_previous_binding() {
    let mut env = Environment::new();
    eval_line("let a = 1", &mut env).unwrap();
    eval_line("let a = 2", &mut env).unwrap();
    assert_eq!(eval_line("a", &mut env), Ok(NumericObject::I32(2)));
}

#[test]
fn precedence_shapes_the_result() {
    let mut env = Environment::new();
    assert_eq!(eval_line("1 + 1 * 2", &mut env), Ok(NumericObject::I32(3)));
    assert_eq!(eval_line("(1 + 1) * 2", &mut env), Ok(NumericObject::I32(4)));
}

#[test]
fn division_of_a_parenthesized_sum() {
    let mut env = Environment::new();
    assert_eq!(eval_line("10 / (90 + 8)", &mut env), Ok(NumericObject::I32(0)));
    assert_eq!(eval_line("(90 + 8) / 10", &mut env), Ok(NumericObject::I32(9)));
}

#[test]
fn same_precedence_chains_evaluate_left_to_right() {
    let mut env = Environment::new();
    assert_eq!(eval_line("1 - 2 + 3", &mut env), Ok(NumericObject::I32(2)));
    assert_eq!(eval_line("8 / 2 * 4", &mut env), Ok(NumericObject::I32(16)));
}

#[test]
fn failing_assignment_rolls_nested_bindings_back() {
    let mut env = Environment::new();
    assert_eq!(
        eval_line("let a = (let b = 1) + 1", &mut env),
        Err(EvaluateError::VariableDoesNotHaveAValue)
    );
    // The failing right-hand side is rolled back whole: b is unbound again.
    assert_eq!(
        eval_line("b", &mut env),
        Err(EvaluateError::ErrUninitializedVariable)
    );
}
