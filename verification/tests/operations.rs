use simi::operations::{boolean_condition, evaluate_binary, evaluate_unary, short_circuit, BinaryOp, FloatOperation, Outcome, UnaryOp};
use simi::span::Span;
use simi::value::{FloatRepr, Value};

fn span() -> Span {
    Span::new(3, 9)
}

fn integer(outcome: Outcome) -> i64 {
    match outcome {
        Outcome::Value(Value::Int(n)) => n,
        other => panic!("expected an integer, got {other:?}"),
    }
}

fn boolean(outcome: Outcome) -> bool {
    match outcome {
        Outcome::Value(Value::Bool(b)) => b,
        other => panic!("expected a boolean, got {other:?}"),
    }
}

fn error(outcome: Outcome) -> String {
    match outcome {
        Outcome::Error(e) => {
            assert_eq!(e.span, span());
            e.message
        }
        other => panic!("expected an error, got {other:?}"),
    }
}

fn binary(op: BinaryOp, a: i64, b: i64) -> Outcome {
    evaluate_binary(op, &Value::Int(a), &Value::Int(b), span())
}

fn float(value: f64) -> Value {
    Value::Float(FloatRepr::new(value.to_bits(), format!("{value:?}")))
}

#[test]
fn floor_division_rounds_toward_negative_infinity() {
    assert_eq!(integer(binary(BinaryOp::FloorDivide, 7, 2)), 3);
    assert_eq!(integer(binary(BinaryOp::FloorDivide, -7, 2)), -4);
    assert_eq!(integer(binary(BinaryOp::FloorDivide, 7, -2)), -4);
    assert_eq!(integer(binary(BinaryOp::FloorDivide, -7, -2)), 3);
    assert_eq!(integer(binary(BinaryOp::FloorDivide, -6, 2)), -3);
    assert_eq!(integer(binary(BinaryOp::FloorDivide, i64::MIN, 2)), i64::MIN / 2);
    assert_eq!(integer(binary(BinaryOp::FloorDivide, i64::MIN, 1)), i64::MIN);
}

#[test]
fn remainder_takes_the_sign_of_the_divisor() {
    assert_eq!(integer(binary(BinaryOp::Remainder, 7, 2)), 1);
    assert_eq!(integer(binary(BinaryOp::Remainder, -7, 2)), 1);
    assert_eq!(integer(binary(BinaryOp::Remainder, 7, -2)), -1);
    assert_eq!(integer(binary(BinaryOp::Remainder, -7, -2)), -1);
    assert_eq!(integer(binary(BinaryOp::Remainder, i64::MIN, -1)), 0);
    assert_eq!(integer(binary(BinaryOp::Remainder, i64::MAX, i64::MIN)), -1);
}

#[test]
fn division_and_remainder_recombine() {
    for a in [-9i64, -5, -1, 0, 1, 4, 9, i64::MIN + 1, i64::MAX] {
        for b in [-4i64, -3, -1, 1, 2, 7] {
            let q = integer(binary(BinaryOp::FloorDivide, a, b)) as i128;
            let r = integer(binary(BinaryOp::Remainder, a, b)) as i128;
            assert_eq!(q * b as i128 + r, a as i128);
            if b > 0 {
                assert!(0 <= r && r < b as i128);
            } else {
                assert!((b as i128) < r && r <= 0);
            }
        }
    }
}

#[test]
fn integer_overflow_is_a_hard_error() {
    assert_eq!(error(binary(BinaryOp::Add, i64::MAX, 1)), "integer overflow");
    assert_eq!(error(binary(BinaryOp::Subtract, i64::MIN, 1)), "integer overflow");
    assert_eq!(error(binary(BinaryOp::Multiply, i64::MAX, 2)), "integer overflow");
    assert_eq!(
        error(binary(BinaryOp::FloorDivide, i64::MIN, -1)),
        "integer overflow in floor division"
    );
    assert_eq!(integer(binary(BinaryOp::Add, 40, 2)), 42);
    assert_eq!(integer(binary(BinaryOp::Subtract, 40, 2)), 38);
    assert_eq!(integer(binary(BinaryOp::Multiply, -6, 7)), -42);
}

#[test]
fn dividing_by_zero_is_raised() {
    assert!(matches!(binary(BinaryOp::Divide, 1, 0), Outcome::DivisionByZero));
    assert!(matches!(binary(BinaryOp::FloorDivide, 1, 0), Outcome::DivisionByZero));
    assert!(matches!(binary(BinaryOp::Remainder, 1, 0), Outcome::DivisionByZero));
    let by_float_zero = evaluate_binary(BinaryOp::Divide, &float(1.5), &float(-0.0), span());
    assert!(matches!(by_float_zero, Outcome::DivisionByZero));
    let float_by_int_zero = evaluate_binary(BinaryOp::Remainder, &float(1.5), &Value::Int(0), span());
    assert!(matches!(float_by_int_zero, Outcome::DivisionByZero));
}

#[test]
fn float_arithmetic_is_handed_to_the_caller() {
    match binary(BinaryOp::Divide, 7, 2) {
        Outcome::Float(FloatOperation::Binary(BinaryOp::Divide, Value::Int(7), Value::Int(2))) => {}
        other => panic!("unexpected {other:?}"),
    }
    match evaluate_binary(BinaryOp::Add, &Value::Int(1), &float(0.5), span()) {
        Outcome::Float(FloatOperation::Binary(BinaryOp::Add, Value::Int(1), Value::Float(f))) => {
            assert_eq!(f.bits, 0.5f64.to_bits());
        }
        other => panic!("unexpected {other:?}"),
    }
}

#[test]
fn comparisons_of_integers() {
    assert!(boolean(binary(BinaryOp::Less, 1, 2)));
    assert!(!boolean(binary(BinaryOp::Less, 2, 2)));
    assert!(boolean(binary(BinaryOp::LessEqual, 2, 2)));
    assert!(boolean(binary(BinaryOp::Greater, 3, 2)));
    assert!(!boolean(binary(BinaryOp::GreaterEqual, 1, 2)));
}

#[test]
fn equality_is_primitive() {
    assert!(boolean(binary(BinaryOp::Equal, 2, 2)));
    assert!(boolean(binary(BinaryOp::NotEqual, 2, 3)));
    let int_float = evaluate_binary(BinaryOp::Equal, &Value::Int(2), &float(2.0), span());
    assert!(boolean(int_float));
    let mixed = evaluate_binary(BinaryOp::Equal, &Value::Int(2), &Value::String("2".to_string()), span());
    assert!(!boolean(mixed));
    let nils = evaluate_binary(BinaryOp::NotEqual, &Value::Nil, &Value::Nil, span());
    assert!(!boolean(nils));
}

#[test]
fn operators_require_numbers() {
    let outcome = evaluate_binary(BinaryOp::Add, &Value::String("a".to_string()), &Value::Int(1), span());
    assert_eq!(error(outcome), "operator `+` requires numeric operands, got string and integer");
    let outcome = evaluate_binary(BinaryOp::LessEqual, &Value::Nil, &Value::Bool(true), span());
    assert_eq!(error(outcome), "operator `<=` requires numeric operands, got nil and boolean");
}

#[test]
fn unary_operators() {
    assert_eq!(integer(evaluate_unary(UnaryOp::Negate, &Value::Int(5), span())), -5);
    assert_eq!(
        error(evaluate_unary(UnaryOp::Negate, &Value::Int(i64::MIN), span())),
        "integer overflow in negation"
    );
    assert!(!boolean(evaluate_unary(UnaryOp::Not, &Value::Bool(true), span())));
    assert_eq!(
        error(evaluate_unary(UnaryOp::Negate, &Value::Bool(true), span())),
        "unary `-` requires a number, got boolean"
    );
    assert_eq!(
        error(evaluate_unary(UnaryOp::Not, &Value::Int(1), span())),
        "`not` requires a boolean, got integer"
    );
    match evaluate_unary(UnaryOp::Negate, &float(1.5), span()) {
        Outcome::Float(FloatOperation::Negate(f)) => assert_eq!(f.bits, 1.5f64.to_bits()),
        other => panic!("unexpected {other:?}"),
    }
}

#[test]
fn and_and_or_short_circuit_on_their_left_operand() {
    assert_eq!(short_circuit(BinaryOp::And, &Value::Bool(false), span()).unwrap(), Some(false));
    assert_eq!(short_circuit(BinaryOp::And, &Value::Bool(true), span()).unwrap(), None);
    assert_eq!(short_circuit(BinaryOp::Or, &Value::Bool(true), span()).unwrap(), Some(true));
    assert_eq!(short_circuit(BinaryOp::Or, &Value::Bool(false), span()).unwrap(), None);
    let error = short_circuit(BinaryOp::Or, &Value::Int(1), span()).unwrap_err();
    assert_eq!(error.message, "operator `or` requires boolean operands, got integer");
    assert_eq!(error.span, span());
}

#[test]
fn conditions_and_guards_must_be_booleans() {
    assert!(boolean_condition("if condition", &Value::Bool(true), span()).unwrap());
    let error = boolean_condition("catch guard", &Value::Int(2), span()).unwrap_err();
    assert_eq!(error.message, "catch guard must be boolean, got integer");
    let error = boolean_condition("match guard", &Value::Nil, span()).unwrap_err();
    assert_eq!(error.message, "match guard must be boolean, got nil");
}

#[test]
fn integers_and_floats_are_ordered_exactly() {
    let less = |a: Value, b: Value| boolean(evaluate_binary(BinaryOp::Less, &a, &b, span()));
    assert!(less(Value::Int(1), float(1.5)));
    assert!(!less(Value::Int(2), float(1.5)));
    assert!(less(float(-1.5), Value::Int(-1)));
    assert!(!less(Value::Int(-1), float(-1.5)));
    assert!(less(Value::Int(-2), float(-1.5)));
    assert!(!less(Value::Int(3), float(3.0)));
    assert!(boolean(evaluate_binary(BinaryOp::LessEqual, &Value::Int(3), &float(3.0), span())));
    assert!(boolean(evaluate_binary(BinaryOp::GreaterEqual, &float(-0.0), &Value::Int(0), span())));
    // 2^53 + 1 is not a float: the comparison is exact, not through a rounded conversion.
    assert!(less(float(9007199254740992.0), Value::Int(9007199254740993)));
    assert!(less(Value::Int(i64::MAX), float(9223372036854775808.0)));
    assert!(!less(Value::Int(i64::MIN), float(-9223372036854775808.0)));
    assert!(less(float(-1e300), Value::Int(i64::MIN)));
    assert!(less(Value::Int(0), float(5e-324)));
    assert!(!less(Value::Int(0), float(-5e-324)));
    assert!(boolean(evaluate_binary(BinaryOp::Greater, &Value::Int(0), &float(-5e-324), span())));
}

#[test]
fn non_finite_floats_cannot_be_ordered_with_integers() {
    let nan = Value::Float(FloatRepr::new(f64::NAN.to_bits(), "NaN".to_owned()));
    assert_eq!(
        error(evaluate_binary(BinaryOp::Less, &Value::Int(1), &nan, span())),
        "operator `<` requires numeric operands, got integer and float"
    );
    let inf = Value::Float(FloatRepr::new(f64::INFINITY.to_bits(), "inf".to_owned()));
    assert_eq!(
        error(evaluate_binary(BinaryOp::GreaterEqual, &inf, &Value::Int(1), span())),
        "operator `>=` requires numeric operands, got float and integer"
    );
}

#[test]
fn floats_are_ordered_by_value() {
    let less = |a: f64, b: f64| boolean(evaluate_binary(BinaryOp::Less, &float(a), &float(b), span()));
    assert!(less(1.5, 2.0));
    assert!(!less(2.0, 1.5));
    assert!(less(-2.0, -1.5));
    assert!(less(-1.0, 0.5));
    assert!(!less(-0.0, 0.0));
    assert!(boolean(evaluate_binary(BinaryOp::LessEqual, &float(-0.0), &float(0.0), span())));
    assert!(boolean(evaluate_binary(BinaryOp::GreaterEqual, &float(0.0), &float(-0.0), span())));
    assert!(less(5e-324, 1e-300));
    assert!(less(-1e300, -5e-324));
    assert!(less(f64::MAX / 2.0, f64::MAX));
    assert!(boolean(evaluate_binary(BinaryOp::Greater, &float(3.25), &float(3.0), span())));
    let nan = Value::Float(FloatRepr::new(f64::NAN.to_bits(), "NaN".to_owned()));
    assert_eq!(
        error(evaluate_binary(BinaryOp::Less, &nan, &float(1.0), span())),
        "operator `<` requires numeric operands, got float and float"
    );
}

#[test]
fn equality_agrees_with_ordering_for_mixed_numbers() {
    for (i, x) in [(3i64, 3.0f64), (3, 3.5), (-2, -2.0), (0, -0.0), (i64::MIN, -9223372036854775808.0), (7, 1e20)] {
        let a = Value::Int(i);
        let b = float(x);
        let eq = boolean(evaluate_binary(BinaryOp::Equal, &a, &b, span()));
        let lt = boolean(evaluate_binary(BinaryOp::Less, &a, &b, span()));
        let gt = boolean(evaluate_binary(BinaryOp::Greater, &a, &b, span()));
        assert_eq!(eq, !lt && !gt, "{i} and {x}");
        assert!(!(lt && gt));
        assert_eq!(eq, (i as f64) == x && (x as i64) == i, "{i} and {x}");
    }
}
