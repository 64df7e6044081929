use exprvm::chunk::Chunk;
use exprvm::object::{ObjFucntion, Object, ObjectType};
use exprvm::parser::CompileError;
use exprvm::token::Operator;
use exprvm::value::{RuntimeError, Value};
use exprvm::vm::{InterpretError, VM};

fn fpow(a: u64, b: u64) -> u64 {
    f64::from_bits(a).powf(f64::from_bits(b)).to_bits()
}

fn cpow(ar: u64, ai: u64, br: u64, bi: u64) -> (u64, u64) {
    let z = num::complex::Complex::new(f64::from_bits(ar), f64::from_bits(ai));
    let w = num::complex::Complex::new(f64::from_bits(br), f64::from_bits(bi));
    let r = z.powc(w);
    (r.re.to_bits(), r.im.to_bits())
}

fn run(source: &str) -> Result<Option<Value>, InterpretError> {
    let mut vm = VM::new();
    vm.interpret(source, &fpow, &cpow)
}

fn float(x: f64) -> Value {
    Value::Float(x.to_bits())
}

fn complex(re: f64, im: f64) -> Value {
    Value::Complex(re.to_bits(), im.to_bits())
}

#[test]
fn test_arithmetic() {
    assert_eq!(run("1 + 2"), Ok(Some(Value::Integer(3))));
    assert_eq!(run("10 - 4"), Ok(Some(Value::Integer(6))));
    assert_eq!(run("6 * 7"), Ok(Some(Value::Integer(42))));
}

#[test]
fn multiplication_binds_tighter_than_addition() {
    assert_eq!(run("1 + 2 * 3"), Ok(Some(Value::Integer(7))));
    assert_eq!(run("2 * 3 + 1"), Ok(Some(Value::Integer(7))));
}

#[test]
fn grouping_overrides_precedence() {
    assert_eq!(run("( 1 + 2 ) * 3"), Ok(Some(Value::Integer(9))));
}

#[test]
fn exponentiation_associates_to_the_left() {
    // (2 ** 3) ** 2 = 64.0, by the shared left-associative rule — not the
    // right-associative mathematical convention
    assert_eq!(run("2 ** 3 ** 2"), Ok(Some(float(64.0))));
}

#[test]
fn integer_division_by_slash_promotes_to_float() {
    assert_eq!(run("7 / 2"), Ok(Some(float(3.5))));
}

#[test]
fn double_slash_keeps_integers_integral() {
    assert_eq!(run("7 // 2"), Ok(Some(Value::Integer(3))));
}

#[test]
fn double_slash_on_floats_truncates_but_stays_float() {
    assert_eq!(run("7.9 // 2.0"), Ok(Some(float(3.0))));
    assert_eq!(run("7.0 // 2"), Ok(Some(float(3.0))));
    assert_eq!(run("7 // 2.0"), Ok(Some(float(3.0))));
}

#[test]
fn float_arithmetic_is_ieee() {
    assert_eq!(run("1.5 + 2.25"), Ok(Some(float(3.75))));
    assert_eq!(run("1.5 - 2.25"), Ok(Some(float(-0.75))));
    assert_eq!(run("2.5 * 4.0"), Ok(Some(float(10.0))));
    assert_eq!(run("10.0 / 4.0"), Ok(Some(float(2.5))));
    assert_eq!(run("0.1 + 0.2"), Ok(Some(float(0.1f64 + 0.2f64))));
}

#[test]
fn scientific_and_underscore_literals() {
    assert_eq!(run("1_000 + 1"), Ok(Some(Value::Integer(1001))));
    assert_eq!(run("1.5e2 + 0.5"), Ok(Some(float(150.5))));
    // an empty exponent-digit run reads as exponent zero
    assert_eq!(run("1.2e + 0.3"), Ok(Some(float(1.2f64 + 0.3f64))));
}

#[test]
fn complex_literals_and_arithmetic() {
    assert_eq!(run("2.1J"), Ok(Some(complex(0.0, 2.1))));
    assert_eq!(run("1.5J + 2.5J"), Ok(Some(complex(0.0, 4.0))));
    // (0+2i) * (0+2i) = -4 + 0i
    assert_eq!(run("2.0J * 2.0J"), Ok(Some(complex(-4.0, 0.0))));
}

#[test]
fn complex_arithmetic_matches_the_reference_implementation() {
    let a = num::complex::Complex::new(0.0, 1.5);
    let b = num::complex::Complex::new(0.0, 2.25);
    let m = a * b;
    assert_eq!(run("1.5J * 2.25J"), Ok(Some(complex(m.re, m.im))));
    let d = a / b;
    assert_eq!(run("1.5J / 2.25J"), Ok(Some(complex(d.re, d.im))));
    let p = a.powc(b);
    assert_eq!(run("1.5J ** 2.25J"), Ok(Some(complex(p.re, p.im))));
}

#[test]
fn exponent_never_downgrades_to_an_integer() {
    assert_eq!(run("2 ** 10"), Ok(Some(float(1024.0))));
    assert_eq!(run("2.0 ** 3"), Ok(Some(float(8.0))));
}

#[test]
fn assert_succeeds_on_a_true_comparison() {
    assert_eq!(run("assert 1 == 1"), Ok(None));
    assert_eq!(run("assert 1 < 2"), Ok(None));
    assert_eq!(run("assert 2.5 >= 2.5"), Ok(None));
    assert_eq!(run("assert 1.5 != 2.5"), Ok(None));
    assert_eq!(run("assert 2.0J == 2.0J"), Ok(None));
}

#[test]
fn assert_failure_is_distinct_from_a_type_error() {
    assert_eq!(
        run("assert 1 == 2"),
        Err(InterpretError::Runtime(RuntimeError::AssertionFailed))
    );
    assert_eq!(
        run("assert 1 == 2.0"),
        Err(InterpretError::Runtime(RuntimeError::MismatchedOperands))
    );
}

#[test]
fn assert_uses_truthiness_for_bare_values() {
    assert_eq!(run("assert 1"), Ok(None));
    assert_eq!(run("assert 2.1J"), Ok(None));
    assert_eq!(
        run("assert 0"),
        Err(InterpretError::Runtime(RuntimeError::AssertionFailed))
    );
    assert_eq!(
        run("assert 0.0"),
        Err(InterpretError::Runtime(RuntimeError::AssertionFailed))
    );
}

#[test]
fn several_statements_leave_the_last_value_on_top() {
    assert_eq!(run("assert 1 == 1 \n 2 + 3"), Ok(Some(Value::Integer(5))));
}

#[test]
fn arity_mismatch_fails_before_the_callee_runs() {
    let mut vm = VM::new();
    vm.objects.push(ObjFucntion {
        obj: Object { objecttype: ObjectType::OBJ_FUNCTION, marked: false },
        arity: 2,
        chunk: Chunk::new(),
        name: String::new(),
    });
    vm.stack.push(Value::Object(0));
    vm.stack.push(Value::Integer(1));
    let r = vm.call(0, 1);
    assert_eq!(r, Err(RuntimeError::ArityMismatch { expected: 2, got: 1 }));
    // no frame was pushed: none of the callee's bytecode can have executed
    assert_eq!(vm.frames.len(), 0);
    // a matching count is accepted
    vm.stack.push(Value::Integer(2));
    assert_eq!(vm.call(0, 2), Ok(()));
    assert_eq!(vm.frames.len(), 1);
}

#[test]
fn the_constant_pool_holds_256_entries_and_not_257() {
    let mut ok_source = String::new();
    for i in 0..256 {
        ok_source.push_str(&format!("{} ", i));
    }
    assert_eq!(run(&ok_source), Ok(Some(Value::Integer(255))));

    let mut overflowing = String::new();
    for i in 0..257 {
        overflowing.push_str(&format!("{} ", i));
    }
    match run(&overflowing) {
        Err(InterpretError::Compile(CompileError::ConstantPoolOverflow { .. })) => {}
        other => panic!("expected a constant-pool overflow, got {:?}", other),
    }
}

#[test]
fn compile_errors_name_their_cause() {
    assert!(matches!(
        run("( 1 + 2"),
        Err(InterpretError::Compile(CompileError::UnterminatedGrouping { .. }))
    ));
    assert!(matches!(
        run(") 1"),
        Err(InterpretError::Compile(CompileError::UnexpectedExpressionToken { .. }))
    ));
    assert!(matches!(
        run("1 = 2"),
        Err(InterpretError::Compile(CompileError::InvalidAssignmentTarget { .. }))
    ));
    // unary minus and call syntax are recognised but unsupported
    assert!(matches!(
        run("- 1"),
        Err(InterpretError::Compile(CompileError::UnsupportedExpression { .. }))
    ));
    assert!(matches!(
        run("1 ( 2 )"),
        Err(InterpretError::Compile(CompileError::UnsupportedExpression { .. }))
    ));
    // an integer lexeme with an exponent has no integer value
    assert!(matches!(
        run("1e5"),
        Err(InterpretError::Compile(CompileError::InvalidNumericLiteral { .. }))
    ));
    assert!(matches!(
        run("99999999999"),
        Err(InterpretError::Compile(CompileError::InvalidNumericLiteral { .. }))
    ));
}

#[test]
fn runtime_errors_name_their_cause() {
    assert_eq!(
        run("7 // 0"),
        Err(InterpretError::Runtime(RuntimeError::DivisionByZero))
    );
    assert_eq!(
        run("2000000000 + 2000000000"),
        Err(InterpretError::Runtime(RuntimeError::IntegerOverflow))
    );
    assert_eq!(
        run("1.0 + 1"),
        Err(InterpretError::Runtime(RuntimeError::MismatchedOperands))
    );
    assert_eq!(
        run("1.0J < 2.0J"),
        Err(InterpretError::Runtime(RuntimeError::UnorderedOperands))
    );
}

#[test]
fn slash_on_integers_follows_ieee_even_for_zero() {
    // `/` promotes to float division, so a zero divisor gives an infinity
    assert_eq!(run("7 / 0"), Ok(Some(float(f64::INFINITY))));
}

#[test]
fn lexical_errors_carry_the_offending_position() {
    assert_eq!(
        run("1 + $"),
        Err(InterpretError::Lexical(exprvm::token::LexicalError { index: 4, line: 0 }))
    );
}

#[test]
fn operator_doit_applies_the_numeric_tower() {
    assert_eq!(
        Operator::Plus.doit(Value::Integer(1), Value::Integer(2), &fpow, &cpow),
        Ok(Value::Integer(3))
    );
    assert_eq!(
        Operator::SlashSlash.doit(Value::Integer(7), Value::Integer(2), &fpow, &cpow),
        Ok(Value::Integer(3))
    );
    assert_eq!(
        Operator::Greater.doit(Value::Integer(3), Value::Integer(2), &fpow, &cpow),
        Ok(Value::Bool(true))
    );
    assert_eq!(
        Operator::StarStar.doit(Value::Integer(2), Value::Integer(10), &fpow, &cpow),
        Ok(float(1024.0))
    );
}

#[test]
fn value_pow_and_int_division_follow_their_kinds() {
    // pow on a float base with an integer exponent stays float
    assert_eq!(
        Value::Float(2.0f64.to_bits()).pow(Value::Integer(3), &fpow, &cpow),
        Ok(float(8.0))
    );
    // truncation toward zero on the negative side
    assert_eq!(
        Value::Integer(-7).int_division(Value::Integer(2)),
        Ok(Value::Integer(-3))
    );
    assert_eq!(
        exprvm::value::is_number(&Value::Bool(true)),
        false
    );
    assert_eq!(exprvm::value::is_number(&Value::Integer(1)), true);
}
