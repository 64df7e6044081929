//! The runtime value model: a tagged numeric tower.
//!
//! A value is a boolean, a 32-bit integer, a double-precision float, a
//! complex number, or a reference (by registry index) to a function object.
//! Float and complex components are carried as IEEE-754 bit patterns (see
//! `crate::float`). Arithmetic is defined over matching-kind pairs only —
//! mismatched kinds are a runtime type error, never a silent coercion — with
//! the exceptions the operator definitions below spell out (`/` on integers
//! promotes to float; `//` and `**` accept some mixed pairs).

use vstd::prelude::*;

use crate::float::f64_add_bits;
use crate::float::f64_sub_bits;
use crate::float::f64_mul_bits;
use crate::float::f64_div_bits;
use crate::float::f64_eq_bits;
use crate::float::f64_lt_bits;
use crate::float::f64_le_bits;
use crate::float::f64_of_i32;
use crate::float::f64_to_i32;
use crate::float::float_add;
use crate::float::float_sub;
use crate::float::float_mul;
use crate::float::float_div;
use crate::float::float_eq;
use crate::float::float_lt;
use crate::float::float_le;
use crate::float::float_of_i32;
use crate::float::float_to_i32;

verus! {

/// The conditions that abort execution in the virtual machine.
#[derive(Debug, Clone, Copy, PartialEq, Eq, Structural)]
pub enum RuntimeError {
    /// A binary operator was applied to a value that is not a number.
    OperandsNotNumbers,
    /// A binary operator was applied to numbers of different kinds for which
    /// no mixed-kind rule exists.
    MismatchedOperands,
    /// An ordering comparison was applied to complex numbers.
    UnorderedOperands,
    /// Integer arithmetic left the 32-bit signed range.
    IntegerOverflow,
    /// Integer division by zero.
    DivisionByZero,
    /// A call supplied a number of arguments different from the callee's
    /// declared arity.
    ArityMismatch { expected: u8, got: u8 },
    /// The call-frame stack reached its fixed maximum depth.
    FrameOverflow,
    /// An instruction needed more operand-stack values than were present.
    StackUnderflow,
    /// A constant-index or jump-distance byte stood where an opcode was
    /// expected, an operand byte was missing or out of range, or a frame
    /// referred to no function.
    MalformedBytecode,
    /// An opcode that the current machine does not implement (`Not`,
    /// `Negative`, `Noop`) was dispatched.
    UnsupportedInstruction,
    /// An `assert` statement's operand was falsy.
    AssertionFailed,
}

/// A runtime value.
///
/// `Float` holds the IEEE-754 encoding of a double; `Complex` holds the
/// encodings of its real and imaginary components. `Object` holds an index
/// into the owning virtual machine's function registry. Derived equality is
/// structural identity of the tags and payloads, not numeric equality (the
/// language's `==` is `Operator::EqualEqual`).
#[derive(Debug, Clone, Copy, PartialEq, Eq, Structural)]
pub enum Value {
    Bool(bool),
    Integer(i32),
    Float(u64),
    Complex(u64, u64),
    Object(usize),
}

impl Value {
    /// Whether the value is numeric (integer, float, or complex).
    pub open spec fn is_numeric(self) -> bool {
        match self {
            Value::Integer(_) | Value::Float(_) | Value::Complex(_, _) => true,
            _ => false,
        }
    }
}

/// Whether the value is numeric. Booleans and object references are not
/// arithmetic operands.
#[inline]
pub fn is_number(value: &Value) -> (r: bool)
    ensures
        r == value.is_numeric(),
{
    match value {
        Value::Integer(_) | Value::Float(_) | Value::Complex(_, _) => true,
        _ => false,
    }
}

/// The error for a numeric pair no rule covers: mismatched kinds if both are
/// numbers, otherwise the operands were not numbers at all.
pub open spec fn spec_pair_error(a: Value, b: Value) -> RuntimeError {
    if a.is_numeric() && b.is_numeric() {
        RuntimeError::MismatchedOperands
    } else {
        RuntimeError::OperandsNotNumbers
    }
}

/// Addition: defined on matching kinds only.
pub open spec fn spec_add(a: Value, b: Value) -> Result<Value, RuntimeError> {
    match (a, b) {
        (Value::Integer(x), Value::Integer(y)) => if i32::MIN <= x + y <= i32::MAX {
            Ok(Value::Integer((x + y) as i32))
        } else {
            Err(RuntimeError::IntegerOverflow)
        },
        (Value::Float(x), Value::Float(y)) => Ok(Value::Float(f64_add_bits(x, y))),
        (Value::Complex(xr, xi), Value::Complex(yr, yi)) => Ok(
            Value::Complex(f64_add_bits(xr, yr), f64_add_bits(xi, yi)),
        ),
        _ => Err(spec_pair_error(a, b)),
    }
}

/// Subtraction: defined on matching kinds only.
pub open spec fn spec_sub(a: Value, b: Value) -> Result<Value, RuntimeError> {
    match (a, b) {
        (Value::Integer(x), Value::Integer(y)) => if i32::MIN <= x - y <= i32::MAX {
            Ok(Value::Integer((x - y) as i32))
        } else {
            Err(RuntimeError::IntegerOverflow)
        },
        (Value::Float(x), Value::Float(y)) => Ok(Value::Float(f64_sub_bits(x, y))),
        (Value::Complex(xr, xi), Value::Complex(yr, yi)) => Ok(
            Value::Complex(f64_sub_bits(xr, yr), f64_sub_bits(xi, yi)),
        ),
        _ => Err(spec_pair_error(a, b)),
    }
}

/// The real part of the product of two complex numbers, per the textbook
/// formula `re = xr*yr - xi*yi` evaluated in IEEE-754.
pub open spec fn spec_complex_mul_re(xr: u64, xi: u64, yr: u64, yi: u64) -> u64 {
    f64_sub_bits(f64_mul_bits(xr, yr), f64_mul_bits(xi, yi))
}

/// The imaginary part of the product: `im = xr*yi + xi*yr` in IEEE-754.
pub open spec fn spec_complex_mul_im(xr: u64, xi: u64, yr: u64, yi: u64) -> u64 {
    f64_add_bits(f64_mul_bits(xr, yi), f64_mul_bits(xi, yr))
}

/// Multiplication: defined on matching kinds only.
pub open spec fn spec_mul(a: Value, b: Value) -> Result<Value, RuntimeError> {
    match (a, b) {
        (Value::Integer(x), Value::Integer(y)) => if i32::MIN <= x * y <= i32::MAX {
            Ok(Value::Integer((x * y) as i32))
        } else {
            Err(RuntimeError::IntegerOverflow)
        },
        (Value::Float(x), Value::Float(y)) => Ok(Value::Float(f64_mul_bits(x, y))),
        (Value::Complex(xr, xi), Value::Complex(yr, yi)) => Ok(
            Value::Complex(
                spec_complex_mul_re(xr, xi, yr, yi),
                spec_complex_mul_im(xr, xi, yr, yi),
            ),
        ),
        _ => Err(spec_pair_error(a, b)),
    }
}

/// The squared norm `yr*yr + yi*yi` of a complex divisor, in IEEE-754.
pub open spec fn spec_complex_norm_sqr(yr: u64, yi: u64) -> u64 {
    f64_add_bits(f64_mul_bits(yr, yr), f64_mul_bits(yi, yi))
}

/// Division. On two integers the result is promoted to the float quotient;
/// on floats and complex numbers it is the IEEE-754 division (a zero divisor
/// yields an infinite or NaN float, not an error).
pub open spec fn spec_div(a: Value, b: Value) -> Result<Value, RuntimeError> {
    match (a, b) {
        (Value::Integer(x), Value::Integer(y)) => Ok(
            Value::Float(f64_div_bits(f64_of_i32(x), f64_of_i32(y))),
        ),
        (Value::Float(x), Value::Float(y)) => Ok(Value::Float(f64_div_bits(x, y))),
        (Value::Complex(xr, xi), Value::Complex(yr, yi)) => {
            let nsq = spec_complex_norm_sqr(yr, yi);
            Ok(
                Value::Complex(
                    f64_div_bits(f64_add_bits(f64_mul_bits(xr, yr), f64_mul_bits(xi, yi)), nsq),
                    f64_div_bits(f64_sub_bits(f64_mul_bits(xi, yr), f64_mul_bits(xr, yi)), nsq),
                ),
            )
        },
        _ => Err(spec_pair_error(a, b)),
    }
}

/// Integer division truncated toward zero, on mathematical integers.
pub open spec fn spec_trunc_div(x: int, y: int) -> int {
    let q = abs_int(x) / abs_int(y);
    if (x < 0) != (y < 0) {
        -q
    } else {
        q
    }
}

/// The absolute value of an integer.
pub open spec fn abs_int(x: int) -> int {
    if x < 0 {
        -x
    } else {
        x
    }
}

/// The float carrying the value of `bits` truncated through a saturating
/// 32-bit integer cast, as `//` produces on float pairs.
pub open spec fn spec_float_floor_div(x: u64, y: u64) -> u64 {
    f64_of_i32(f64_to_i32(f64_div_bits(x, y)))
}

/// Integer division (`//`). On two integers the result stays an integer,
/// truncated toward zero; pairs mixing integers and floats, and float pairs,
/// produce a float carrying a truncated value.
pub open spec fn spec_int_division(a: Value, b: Value) -> Result<Value, RuntimeError> {
    match (a, b) {
        (Value::Integer(x), Value::Integer(y)) => if y == 0 {
            Err(RuntimeError::DivisionByZero)
        } else if x == i32::MIN && y == -1 {
            Err(RuntimeError::IntegerOverflow)
        } else {
            Ok(Value::Integer(spec_trunc_div(x as int, y as int) as i32))
        },
        (Value::Integer(x), Value::Float(y)) => Ok(
            Value::Float(spec_float_floor_div(f64_of_i32(x), y)),
        ),
        (Value::Float(x), Value::Integer(y)) => Ok(
            Value::Float(spec_float_floor_div(x, f64_of_i32(y))),
        ),
        (Value::Float(x), Value::Float(y)) => Ok(Value::Float(spec_float_floor_div(x, y))),
        _ => Err(spec_pair_error(a, b)),
    }
}

/// Value equality (`==`): defined on matching numeric kinds; floats compare
/// under IEEE-754, complex numbers componentwise.
pub open spec fn spec_value_eq(a: Value, b: Value) -> Result<Value, RuntimeError> {
    match (a, b) {
        (Value::Integer(x), Value::Integer(y)) => Ok(Value::Bool(x == y)),
        (Value::Float(x), Value::Float(y)) => Ok(Value::Bool(f64_eq_bits(x, y))),
        (Value::Complex(xr, xi), Value::Complex(yr, yi)) => Ok(
            Value::Bool(f64_eq_bits(xr, yr) && f64_eq_bits(xi, yi)),
        ),
        _ => Err(spec_pair_error(a, b)),
    }
}

/// Strict less-than: defined on matching integer or float pairs; complex
/// numbers are unordered.
pub open spec fn spec_value_lt(a: Value, b: Value) -> Result<Value, RuntimeError> {
    match (a, b) {
        (Value::Integer(x), Value::Integer(y)) => Ok(Value::Bool(x < y)),
        (Value::Float(x), Value::Float(y)) => Ok(Value::Bool(f64_lt_bits(x, y))),
        (Value::Complex(_, _), Value::Complex(_, _)) => Err(RuntimeError::UnorderedOperands),
        _ => Err(spec_pair_error(a, b)),
    }
}

/// Less-than-or-equal: defined on matching integer or float pairs; complex
/// numbers are unordered.
pub open spec fn spec_value_le(a: Value, b: Value) -> Result<Value, RuntimeError> {
    match (a, b) {
        (Value::Integer(x), Value::Integer(y)) => Ok(Value::Bool(x <= y)),
        (Value::Float(x), Value::Float(y)) => Ok(Value::Bool(f64_le_bits(x, y))),
        (Value::Complex(_, _), Value::Complex(_, _)) => Err(RuntimeError::UnorderedOperands),
        _ => Err(spec_pair_error(a, b)),
    }
}

/// What exponentiation returns, exactly: on each defined operand-kind pair,
/// the payload is an output of the supplied power routine on the operands'
/// encodings (an integer operand converted to its double first; an integer
/// exponent of a complex base becoming the complex number with a zero
/// imaginary encoding), wrapped in the result kind the pair fixes; every
/// other pair is the pair's error.
pub open spec fn spec_pow_exact<FP: Fn(u64, u64) -> u64, CP: Fn(u64, u64, u64, u64) -> (u64, u64)>(
    a: Value,
    b: Value,
    fpow: FP,
    cpow: CP,
    r: Result<Value, RuntimeError>,
) -> bool {
    match (a, b) {
        (Value::Integer(x), Value::Integer(y)) => exists|p: u64|
            #[trigger] call_ensures(fpow, (f64_of_i32(x), f64_of_i32(y)), p) && r == Ok::<
                Value,
                RuntimeError,
            >(Value::Float(p)),
        (Value::Float(xb), Value::Integer(y)) => exists|p: u64|
            #[trigger] call_ensures(fpow, (xb, f64_of_i32(y)), p) && r == Ok::<
                Value,
                RuntimeError,
            >(Value::Float(p)),
        (Value::Float(xb), Value::Float(yb)) => exists|p: u64|
            #[trigger] call_ensures(fpow, (xb, yb), p) && r == Ok::<Value, RuntimeError>(
                Value::Float(p),
            ),
        (Value::Complex(xr, xi), Value::Integer(y)) => exists|pp: (u64, u64)|
            #[trigger] call_ensures(cpow, (xr, xi, f64_of_i32(y), 0u64), pp) && r == Ok::<
                Value,
                RuntimeError,
            >(Value::Complex(pp.0, pp.1)),
        (Value::Complex(xr, xi), Value::Complex(yr, yi)) => exists|pp: (u64, u64)|
            #[trigger] call_ensures(cpow, (xr, xi, yr, yi), pp) && r == Ok::<Value, RuntimeError>(
                Value::Complex(pp.0, pp.1),
            ),
        _ => r == Err::<Value, RuntimeError>(spec_pair_error(a, b)),
    }
}

/// The operand-kind pairs on which exponentiation is defined.
pub open spec fn spec_pow_defined(a: Value, b: Value) -> bool {
    match (a, b) {
        (Value::Integer(_), Value::Integer(_)) => true,
        (Value::Float(_), Value::Integer(_)) => true,
        (Value::Float(_), Value::Float(_)) => true,
        (Value::Complex(_, _), Value::Integer(_)) => true,
        (Value::Complex(_, _), Value::Complex(_, _)) => true,
        _ => false,
    }
}

/// The operand-kind pairs on which exponentiation is defined, and the kind
/// of its result: integer and float bases with integer or float exponents
/// give a float (never an exact integer, even where one exists); a complex
/// base gives a complex result.
pub open spec fn spec_pow_result(a: Value, b: Value, r: Result<Value, RuntimeError>) -> bool {
    match (a, b) {
        (Value::Integer(_), Value::Integer(_)) => r matches Ok(Value::Float(_)),
        (Value::Float(_), Value::Integer(_)) => r matches Ok(Value::Float(_)),
        (Value::Float(_), Value::Float(_)) => r matches Ok(Value::Float(_)),
        (Value::Complex(_, _), Value::Integer(_)) => r matches Ok(Value::Complex(_, _)),
        (Value::Complex(_, _), Value::Complex(_, _)) => r matches Ok(Value::Complex(_, _)),
        _ => r == Err::<Value, RuntimeError>(spec_pair_error(a, b)),
    }
}

/// Whether a value counts as true for `assert`: `false`, the integer zero,
/// a float or complex zero (of either sign) are falsy; everything else —
/// including NaN and object references — is truthy.
pub open spec fn spec_truthy(v: Value) -> bool {
    match v {
        Value::Bool(b) => b,
        Value::Integer(i) => i != 0,
        Value::Float(bits) => !spec_float_zero(bits),
        Value::Complex(re, im) => !(spec_float_zero(re) && spec_float_zero(im)),
        Value::Object(_) => true,
    }
}

/// Whether `bits` encodes positive or negative zero.
pub open spec fn spec_float_zero(bits: u64) -> bool {
    bits == 0u64 || bits == 0x8000_0000_0000_0000u64
}

/// Whether a value counts as true for the `assert` statement.
pub fn is_truthy(v: &Value) -> (r: bool)
    ensures
        r == spec_truthy(*v),
{
    match v {
        Value::Bool(b) => *b,
        Value::Integer(i) => *i != 0,
        Value::Float(bits) => !(*bits == 0 || *bits == 0x8000_0000_0000_0000u64),
        Value::Complex(re, im) => !((*re == 0 || *re == 0x8000_0000_0000_0000u64) && (*im == 0
            || *im == 0x8000_0000_0000_0000u64)),
        Value::Object(_) => true,
    }
}

impl Value {
    /// Addition on matching kinds.
    pub fn add(self, rhs: Value) -> (r: Result<Value, RuntimeError>)
        ensures
            r == spec_add(self, rhs),
    {
        match (self, rhs) {
            (Value::Integer(x), Value::Integer(y)) => {
                let s: i64 = (x as i64) + (y as i64);
                if s >= -2147483648i64 && s <= 2147483647i64 {
                    Ok(Value::Integer(s as i32))
                } else {
                    Err(RuntimeError::IntegerOverflow)
                }
            },
            (Value::Float(x), Value::Float(y)) => Ok(Value::Float(float_add(x, y))),
            (Value::Complex(xr, xi), Value::Complex(yr, yi)) => Ok(
                Value::Complex(float_add(xr, yr), float_add(xi, yi)),
            ),
            _ => Err(pair_error(&self, &rhs)),
        }
    }

    /// Subtraction on matching kinds.
    pub fn sub(self, rhs: Value) -> (r: Result<Value, RuntimeError>)
        ensures
            r == spec_sub(self, rhs),
    {
        match (self, rhs) {
            (Value::Integer(x), Value::Integer(y)) => {
                let s: i64 = (x as i64) - (y as i64);
                if s >= -2147483648i64 && s <= 2147483647i64 {
                    Ok(Value::Integer(s as i32))
                } else {
                    Err(RuntimeError::IntegerOverflow)
                }
            },
            (Value::Float(x), Value::Float(y)) => Ok(Value::Float(float_sub(x, y))),
            (Value::Complex(xr, xi), Value::Complex(yr, yi)) => Ok(
                Value::Complex(float_sub(xr, yr), float_sub(xi, yi)),
            ),
            _ => Err(pair_error(&self, &rhs)),
        }
    }

    /// Multiplication on matching kinds.
    pub fn mul(self, rhs: Value) -> (r: Result<Value, RuntimeError>)
        ensures
            r == spec_mul(self, rhs),
    {
        match (self, rhs) {
            (Value::Integer(x), Value::Integer(y)) => {
                proof {
                    assert((-2147483648 <= x as int <= 2147483647 && -2147483648 <= y as int
                        <= 2147483647) ==> (-4611686018427387904 <= (x as int) * (y as int)
                        <= 4611686018427387904)) by (nonlinear_arith);
                }
                let s: i64 = (x as i64) * (y as i64);
                if s >= -2147483648i64 && s <= 2147483647i64 {
                    Ok(Value::Integer(s as i32))
                } else {
                    Err(RuntimeError::IntegerOverflow)
                }
            },
            (Value::Float(x), Value::Float(y)) => Ok(Value::Float(float_mul(x, y))),
            (Value::Complex(xr, xi), Value::Complex(yr, yi)) => Ok(
                Value::Complex(
                    float_sub(float_mul(xr, yr), float_mul(xi, yi)),
                    float_add(float_mul(xr, yi), float_mul(xi, yr)),
                ),
            ),
            _ => Err(pair_error(&self, &rhs)),
        }
    }

    /// Division; an integer pair promotes to the float quotient.
    pub fn div(self, rhs: Value) -> (r: Result<Value, RuntimeError>)
        ensures
            r == spec_div(self, rhs),
    {
        match (self, rhs) {
            (Value::Integer(x), Value::Integer(y)) => Ok(
                Value::Float(float_div(float_of_i32(x), float_of_i32(y))),
            ),
            (Value::Float(x), Value::Float(y)) => Ok(Value::Float(float_div(x, y))),
            (Value::Complex(xr, xi), Value::Complex(yr, yi)) => {
                let nsq = float_add(float_mul(yr, yr), float_mul(yi, yi));
                Ok(
                    Value::Complex(
                        float_div(float_add(float_mul(xr, yr), float_mul(xi, yi)), nsq),
                        float_div(float_sub(float_mul(xi, yr), float_mul(xr, yi)), nsq),
                    ),
                )
            },
            _ => Err(pair_error(&self, &rhs)),
        }
    }

    /// Integer division (`//`), truncating toward zero.
    pub fn int_division(self, rhs: Value) -> (r: Result<Value, RuntimeError>)
        ensures
            r == spec_int_division(self, rhs),
    {
        match (self, rhs) {
            (Value::Integer(x), Value::Integer(y)) => {
                if y == 0 {
                    Err(RuntimeError::DivisionByZero)
                } else if x == i32::MIN && y == -1 {
                    Err(RuntimeError::IntegerOverflow)
                } else {
                    let xn: i64 = if x < 0 {
                        -(x as i64)
                    } else {
                        x as i64
                    };
                    let yn: i64 = if y < 0 {
                        -(y as i64)
                    } else {
                        y as i64
                    };
                    let q: i64 = xn / yn;
                    let signed: i64 = if (x < 0) != (y < 0) {
                        -q
                    } else {
                        q
                    };
                    proof {
                        let xa = abs_int(x as int);
                        let ya = abs_int(y as int);
                        assert(q == xa / ya);
                        if ya == 1 {
                            assert(q == xa);
                        } else {
                            vstd::arithmetic::div_mod::lemma_div_is_ordered_by_denominator(
                                xa,
                                2,
                                ya,
                            );
                            vstd::arithmetic::div_mod::lemma_div_is_ordered(xa, 2147483648, 2);
                            assert(q <= 1073741824);
                        }
                        assert(signed == spec_trunc_div(x as int, y as int));
                        assert(i32::MIN <= signed <= i32::MAX);
                    }
                    Ok(Value::Integer(signed as i32))
                }
            },
            (Value::Integer(x), Value::Float(y)) => Ok(
                Value::Float(float_of_i32(float_to_i32(float_div(float_of_i32(x), y)))),
            ),
            (Value::Float(x), Value::Integer(y)) => Ok(
                Value::Float(float_of_i32(float_to_i32(float_div(x, float_of_i32(y))))),
            ),
            (Value::Float(x), Value::Float(y)) => Ok(
                Value::Float(float_of_i32(float_to_i32(float_div(x, y)))),
            ),
            _ => Err(pair_error(&self, &rhs)),
        }
    }

    /// Exponentiation (`**`). The result is always a float for integer and
    /// float pairs and complex for a complex base; the payload is an output
    /// of the supplied float or complex power routine (which the library
    /// cannot perform itself), applied to the operands' encodings.
    pub fn pow<FP: Fn(u64, u64) -> u64, CP: Fn(u64, u64, u64, u64) -> (u64, u64)>(
        self,
        rhs: Value,
        fpow: &FP,
        cpow: &CP,
    ) -> (r: Result<Value, RuntimeError>)
        requires
            forall|a: u64, b: u64| fpow.requires((a, b)),
            forall|a: u64, b: u64, c: u64, d: u64| cpow.requires((a, b, c, d)),
        ensures
            spec_pow_exact(self, rhs, *fpow, *cpow, r),
            spec_pow_result(self, rhs, r),
    {
        match (self, rhs) {
            (Value::Integer(x), Value::Integer(y)) => {
                let xb = float_of_i32(x);
                let yb = float_of_i32(y);
                let p = fpow(xb, yb);
                proof {
                    assert(call_ensures(*fpow, (f64_of_i32(x), f64_of_i32(y)), p));
                }
                Ok(Value::Float(p))
            },
            (Value::Float(x), Value::Integer(y)) => {
                let yb = float_of_i32(y);
                let p = fpow(x, yb);
                proof {
                    assert(call_ensures(*fpow, (x, f64_of_i32(y)), p));
                }
                Ok(Value::Float(p))
            },
            (Value::Float(x), Value::Float(y)) => {
                let p = fpow(x, y);
                proof {
                    assert(call_ensures(*fpow, (x, y), p));
                }
                Ok(Value::Float(p))
            },
            (Value::Complex(xr, xi), Value::Integer(y)) => {
                // the exponent becomes the complex number y + 0i (the
                // encoding of +0.0 is 0).
                let yb = float_of_i32(y);
                let p = cpow(xr, xi, yb, 0);
                proof {
                    assert(call_ensures(*cpow, (xr, xi, f64_of_i32(y), 0u64), p));
                }
                Ok(Value::Complex(p.0, p.1))
            },
            (Value::Complex(xr, xi), Value::Complex(yr, yi)) => {
                let p = cpow(xr, xi, yr, yi);
                proof {
                    assert(call_ensures(*cpow, (xr, xi, yr, yi), p));
                }
                Ok(Value::Complex(p.0, p.1))
            },
            _ => Err(pair_error(&self, &rhs)),
        }
    }
}

/// Value inequality (`!=`): the negation of value equality, on the same
/// pairs.
pub open spec fn spec_value_neq(a: Value, b: Value) -> Result<Value, RuntimeError> {
    match spec_value_eq(a, b) {
        Ok(Value::Bool(x)) => Ok(Value::Bool(!x)),
        other => other,
    }
}

impl Value {
    /// Value equality (`==`).
    pub fn value_eq(self, rhs: Value) -> (r: Result<Value, RuntimeError>)
        ensures
            r == spec_value_eq(self, rhs),
    {
        match (self, rhs) {
            (Value::Integer(x), Value::Integer(y)) => Ok(Value::Bool(x == y)),
            (Value::Float(x), Value::Float(y)) => Ok(Value::Bool(float_eq(x, y))),
            (Value::Complex(xr, xi), Value::Complex(yr, yi)) => {
                let re = float_eq(xr, yr);
                let im = float_eq(xi, yi);
                Ok(Value::Bool(re && im))
            },
            _ => Err(pair_error(&self, &rhs)),
        }
    }

    /// Value inequality (`!=`).
    pub fn value_neq(self, rhs: Value) -> (r: Result<Value, RuntimeError>)
        ensures
            r == spec_value_neq(self, rhs),
    {
        match self.value_eq(rhs) {
            Ok(Value::Bool(x)) => Ok(Value::Bool(!x)),
            other => other,
        }
    }

    /// Strict less-than on integer or float pairs.
    pub fn value_lt(self, rhs: Value) -> (r: Result<Value, RuntimeError>)
        ensures
            r == spec_value_lt(self, rhs),
    {
        match (self, rhs) {
            (Value::Integer(x), Value::Integer(y)) => Ok(Value::Bool(x < y)),
            (Value::Float(x), Value::Float(y)) => Ok(Value::Bool(float_lt(x, y))),
            (Value::Complex(_, _), Value::Complex(_, _)) => Err(RuntimeError::UnorderedOperands),
            _ => Err(pair_error(&self, &rhs)),
        }
    }

    /// Less-than-or-equal on integer or float pairs.
    pub fn value_le(self, rhs: Value) -> (r: Result<Value, RuntimeError>)
        ensures
            r == spec_value_le(self, rhs),
    {
        match (self, rhs) {
            (Value::Integer(x), Value::Integer(y)) => Ok(Value::Bool(x <= y)),
            (Value::Float(x), Value::Float(y)) => Ok(Value::Bool(float_le(x, y))),
            (Value::Complex(_, _), Value::Complex(_, _)) => Err(RuntimeError::UnorderedOperands),
            _ => Err(pair_error(&self, &rhs)),
        }
    }
}

/// The error for a pair of operands no rule covers.
fn pair_error(a: &Value, b: &Value) -> (r: RuntimeError)
    ensures
        r == spec_pair_error(*a, *b),
{
    if is_number(a) && is_number(b) {
        RuntimeError::MismatchedOperands
    } else {
        RuntimeError::OperandsNotNumbers
    }
}

} // verus!
